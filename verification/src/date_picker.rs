//! The date picker: one selected calendar day, moved a day or a week at
//! a time.

use vstd::prelude::*;

use crate::component::Consumed;
use crate::component::KeyCode;
use crate::component::KeyEvent;
use crate::tti::day_of;
use crate::tti::Timestamp;
use crate::tti::MAX_SECS;
use crate::tti::MIN_SECS;

verus! {

/// A calendar day inside the supported range, as a day number.
pub open spec fn day_in_range(day: int) -> bool {
    day_of(MIN_SECS as int) <= day <= day_of(MAX_SECS as int)
}

/// Where the selected day moves on one key: a week up or down, a day
/// left or right, stopping at the edge of the supported range.
pub open spec fn spec_move_day(day: int, code: KeyCode) -> int {
    let moved = match code {
        KeyCode::Up => day - 7,
        KeyCode::Down => day + 7,
        KeyCode::Left => day - 1,
        KeyCode::Right => day + 1,
        _ => day,
    };
    if day_in_range(moved) {
        moved
    } else {
        day
    }
}

/// The selected calendar day.
pub struct DatePickerState {
    selected: i64,
}

impl DatePickerState {
    /// The selected day, as a mathematical value.
    pub closed spec fn spec_selected(self) -> int {
        self.selected as int
    }

    /// The selected day lies in the supported calendar range.
    pub closed spec fn wf(self) -> bool {
        day_in_range(self.selected as int)
    }

    /// A picker on the given day, usually today.
    pub fn new(day: i64) -> (r: DatePickerState)
        requires
            day_in_range(day as int),
        ensures
            r.spec_selected() == day,
            r.wf(),
    {
        DatePickerState { selected: day }
    }

    pub fn set_selected(&mut self, selected: i64)
        requires
            day_in_range(selected as int),
        ensures
            final(self).spec_selected() == selected,
            final(self).wf(),
    {
        self.selected = selected;
    }

    pub fn get_selected(&self) -> (r: i64)
        ensures
            r as int == self.spec_selected(),
    {
        self.selected
    }

    /// Move the selection by a day or a week; arrow keys are consumed,
    /// everything else is not.
    pub fn handle_event(&mut self, event: KeyEvent) -> (r: Consumed)
        requires
            old(self).wf(),
        ensures
            final(self).wf(),
            final(self).spec_selected() == spec_move_day(old(self).spec_selected(), event.code),
            r == match event.code {
                KeyCode::Up | KeyCode::Down | KeyCode::Left | KeyCode::Right => Consumed::Consumed,
                _ => Consumed::NotConsumed,
            },
    {
        let lo = Timestamp::new(MIN_SECS, 0).day();
        let hi = Timestamp::new(MAX_SECS, 0).day();
        match event.code {
            KeyCode::Up => {
                if self.selected - 7 >= lo {
                    self.selected = self.selected - 7;
                }
                Consumed::Consumed
            },
            KeyCode::Down => {
                if self.selected + 7 <= hi {
                    self.selected = self.selected + 7;
                }
                Consumed::Consumed
            },
            KeyCode::Left => {
                if self.selected - 1 >= lo {
                    self.selected = self.selected - 1;
                }
                Consumed::Consumed
            },
            KeyCode::Right => {
                if self.selected + 1 <= hi {
                    self.selected = self.selected + 1;
                }
                Consumed::Consumed
            },
            _ => Consumed::NotConsumed,
        }
    }
}

} // verus!

//! The history list: a window over the recorded intervals with a
//! selection, scrolling, and the quick-select indices of the first few
//! distinct activities on screen.

use vstd::prelude::*;

use crate::component::Consumed;
use crate::component::KeyCode;
use crate::component::KeyEvent;
use crate::store::models;
use crate::tti::ItemModel;
use crate::tti::TimeTrackingItem;

verus! {

/// The persistent part of the list between draws.
pub ghost struct HistoryStateModel {
    pub scroll_y: int,
    pub selected: Option<int>,
}

/// The list as it stands for one draw.
pub ghost struct HistoryModel {
    pub state: HistoryStateModel,
    pub items: Seq<ItemModel>,
    pub indices: Seq<int>,
    pub page_size: int,
    pub show_indices: bool,
}

/// Whether an earlier on-screen interval, from position `lo` on, already
/// carries the activity of the interval at `k`.
pub open spec fn seen_before(items: Seq<ItemModel>, lo: int, k: int) -> bool {
    exists|j: int| lo <= j < k && (#[trigger] items[j]).activity == items[k].activity
}

/// The positions, from `k` up to `hi`, of the first intervals to carry
/// their activity since position `lo`, at most `left` of them.
pub open spec fn quick_indices(items: Seq<ItemModel>, lo: int, k: int, hi: int, left: int) -> Seq<
    int,
>
    decreases hi - k,
{
    if k >= hi || hi > items.len() || left <= 0 {
        Seq::empty()
    } else if !seen_before(items, lo, k) {
        seq![k] + quick_indices(items, lo, k + 1, hi, left - 1)
    } else {
        quick_indices(items, lo, k + 1, hi, left)
    }
}

/// The scrolling and selection state of the history list.
pub struct HistoryListState {
    scroll_y: usize,
    selected: Option<usize>,
}

impl View for HistoryListState {
    type V = HistoryStateModel;

    closed spec fn view(&self) -> HistoryStateModel {
        HistoryStateModel {
            scroll_y: self.scroll_y as int,
            selected: match self.selected {
                Some(i) => Some(i as int),
                None => None,
            },
        }
    }
}

impl HistoryListState {
    /// A list at the top with nothing selected.
    pub fn new() -> (r: HistoryListState)
        ensures
            r@ == (HistoryStateModel { scroll_y: 0, selected: None }),
    {
        HistoryListState { scroll_y: 0, selected: None }
    }

    /// This state together with the intervals to show, ready for one
    /// draw.
    pub fn into_frame(self, items: Vec<TimeTrackingItem>) -> (r: HistoryListFrame)
        ensures
            r@.state == self@,
            r@.items == models(items@),
            r@.indices == Seq::<int>::empty(),
            r@.page_size == 0,
            r@.show_indices == false,
    {
        let r = HistoryListFrame {
            state: self,
            items,
            indices: Vec::new(),
            page_size: 0,
            show_indices: false,
        };
        proof {
            assert(r@.indices =~= Seq::<int>::empty());
        }
        r
    }
}

impl Default for HistoryListState {
    /// A list at the top with nothing selected.
    fn default() -> (r: HistoryListState)
        ensures
            r@ == (HistoryStateModel { scroll_y: 0, selected: None }),
    {
        HistoryListState::new()
    }
}

/// The history list during one draw.
pub struct HistoryListFrame {
    state: HistoryListState,
    items: Vec<TimeTrackingItem>,
    indices: Vec<usize>,
    page_size: u16,
    show_indices: bool,
}

impl View for HistoryListFrame {
    type V = HistoryModel;

    closed spec fn view(&self) -> HistoryModel {
        HistoryModel {
            state: self.state@,
            items: models(self.items@),
            indices: self.indices@.map_values(|i: usize| i as int),
            page_size: self.page_size as int,
            show_indices: self.show_indices,
        }
    }
}

impl crate::component::Frame<HistoryListState> for HistoryListFrame {
    fn into_state(self) -> HistoryListState {
        self.state
    }
}

impl HistoryListFrame {
    /// Scroll back to the top and drop the selection.
    pub fn reset(&mut self)
        ensures
            final(self)@ == (HistoryModel {
                state: HistoryStateModel { scroll_y: 0, selected: None },
                ..old(self)@
            }),
    {
        self.state.scroll_y = 0;
        self.state.selected = None;
    }

    /// Whether the quick-select indices are shown and gathered.
    pub fn set_show_indices(&mut self, show: bool)
        ensures
            final(self)@ == (HistoryModel { show_indices: show, ..old(self)@ }),
    {
        self.show_indices = show;
    }

    /// The selected interval, if the selection points at one.
    pub fn get_selected_item(&self) -> (r: Option<TimeTrackingItem>)
        ensures
            match self@.state.selected {
                Some(i) => if 0 <= i < self@.items.len() {
                    r matches Some(item) && item@ == self@.items[i]
                } else {
                    r is None
                },
                None => r is None,
            },
    {
        match self.state.selected {
            Some(i) => if i < self.items.len() {
                Some(self.items[i].duplicate())
            } else {
                None
            },
            None => None,
        }
    }

    /// The interval behind quick-select entry `index`, if there is one.
    pub fn get_item_with_index(&self, index: usize) -> (r: Option<TimeTrackingItem>)
        ensures
            match r {
                Some(item) => 0 <= index < self@.indices.len() && 0 <= self@.indices[index as int]
                    < self@.items.len() && item@ == self@.items[self@.indices[index as int]],
                None => index >= self@.indices.len() || self@.indices[index as int] < 0
                    || self@.indices[index as int] >= self@.items.len(),
            },
    {
        if index < self.indices.len() {
            let at = self.indices[index];
            if at < self.items.len() {
                Some(self.items[at].duplicate())
            } else {
                None
            }
        } else {
            None
        }
    }

    /// Move the selection: a line or a page at a time, or to either end.
    /// Movements saturate; the draw clamps the selection to the list.
    /// The list never swallows the event, so callers can react to it
    /// too.
    pub fn handle_event(&mut self, event: KeyEvent) -> (r: Consumed)
        ensures
            r == Consumed::NotConsumed,
            final(self)@ == (HistoryModel {
                state: HistoryStateModel {
                    selected: spec_selection(old(self)@, event.code),
                    ..old(self)@.state
                },
                ..old(self)@
            }),
    {
        let current = self.state.selected;
        let page = self.page_size as usize;
        match event.code {
            KeyCode::Up => {
                self.state.selected = Some(
                    match current {
                        Some(i) => if i > 0 {
                            i - 1
                        } else {
                            0
                        },
                        None => 0,
                    },
                );
            },
            KeyCode::Down => {
                self.state.selected = Some(
                    match current {
                        Some(i) => if i < usize::MAX {
                            i + 1
                        } else {
                            i
                        },
                        None => 0,
                    },
                );
            },
            KeyCode::PageUp => {
                self.state.selected = Some(
                    match current {
                        Some(i) => if i >= page {
                            i - page
                        } else {
                            0
                        },
                        None => 0,
                    },
                );
            },
            KeyCode::PageDown => {
                self.state.selected = Some(
                    match current {
                        Some(i) => if i <= usize::MAX - page {
                            i + page
                        } else {
                            usize::MAX
                        },
                        None => 0,
                    },
                );
            },
            KeyCode::Home => {
                self.state.selected = Some(0);
            },
            KeyCode::End => {
                self.state.selected = Some(usize::MAX);
            },
            _ => {},
        }
        Consumed::NotConsumed
    }
}

/// What one draw does to the list before anything is painted, given the
/// height of the drawing area: the page size, the clamped selection, the
/// adjusted scroll position, and the quick-select indices, together with
/// the highlighted row within the window.
pub open spec fn spec_prepare(m: HistoryModel, height: int) -> (HistoryModel, Option<int>) {
    if height < 3 {
        (m, None::<int>)
    } else {
        let page = height - 2;
        let len = m.items.len() as int;
        let sel = match m.state.selected {
            Some(i) => Some(vstd::math::min(i, vstd::math::max(len - 1, 0))),
            None => None::<int>,
        };
        let scroll1 = match sel {
            Some(i) => if i < m.state.scroll_y {
                i
            } else if i >= m.state.scroll_y + page {
                i - page + 1
            } else {
                m.state.scroll_y
            },
            None => m.state.scroll_y,
        };
        let scroll2 = vstd::math::min(scroll1, vstd::math::max(len - page, 0));
        let hi = vstd::math::min(len, scroll2 + page);
        let indices = if m.show_indices {
            quick_indices(m.items, scroll2, scroll2, hi, 9)
        } else {
            Seq::<int>::empty()
        };
        (
            HistoryModel {
                state: HistoryStateModel { scroll_y: scroll2, selected: sel },
                items: m.items,
                indices,
                page_size: page,
                show_indices: m.show_indices,
            },
            match sel {
                Some(i) => Some(i - scroll1),
                None => None::<int>,
            },
        )
    }
}

impl HistoryListFrame {
    /// Settle the list for one draw of the given height: exactly
    /// `spec_prepare` of its value; the returned row is the one to
    /// highlight within the window.
    pub fn prepare(&mut self, height: u16) -> (highlight: Option<usize>)
        ensures
            final(self)@ == spec_prepare(old(self)@, height as int).0,
            match (highlight, spec_prepare(old(self)@, height as int).1) {
                (Some(h), Some(g)) => h as int == g,
                (None, None) => true,
                _ => false,
            },
    {
        if height < 3 {
            return None;
        }
        let page = (height - 2) as usize;
        self.page_size = height - 2;
        let len = self.items.len();
        let cap = if len > 0 {
            len - 1
        } else {
            0
        };
        let sel = match self.state.selected {
            Some(i) => Some(
                if i > cap {
                    cap
                } else {
                    i
                },
            ),
            None => None,
        };
        self.state.selected = sel;
        let scroll0 = self.state.scroll_y;
        let scroll1 = match sel {
            Some(i) => if i < scroll0 {
                i
            } else if i - scroll0 >= page {
                i - page + 1
            } else {
                scroll0
            },
            None => scroll0,
        };
        let floor = if len > page {
            len - page
        } else {
            0
        };
        let scroll2 = if scroll1 > floor {
            floor
        } else {
            scroll1
        };
        self.state.scroll_y = scroll2;
        let highlight = match sel {
            Some(i) => {
                proof {
                    assert(i >= scroll1);
                }
                Some(i - scroll1)
            },
            None => None,
        };
        proof {
            assert(scroll2 <= len);
            assert(scroll2 + page <= usize::MAX);
        }
        let hi = if len < scroll2 + page {
            len
        } else {
            scroll2 + page
        };
        let mut picked: Vec<usize> = Vec::new();
        if self.show_indices {
            let lo = scroll2;
            let ghost ms = models(self.items@);
            let mut k = lo;
            proof {
                assert(picked@.map_values(|i: usize| i as int) =~= Seq::<int>::empty());
            }
            while k < hi && picked.len() < 9
                invariant
                    lo <= k <= hi <= self.items@.len(),
                    ms == models(self.items@),
                    picked@.len() <= 9,
                    quick_indices(ms, lo as int, lo as int, hi as int, 9) == picked@.map_values(
                        |i: usize| i as int,
                    ) + quick_indices(ms, lo as int, k as int, hi as int, 9 - picked@.len()),
                decreases hi - k,
            {
                let ghost picked0 = picked@.map_values(|i: usize| i as int);
                let mut seen = false;
                let mut j = lo;
                while j < k
                    invariant
                        lo <= j <= k < self.items@.len(),
                        ms == models(self.items@),
                        seen ==> seen_before(ms, lo as int, k as int),
                        !seen ==> forall|q: int|
                            lo <= q < j ==> (#[trigger] ms[q]).activity != ms[k as int].activity,
                    decreases k - j,
                {
                    let same = {
                        let a: &TimeTrackingItem = &self.items[j];
                        let b: &TimeTrackingItem = &self.items[k];
                        a.activity == b.activity
                    };
                    if same {
                        proof {
                            assert(ms[j as int].activity == ms[k as int].activity);
                        }
                        seen = true;
                    } else {
                        proof {
                            assert(ms[j as int].activity != ms[k as int].activity);
                        }
                    }
                    j += 1;
                }
                if !seen {
                    picked.push(k);
                    proof {
                        assert(!seen_before(ms, lo as int, k as int));
                        assert(picked@.map_values(|i: usize| i as int) =~= picked0.push(k as int));
                        assert(picked0.push(k as int) =~= picked0 + seq![k as int]);
                    }
                } else {
                    proof {
                        assert(seen_before(ms, lo as int, k as int));
                    }
                }
                k += 1;
            }
            proof {
                assert(quick_indices(ms, lo as int, k as int, hi as int, 9 - picked@.len())
                    == Seq::<int>::empty());
                assert(quick_indices(ms, lo as int, lo as int, hi as int, 9) =~= picked@.map_values(
                    |i: usize| i as int,
                ));
            }
        }
        self.indices = picked;
        proof {
            let target = spec_prepare(old(self)@, height as int).0;
            if !self.show_indices {
                assert(self@.indices =~= Seq::<int>::empty());
            }
            assert(self@.indices == target.indices);
            assert(self@.state.scroll_y == target.state.scroll_y);
            assert(self@.state.selected == target.state.selected);
            assert(self@.state == target.state);
            assert(self@.page_size == target.page_size);
            assert(self@.items == target.items);
            assert(self@ == target);
        }
        highlight
    }
}

/// The history list's draw entry point. Painting lives with the
/// terminal layer; `prepare` settles everything it shows.
pub struct HistoryList;

/// Where the selection moves on one key, saturating at the ends of the
/// index range.
pub open spec fn spec_selection(m: HistoryModel, code: KeyCode) -> Option<int> {
    let sel = m.state.selected;
    match code {
        KeyCode::Up => match sel {
            Some(i) => Some(if i > 0 {
                i - 1
            } else {
                0
            }),
            None => Some(0),
        },
        KeyCode::Down => match sel {
            Some(i) => Some(
                if i < usize::MAX {
                    i + 1
                } else {
                    i
                },
            ),
            None => Some(0),
        },
        KeyCode::PageUp => match sel {
            Some(i) => Some(
                if i >= m.page_size {
                    i - m.page_size
                } else {
                    0
                },
            ),
            None => Some(0),
        },
        KeyCode::PageDown => match sel {
            Some(i) => Some(
                if i + m.page_size <= usize::MAX {
                    i + m.page_size
                } else {
                    usize::MAX as int
                },
            ),
            None => Some(0),
        },
        KeyCode::Home => Some(0),
        KeyCode::End => Some(usize::MAX as int),
        _ => sel,
    }
}

} // verus!

//! A multi-line text field: lines of text, a character cursor, and a
//! scroll position, edited one key event at a time. The transition for
//! every key is pinned by `spec_handle`.

use vstd::prelude::*;

use crate::component::Consumed;
use crate::component::KeyCode;
use crate::component::KeyEvent;
use crate::string_ext::chars_of;
use crate::string_ext::push_str;
use crate::string_ext::string_from_chars;
use crate::string_ext::StringExt;

verus! {

/// The mathematical value of a text field: cursor and scroll as
/// (column, line) pairs, and the lines of text.
pub ghost struct TextModel {
    pub cursor: (int, int),
    pub scroll: (int, int),
    pub lines: Seq<Seq<char>>,
}

/// The length of line `y`, or zero where no such line exists.
pub open spec fn line_len_at(lines: Seq<Seq<char>>, y: int) -> int {
    if 0 <= y < lines.len() {
        lines[y].len() as int
    } else {
        0
    }
}

/// The lines joined by newlines: the text a field holds.
pub open spec fn joined(ls: Seq<Seq<char>>) -> Seq<char>
    decreases ls.len(),
{
    if ls.len() == 0 {
        Seq::empty()
    } else if ls.len() == 1 {
        ls[0]
    } else {
        joined(ls.drop_last()) + seq!['\n'] + ls.last()
    }
}

/// Text split into lines as `str::lines` does: split at newlines or at a
/// carriage return followed by a newline, with the final line ending
/// optional.
pub open spec fn split_lines(s: Seq<char>) -> Seq<Seq<char>>
    decreases s.len(),
{
    if s.len() == 0 {
        Seq::empty()
    } else if s.len() >= 2 && s[0] == '\r' && s[1] == '\n' {
        seq![Seq::<char>::empty()] + split_lines(s.skip(2))
    } else if s[0] == '\n' {
        seq![Seq::<char>::empty()] + split_lines(s.drop_first())
    } else {
        let rest = split_lines(s.drop_first());
        if rest.len() == 0 {
            seq![seq![s[0]]]
        } else {
            rest.update(0, seq![s[0]] + rest[0])
        }
    }
}

/// A partially gathered first line `cur` put in front of the remaining
/// split `rest`.
pub open spec fn glue(cur: Seq<char>, rest: Seq<Seq<char>>) -> Seq<Seq<char>> {
    if rest.len() == 0 {
        if cur.len() == 0 {
            Seq::empty()
        } else {
            seq![cur]
        }
    } else {
        rest.update(0, cur + rest[0])
    }
}

/// The field after one key event. Each arm mirrors one key's editing
/// rule; any other key changes nothing.
pub open spec fn spec_handle(m: TextModel, e: KeyEvent) -> TextModel {
    let x = m.cursor.0;
    let y = m.cursor.1;
    match e.code {
        KeyCode::Backspace => if x > 0 {
            TextModel {
                cursor: (x - 1, y),
                lines: m.lines.update(y, m.lines[y].remove(x - 1)),
                ..m
            }
        } else if m.lines.len() > 0 {
            let removed = m.lines[y];
            let rest = m.lines.remove(y);
            let y2 = if y > 0 {
                y - 1
            } else {
                0
            };
            let x2 = line_len_at(rest, y2);
            if rest.len() > 0 {
                TextModel {
                    cursor: (x2, y2),
                    lines: rest.update(y2, rest[y2] + removed),
                    ..m
                }
            } else {
                TextModel { cursor: (x2, y2), lines: rest, ..m }
            }
        } else {
            m
        },
        KeyCode::Delete => if m.lines.len() > 0 {
            if x < m.lines[y].len() {
                TextModel { lines: m.lines.update(y, m.lines[y].remove(x)), ..m }
            } else if y + 1 < m.lines.len() {
                TextModel {
                    lines: m.lines.update(y, m.lines[y] + m.lines[y + 1]).remove(y + 1),
                    ..m
                }
            } else {
                m
            }
        } else {
            m
        },
        KeyCode::Enter => if m.lines.len() == 0 {
            TextModel {
                cursor: (0, 1),
                lines: seq![Seq::<char>::empty(), Seq::<char>::empty()],
                ..m
            }
        } else {
            TextModel {
                cursor: (0, y + 1),
                lines: m.lines.update(y, m.lines[y].take(x)).insert(y + 1, m.lines[y].skip(x)),
                ..m
            }
        },
        KeyCode::Char(c) => if m.lines.len() == 0 {
            TextModel { cursor: (x + 1, y), lines: seq![seq![c]], ..m }
        } else {
            TextModel { cursor: (x + 1, y), lines: m.lines.update(y, m.lines[y].insert(x, c)), ..m }
        },
        KeyCode::Up => if y > 0 {
            TextModel {
                cursor: (vstd::math::min(line_len_at(m.lines, y - 1), x), y - 1),
                ..m
            }
        } else {
            m
        },
        KeyCode::Down => if y + 1 < m.lines.len() {
            TextModel {
                cursor: (vstd::math::min(line_len_at(m.lines, y + 1), x), y + 1),
                ..m
            }
        } else {
            m
        },
        KeyCode::Left => if x > 0 {
            TextModel { cursor: (x - 1, y), ..m }
        } else {
            m
        },
        KeyCode::Right => TextModel {
            cursor: (vstd::math::min(line_len_at(m.lines, y), x + 1), y),
            ..m
        },
        KeyCode::End => TextModel { cursor: (line_len_at(m.lines, y), y), ..m },
        KeyCode::Home => TextModel { cursor: (0, y), ..m },
        _ => m,
    }
}

/// A multi-line text field's state between draws.
pub struct TextFieldState {
    cursor: (usize, usize),
    scroll: (u16, u16),
    lines: Vec<String>,
    pub cursor_screen_pos: (u16, u16),
}

impl View for TextFieldState {
    type V = TextModel;

    closed spec fn view(&self) -> TextModel {
        TextModel {
            cursor: (self.cursor.0 as int, self.cursor.1 as int),
            scroll: (self.scroll.0 as int, self.scroll.1 as int),
            lines: self.lines@.map_values(|l: String| l@),
        }
    }
}

impl TextFieldState {
    /// Where the cursor was last placed on screen.
    pub closed spec fn spec_cursor_screen(self) -> (int, int) {
        (self.cursor_screen_pos.0 as int, self.cursor_screen_pos.1 as int)
    }

    /// The cursor sits on an existing line, at or before its last
    /// character; with no lines at all it sits at the origin.
    pub open spec fn wf(self) -> bool {
        if self@.lines.len() == 0 {
            self@.cursor == (0int, 0int)
        } else {
            0 <= self@.cursor.1 < self@.lines.len() && 0 <= self@.cursor.0 <= self@.lines[self@.cursor.1].len()
        }
    }

    /// An empty field.
    pub fn new() -> (r: TextFieldState)
        ensures
            r@.lines == Seq::<Seq<char>>::empty(),
            r@.cursor == (0int, 0int),
            r@.scroll == (0int, 0int),
            r.wf(),
    {
        let r = TextFieldState {
            cursor: (0, 0),
            scroll: (0, 0),
            lines: Vec::new(),
            cursor_screen_pos: (0, 0),
        };
        proof {
            assert(r@.lines =~= Seq::<Seq<char>>::empty());
        }
        r
    }

    /// Drop all text and put cursor and scroll back at the origin.
    pub fn clear(&mut self)
        ensures
            final(self)@.lines == Seq::<Seq<char>>::empty(),
            final(self)@.cursor == (0int, 0int),
            final(self)@.scroll == (0int, 0int),
            final(self).wf(),
    {
        self.lines.clear();
        self.cursor = (0, 0);
        self.scroll = (0, 0);
        proof {
            assert(self@.lines =~= Seq::<Seq<char>>::empty());
        }
    }

    /// Whether the first line holds any text.
    pub fn has_text(&self) -> (r: bool)
        ensures
            r == (self@.lines.len() > 0 && self@.lines[0].len() > 0),
    {
        if self.lines.len() > 0 {
            let line: &String = &self.lines[0];
            line.as_str().unicode_len() > 0
        } else {
            false
        }
    }

    /// The whole text: the lines joined by newlines.
    pub fn get_text(&self) -> (r: String)
        ensures
            r@ == joined(self@.lines),
    {
        let n = self.lines.len();
        let mut out: Vec<char> = Vec::new();
        let mut j: usize = 0;
        proof {
            assert(self@.lines.take(0) =~= Seq::<Seq<char>>::empty());
        }
        while j < n
            invariant
                n == self.lines@.len(),
                0 <= j <= n,
                out@ == joined(self@.lines.take(j as int)),
            decreases n - j,
        {
            let ghost prefix = self@.lines.take(j as int);
            if j > 0 {
                out.push('\n');
            }
            let cs = chars_of(self.lines[j].as_str());
            let ghost mid = out@;
            let m = cs.len();
            let mut k: usize = 0;
            while k < m
                invariant
                    m == cs@.len(),
                    0 <= k <= m,
                    out@ == mid + cs@.take(k as int),
                decreases m - k,
            {
                out.push(cs[k]);
                proof {
                    assert(out@ =~= mid + cs@.take(k + 1));
                }
                k += 1;
            }
            proof {
                let next = self@.lines.take(j + 1);
                assert(next.drop_last() =~= prefix);
                assert(next.last() == self@.lines[j as int]);
                assert(cs@.take(m as int) =~= cs@);
                if j == 0 {
                    assert(out@ =~= joined(next));
                } else {
                    assert(out@ =~= joined(prefix) + seq!['\n'] + self@.lines[j as int]);
                }
            }
            j += 1;
        }
        proof {
            assert(self@.lines.take(n as int) =~= self@.lines);
        }
        string_from_chars(&out)
    }

    /// Replace the whole text, splitting it into lines; cursor and
    /// scroll are left where they were.
    pub fn set_text(&mut self, text: &str)
        ensures
            final(self)@.lines == split_lines(text@),
            final(self)@.cursor == old(self)@.cursor,
            final(self)@.scroll == old(self)@.scroll,
    {
        let cs = chars_of(text);
        let n = cs.len();
        let mut acc: Vec<String> = Vec::new();
        let mut cur: Vec<char> = Vec::new();
        let mut i: usize = 0;
        proof {
            assert(cs@.skip(0) =~= cs@);
            assert(acc@.map_values(|l: String| l@) =~= Seq::<Seq<char>>::empty());
            assert(glue(cur@, split_lines(cs@)) =~= split_lines(text@));
        }
        while i < n
            invariant
                n == cs@.len(),
                cs@ == text@,
                0 <= i <= n,
                split_lines(text@) == acc@.map_values(|l: String| l@) + glue(
                    cur@,
                    split_lines(cs@.skip(i as int)),
                ),
            decreases n - i,
        {
            let ghost tail = cs@.skip(i as int);
            let ghost acc0 = acc@.map_values(|l: String| l@);
            let ghost cur0 = cur@;
            if cs[i] == '\r' && i + 1 < n && cs[i + 1] == '\n' {
                acc.push(string_from_chars(&cur));
                cur = Vec::new();
                i += 2;
                proof {
                    assert(tail[0] == '\r' && tail[1] == '\n');
                    assert(tail.skip(2) =~= cs@.skip(i as int));
                    assert(split_lines(tail) == seq![Seq::<char>::empty()] + split_lines(
                        cs@.skip(i as int),
                    ));
                    lemma_glue_break(acc0, cur0, split_lines(cs@.skip(i as int)));
                    assert(acc@.map_values(|l: String| l@) =~= acc0.push(cur0));
                    assert(cur@ =~= Seq::<char>::empty());
                }
            } else if cs[i] == '\n' {
                acc.push(string_from_chars(&cur));
                cur = Vec::new();
                i += 1;
                proof {
                    assert(tail[0] == '\n');
                    assert(tail.drop_first() =~= cs@.skip(i as int));
                    assert(split_lines(tail) == seq![Seq::<char>::empty()] + split_lines(
                        cs@.skip(i as int),
                    ));
                    lemma_glue_break(acc0, cur0, split_lines(cs@.skip(i as int)));
                    assert(acc@.map_values(|l: String| l@) =~= acc0.push(cur0));
                    assert(cur@ =~= Seq::<char>::empty());
                }
            } else {
                let ghost c = cs@[i as int];
                cur.push(cs[i]);
                i += 1;
                proof {
                    assert(tail[0] == c);
                    if tail.len() >= 2 {
                        assert(tail[1] == cs@[i as int]);
                    }
                    assert(tail.drop_first() =~= cs@.skip(i as int));
                    let rest = split_lines(cs@.skip(i as int));
                    assert(split_lines(tail) == (if rest.len() == 0 {
                        seq![seq![c]]
                    } else {
                        rest.update(0, seq![c] + rest[0])
                    }));
                    lemma_glue_char(cur0, c, rest);
                    assert(cur@ =~= cur0.push(c));
                }
            }
        }
        proof {
            assert(cs@.skip(n as int) =~= Seq::<char>::empty());
            assert(split_lines(cs@.skip(n as int)) == Seq::<Seq<char>>::empty());
        }
        let ghost acc_end = acc@.map_values(|l: String| l@);
        let ghost cur_end = cur@;
        if cur.len() > 0 {
            acc.push(string_from_chars(&cur));
            proof {
                assert(acc@.map_values(|l: String| l@) =~= acc_end.push(cur_end));
                assert(acc_end + glue(cur_end, Seq::<Seq<char>>::empty()) =~= acc_end.push(
                    cur_end,
                ));
            }
        } else {
            proof {
                assert(acc_end + glue(cur_end, Seq::<Seq<char>>::empty()) =~= acc_end);
            }
        }
        self.lines = acc;
        proof {
            assert(self@.lines =~= split_lines(text@));
        }
    }

    /// Put the cursor after the last character of the last line, or at
    /// the origin when there is no text.
    pub fn end(&mut self)
        ensures
            final(self)@.lines == old(self)@.lines,
            final(self)@.scroll == old(self)@.scroll,
            final(self)@.cursor == if old(self)@.lines.len() == 0 {
                (0int, 0int)
            } else {
                (
                    old(self)@.lines.last().len() as int,
                    old(self)@.lines.len() - 1,
                )
            },
            final(self).wf(),
    {
        let n = self.lines.len();
        if n > 0 {
            let last: &String = &self.lines[n - 1];
            self.cursor = (last.char_len(), n - 1);
        } else {
            self.cursor = (0, 0);
        }
    }

    /// Apply one key event to the field: exactly `spec_handle` of its
    /// value and the event. The field always consumes the event.
    pub fn handle_event(&mut self, event: KeyEvent) -> (r: Consumed)
        requires
            old(self).wf(),
        ensures
            final(self).wf(),
            final(self)@ == spec_handle(old(self)@, event),
            r == Consumed::Consumed,
    {
        match event.code {
            KeyCode::Backspace => {
                self.key_backspace(Ghost(event));
            },
            KeyCode::Delete => {
                self.key_delete(Ghost(event));
            },
            KeyCode::Enter => {
                self.key_enter(Ghost(event));
            },
            KeyCode::Char(c) => {
                self.key_char(c, Ghost(event));
            },
            KeyCode::Up => {
                if self.cursor.1 > 0 {
                    let y2 = self.cursor.1 - 1;
                    let x = self.cursor.0;
                    self.cursor = (0, y2);
                    let l = self.current_line_len();
                    let x2 = if l < x {
                        l
                    } else {
                        x
                    };
                    self.cursor = (x2, y2);
                }
            },
            KeyCode::Down => {
                if self.lines.len() > 0 && self.cursor.1 + 1 < self.lines.len() {
                    let y2 = self.cursor.1 + 1;
                    let x = self.cursor.0;
                    self.cursor = (0, y2);
                    let l = self.current_line_len();
                    let x2 = if l < x {
                        l
                    } else {
                        x
                    };
                    self.cursor = (x2, y2);
                }
            },
            KeyCode::Left => {
                if self.cursor.0 > 0 {
                    self.cursor = (self.cursor.0 - 1, self.cursor.1);
                }
            },
            KeyCode::Right => {
                let l = self.current_line_len();
                let x = self.cursor.0;
                let x2 = if x < l {
                    x + 1
                } else {
                    l
                };
                self.cursor = (x2, self.cursor.1);
            },
            KeyCode::End => {
                let l = self.current_line_len();
                self.cursor = (l, self.cursor.1);
            },
            KeyCode::Home => {
                self.cursor = (0, self.cursor.1);
            },
            _ => {},
        }
        Consumed::Consumed
    }

    fn key_backspace(&mut self, Ghost(e): Ghost<KeyEvent>)
        requires
            old(self).wf(),
            e.code == KeyCode::Backspace,
        ensures
            final(self).wf(),
            final(self)@ == spec_handle(old(self)@, e),
    {
        let ghost m = self@;
        if self.cursor.0 > 0 {
            let x = self.cursor.0 - 1;
            let y = self.cursor.1;
            self.cursor = (x, y);
            let mut line = self.lines.remove(y);
            line.remove_char(x);
            self.lines.insert(y, line);
            proof {
                assert(self@.lines =~= m.lines.update(
                    y as int,
                    m.lines[y as int].remove(x as int),
                ));
            }
        } else if self.lines.len() > 0 {
            let y = self.cursor.1;
            let line = self.lines.remove(y);
            let y2 = if y > 0 {
                y - 1
            } else {
                0
            };
            self.cursor = (0, y2);
            let x2 = self.current_line_len();
            self.cursor = (x2, y2);
            proof {
                assert(self.lines@.map_values(|l: String| l@) =~= m.lines.remove(y as int));
            }
            if self.lines.len() > 0 {
                let mut tgt = self.lines.remove(y2);
                push_str(&mut tgt, line.as_str());
                self.lines.insert(y2, tgt);
                proof {
                    let rest = m.lines.remove(y as int);
                    assert(self@.lines =~= rest.update(
                        y2 as int,
                        rest[y2 as int] + m.lines[y as int],
                    ));
                }
            }
        }
    }

    fn key_delete(&mut self, Ghost(e): Ghost<KeyEvent>)
        requires
            old(self).wf(),
            e.code == KeyCode::Delete,
        ensures
            final(self).wf(),
            final(self)@ == spec_handle(old(self)@, e),
    {
        let ghost m = self@;
        if self.lines.len() > 0 {
            let y = self.cursor.1;
            let clen = {
                let line: &String = &self.lines[y];
                line.char_len()
            };
            if self.cursor.0 < clen {
                let x = self.cursor.0;
                let mut line = self.lines.remove(y);
                line.remove_char(x);
                self.lines.insert(y, line);
                proof {
                    assert(self@.lines =~= m.lines.update(
                        y as int,
                        m.lines[y as int].remove(x as int),
                    ));
                }
            } else if y + 1 < self.lines.len() {
                let next = self.lines.remove(y + 1);
                let mut line = self.lines.remove(y);
                push_str(&mut line, next.as_str());
                self.lines.insert(y, line);
                proof {
                    assert(self@.lines =~= m.lines.update(
                        y as int,
                        m.lines[y as int] + m.lines[y + 1],
                    ).remove(y + 1));
                }
            }
        }
    }

    fn key_enter(&mut self, Ghost(e): Ghost<KeyEvent>)
        requires
            old(self).wf(),
            e.code == KeyCode::Enter,
        ensures
            final(self).wf(),
            final(self)@ == spec_handle(old(self)@, e),
    {
        let ghost m = self@;
        if self.lines.len() == 0 {
            self.lines.push(String::new());
            self.lines.push(String::new());
            self.cursor = (0, 1);
            proof {
                assert(self@.lines =~= seq![Seq::<char>::empty(), Seq::<char>::empty()]);
            }
        } else {
            let x = self.cursor.0;
            let y = self.cursor.1;
            let line = self.lines.remove(y);
            let first;
            let second;
            {
                let halves = line.split_at_char(x);
                first = halves.0.to_owned();
                second = halves.1.to_owned();
            }
            self.lines.insert(y, first);
            self.lines.insert(y + 1, second);
            self.cursor = (0, y + 1);
            proof {
                assert(first@ == m.lines[y as int].take(x as int));
                assert(second@ == m.lines[y as int].skip(x as int));
                assert(self@.lines =~= m.lines.update(
                    y as int,
                    m.lines[y as int].take(x as int),
                ).insert(y + 1, m.lines[y as int].skip(x as int)));
            }
        }
    }

    fn key_char(&mut self, c: char, Ghost(e): Ghost<KeyEvent>)
        requires
            old(self).wf(),
            e.code == KeyCode::Char(c),
        ensures
            final(self).wf(),
            final(self)@ == spec_handle(old(self)@, e),
    {
        let ghost m = self@;
        if self.lines.len() == 0 {
            let mut v: Vec<char> = Vec::new();
            v.push(c);
            self.lines.push(string_from_chars(&v));
            self.cursor = (1, 0);
            proof {
                assert(v@ =~= seq![c]);
                assert(self@.lines =~= seq![seq![c]]);
            }
        } else {
            let x = self.cursor.0;
            let y = self.cursor.1;
            let mut line = self.lines.remove(y);
            line.insert_char(x, c);
            // The character count after the insertion is a machine word,
            // which bounds the new cursor column.
            let _grown_len = line.char_len();
            self.lines.insert(y, line);
            self.cursor = (x + 1, y);
            proof {
                assert(self@.lines =~= m.lines.update(
                    y as int,
                    m.lines[y as int].insert(x as int, c),
                ));
            }
        }
    }

    /// How many characters the cursor's line holds.
    pub fn current_line_len(&self) -> (r: usize)
        ensures
            r == line_len_at(self@.lines, self@.cursor.1),
    {
        if self.cursor.1 < self.lines.len() {
            let line: &String = &self.lines[self.cursor.1];
            line.char_len()
        } else {
            0
        }
    }
}

/// The text field's draw entry point. Painting lives with the terminal
/// layer; the geometry it needs is settled here.
pub struct TextField;

impl TextField {
    /// Scroll the field so the cursor lies inside a drawing area of the
    /// given size, and fix where the cursor appears on screen. Positions
    /// wider than the screen's coordinate range wrap as the screen
    /// coordinates do.
    pub fn layout(area_x: u16, area_y: u16, width: u16, height: u16, state: &mut TextFieldState)
        requires
            width >= 1,
            height >= 1,
            area_x + width <= u16::MAX,
            area_y + height <= u16::MAX,
        ensures
            final(state)@.lines == old(state)@.lines,
            final(state)@.cursor == old(state)@.cursor,
            final(state)@.scroll == ({
                let cx = (old(state)@.cursor.0 as usize) as u16;
                let cy = (old(state)@.cursor.1 as usize) as u16;
                let sx = vstd::math::min(old(state)@.scroll.0, cx as int);
                let sy = vstd::math::min(old(state)@.scroll.1, cy as int);
                (
                    if cx as int - sx >= width as int {
                        cx as int - width as int + 1
                    } else {
                        sx
                    },
                    if cy as int - sy >= height as int {
                        cy as int - height as int + 1
                    } else {
                        sy
                    },
                )
            }),
            final(state).spec_cursor_screen().0 == area_x + ((old(state)@.cursor.0 as usize)
                as u16) as int - final(state)@.scroll.0,
            final(state).spec_cursor_screen().1 == area_y + ((old(state)@.cursor.1 as usize)
                as u16) as int - final(state)@.scroll.1,
            final(state).wf() == old(state).wf(),
    {
        let cx = state.cursor.0 as u16;
        let cy = state.cursor.1 as u16;
        if state.scroll.0 > cx {
            state.scroll.0 = cx;
        }
        if state.scroll.1 > cy {
            state.scroll.1 = cy;
        }
        if cx - state.scroll.0 >= width {
            state.scroll.0 = cx - width + 1;
        }
        if cy - state.scroll.1 >= height {
            state.scroll.1 = cy - height + 1;
        }
        state.cursor_screen_pos = (
            area_x + (cx - state.scroll.0),
            area_y + (cy - state.scroll.1),
        );
    }
}

/// Gathering a line and then meeting a line break appends the gathered
/// line.
proof fn lemma_glue_break(acc: Seq<Seq<char>>, cur: Seq<char>, rest: Seq<Seq<char>>)
    ensures
        acc + glue(cur, seq![Seq::<char>::empty()] + rest) == acc.push(cur) + glue(
            Seq::<char>::empty(),
            rest,
        ),
{
    if rest.len() == 0 {
        assert(glue(cur, seq![Seq::<char>::empty()] + rest) =~= seq![cur]);
        assert(acc + seq![cur] =~= acc.push(cur));
        assert(acc.push(cur) + glue(Seq::<char>::empty(), rest) =~= acc.push(cur));
    } else {
        assert((seq![Seq::<char>::empty()] + rest)[0] =~= Seq::<char>::empty());
        assert(glue(cur, seq![Seq::<char>::empty()] + rest) =~= seq![cur] + rest);
        assert(glue(Seq::<char>::empty(), rest) =~= rest);
        assert(acc + (seq![cur] + rest) =~= acc.push(cur) + rest);
    }
}

/// Gathering one more ordinary character moves it from the split's first
/// line into the gathered line.
proof fn lemma_glue_char(cur: Seq<char>, c: char, rest: Seq<Seq<char>>)
    ensures
        glue(
            cur,
            if rest.len() == 0 {
                seq![seq![c]]
            } else {
                rest.update(0, seq![c] + rest[0])
            },
        ) == glue(cur.push(c), rest),
{
    if rest.len() == 0 {
        assert(glue(cur, seq![seq![c]]) =~= seq![cur + seq![c]]);
        assert(cur + seq![c] =~= cur.push(c));
        assert(glue(cur.push(c), rest) =~= seq![cur.push(c)]);
    } else {
        assert(glue(cur, rest.update(0, seq![c] + rest[0])) =~= rest.update(
            0,
            cur + (seq![c] + rest[0]),
        ));
        assert(cur + (seq![c] + rest[0]) =~= cur.push(c) + rest[0]);
        assert(glue(cur.push(c), rest) =~= rest.update(0, cur.push(c) + rest[0]));
    }
}

} // verus!

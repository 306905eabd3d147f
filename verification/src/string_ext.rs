//! Character-indexed editing operations on `String`, for the text-field
//! component: positions count characters, not bytes.

use vstd::prelude::*;

verus! {

/// Relies on `String::push_str` appending the characters of `t`.
#[verifier::external_body]
pub(crate) fn push_str(s: &mut String, t: &str)
    ensures
        final(s)@ == old(s)@ + t@,
{
    s.push_str(t)
}

/// Relies on `String`'s `FromIterator` over characters: the result holds
/// exactly the characters collected.
#[verifier::external_body]
pub(crate) fn string_from_chars(v: &Vec<char>) -> (r: String)
    ensures
        r@ == v@,
{
    v.iter().collect()
}

/// The characters of `s`, one by one.
pub(crate) fn chars_of(s: &str) -> (v: Vec<char>)
    ensures
        v@ == s@,
{
    let n = s.unicode_len();
    let mut v: Vec<char> = Vec::new();
    let mut i: usize = 0;
    while i < n
        invariant
            n == s@.len(),
            0 <= i <= n,
            v@ == s@.take(i as int),
        decreases n - i,
    {
        v.push(s.get_char(i));
        proof {
            assert(v@ =~= s@.take(i + 1));
        }
        i += 1;
    }
    proof {
        assert(v@ =~= s@);
    }
    v
}

/// Editing a string by character positions.
pub trait StringExt: View<V = Seq<char>> {
    /// Remove and return the character at position `idx`.
    fn remove_char(&mut self, idx: usize) -> (c: char)
        requires
            idx < old(self)@.len(),
        ensures
            final(self)@ == old(self)@.remove(idx as int),
            c == old(self)@[idx as int],
    ;

    /// Insert `ch` at position `idx`, or at the end when `idx` lies
    /// beyond the last character.
    fn insert_char(&mut self, idx: usize, ch: char)
        ensures
            final(self)@ == old(self)@.insert(
                vstd::math::min(idx as int, old(self)@.len() as int),
                ch,
            ),
    ;

    /// The text before and the text from position `mid`, or everything
    /// and nothing when `mid` lies beyond the last character.
    fn split_at_char<'a>(&'a self, mid: usize) -> (r: (&'a str, &'a str))
        ensures
            r.0@ == self@.take(vstd::math::min(mid as int, self@.len() as int)),
            r.1@ == self@.skip(vstd::math::min(mid as int, self@.len() as int)),
    ;

    /// How many characters the string holds.
    fn char_len(&self) -> (n: usize)
        ensures
            n == self@.len(),
    ;
}

impl StringExt for String {
    fn remove_char(&mut self, idx: usize) -> (c: char) {
        let mut v = chars_of(self.as_str());
        let c = v.remove(idx);
        *self = string_from_chars(&v);
        c
    }

    fn insert_char(&mut self, idx: usize, ch: char) {
        let mut v = chars_of(self.as_str());
        let at = if idx < v.len() {
            idx
        } else {
            v.len()
        };
        v.insert(at, ch);
        *self = string_from_chars(&v);
    }

    fn split_at_char<'a>(&'a self, mid: usize) -> (r: (&'a str, &'a str)) {
        let n = self.as_str().unicode_len();
        let at = if mid < n {
            mid
        } else {
            n
        };
        (self.as_str().substring_char(0, at), self.as_str().substring_char(at, n))
    }

    fn char_len(&self) -> (n: usize) {
        self.as_str().unicode_len()
    }
}

} // verus!

//! A forward-only cursor over a fixed, in-memory sequence of characters.

use vstd::prelude::*;
use vstd::string::StrSliceExecFns;

verus! {

/// True when `pat` occurs in `s` immediately after position `i`, that is,
/// at positions `i + 1 .. i + 1 + pat.len()`. [`Scanner::scan`] matches a
/// pattern one position past the current cursor: it is always invoked right
/// after a `peek` that already inspected the character at the cursor itself.
pub open spec fn scan_match_at(s: Seq<char>, i: int, pat: Seq<char>) -> bool {
    &&& i + 1 + pat.len() <= s.len()
    &&& s.subrange(i + 1, i + 1 + pat.len()) == pat
}

/// A read-only, forward-only view over a sequence of characters, with
/// explicit lookahead. The input is fixed at construction; the cursor never
/// moves backward.
pub struct Scanner {
    cursor: usize,
    characters: Vec<char>,
}

impl Scanner {
    /// The full input this scanner reads, fixed at construction.
    pub closed spec fn input(&self) -> Seq<char> {
        self.characters@
    }

    /// The current cursor position: the index of the next unread character.
    pub closed spec fn at(&self) -> int {
        self.cursor as int
    }

    /// The cursor never runs past the end of the input.
    pub open spec fn wf(&self) -> bool {
        0 <= self.at() <= self.input().len()
    }

    pub fn new(string: &str) -> (scanner: Self)
        ensures
            scanner.input() == string@,
            scanner.at() == 0,
    {
        let length = string.unicode_len();
        let mut characters: Vec<char> = Vec::new();
        let mut next: usize = 0;
        while next < length
            invariant
                next <= length,
                length == string@.len(),
                characters@ == string@.take(next as int),
            decreases length - next,
        {
            let c = string.get_char(next);
            characters.push(c);
            next += 1;
            proof {
                assert(characters@ =~= string@.take(next as int));
            }
        }
        proof {
            assert(string@.take(length as int) =~= string@);
        }
        Scanner { cursor: 0, characters }
    }

    /// Returns the current cursor. Useful for reporting errors.
    pub fn cursor(&self) -> (position: usize)
        ensures
            position as int == self.at(),
    {
        self.cursor
    }

    /// Returns the next character without advancing the cursor.
    pub fn peek(&self) -> (next: Option<char>)
        ensures
            (match next {
                Some(c) => self.at() < self.input().len() && c == self.input()[self.at()],
                None => self.at() >= self.input().len(),
            }),
    {
        if self.cursor < self.characters.len() {
            Some(self.characters[self.cursor])
        } else {
            None
        }
    }

    /// Returns true if further progress is not possible.
    pub fn is_done(&self) -> (done: bool)
        ensures
            done == (self.at() == self.input().len()),
    {
        self.cursor == self.characters.len()
    }

    /// Returns the next character (if available) and advances the cursor by
    /// one; at the end of the input it returns `None` and leaves the cursor
    /// unchanged.
    pub fn pop(&mut self) -> (next: Option<char>)
        ensures
            final(self).input() == old(self).input(),
            (match next {
                Some(c) => {
                    &&& old(self).at() < old(self).input().len()
                    &&& c == old(self).input()[old(self).at()]
                    &&& final(self).at() == old(self).at() + 1
                },
                None => {
                    &&& old(self).at() >= old(self).input().len()
                    &&& final(self).at() == old(self).at()
                },
            }),
    {
        if self.cursor < self.characters.len() {
            let c = self.characters[self.cursor];
            self.cursor = self.cursor + 1;
            Some(c)
        } else {
            None
        }
    }

    /// Attempts to match `pat` starting one position past the current
    /// cursor. On a match the cursor advances past the matched pattern
    /// (`pat.len() + 1` characters in all); otherwise it stays unchanged.
    pub fn scan(&mut self, pat: &str) -> (matched: bool)
        ensures
            final(self).input() == old(self).input(),
            matched == scan_match_at(old(self).input(), old(self).at(), pat@),
            matched ==> final(self).at() == old(self).at() + pat@.len() + 1,
            !matched ==> final(self).at() == old(self).at(),
    {
        let pat_len = pat.unicode_len();
        let length = self.characters.len();
        if self.cursor >= length {
            return false;
        }
        if length - self.cursor - 1 < pat_len {
            return false;
        }
        let mut matched_up_to: usize = 0;
        while matched_up_to < pat_len
            invariant
                matched_up_to <= pat_len,
                pat_len == pat@.len(),
                length == self.input().len(),
                self.input() == old(self).input(),
                self.at() == old(self).at(),
                self.at() + 1 + pat_len <= length,
                forall|j: int|
                    0 <= j < matched_up_to ==> self.input()[self.at() + 1 + j] == pat@[j],
            decreases pat_len - matched_up_to,
        {
            let c = self.characters[self.cursor + 1 + matched_up_to];
            let expected = pat.get_char(matched_up_to);
            if c != expected {
                proof {
                    let s = self.input();
                    let i = self.at();
                    if scan_match_at(s, i, pat@) {
                        assert(s.subrange(i + 1, i + 1 + pat@.len())[matched_up_to as int]
                            == pat@[matched_up_to as int]);
                    }
                }
                return false;
            }
            matched_up_to += 1;
        }
        proof {
            let s = self.input();
            let i = self.at();
            assert(s.subrange(i + 1, i + 1 + pat@.len()) =~= pat@);
        }
        self.cursor = self.cursor + 1 + pat_len;
        true
    }
}

} // verus!

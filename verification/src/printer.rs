//! Text bound for the console above the prompt: it is passed on a whole line at a time,
//! and what follows the last line break waits for the rest of its line.
use vstd::prelude::*;

use crate::text::{chars_of, string_of};

verus! {

/// The text written so far that does not end a line yet.
pub struct Printer {
    string: String,
}

impl View for Printer {
    type V = Seq<char>;

    open spec fn view(&self) -> Seq<char> {
        self.pending()
    }
}

impl Printer {
    /// The text that waits for the rest of its line.
    pub closed spec fn pending(&self) -> Seq<char> {
        self.string@
    }

    /// Nothing written yet.
    pub fn new() -> (r: Printer)
        ensures
            r@ == Seq::<char>::empty(),
    {
        Printer { string: String::new() }
    }

    /// Writes `s`: if the text now holds a line break, hands back everything up to and
    /// including the last one, to be printed, and keeps the rest.
    pub fn write_str(&mut self, s: &str) -> (r: Option<String>)
        ensures
            match r {
                Some(lines) => {
                    &&& lines@ + final(self)@ == old(self)@ + s@
                    &&& lines@.len() > 0
                    &&& lines@.last() == '\n'
                    &&& !final(self)@.contains('\n')
                },
                None => {
                    &&& !(old(self)@ + s@).contains('\n')
                    &&& final(self)@ == old(self)@ + s@
                },
            },
    {
        let mut text = chars_of(self.string.as_str());
        let added = chars_of(s);
        let ghost start = text@;
        let mut k: usize = 0;
        while k < added.len()
            invariant
                k <= added.len(),
                text@ == start + added@.take(k as int),
            decreases added.len() - k,
        {
            text.push(added[k]);
            assert(added@.take(k + 1) =~= added@.take(k as int).push(added@[k as int]));
            k = k + 1;
        }
        assert(added@.take(k as int) =~= added@);
        let ghost t = text@;
        let mut end: usize = text.len();
        while end > 0 && text[end - 1] != '\n'
            invariant
                end <= text.len(),
                text@ == t,
                forall|j: int| end <= j < t.len() ==> t[j] != '\n',
            decreases end,
        {
            end = end - 1;
        }
        if end == 0 {
            proof {
                assert(!t.contains('\n')) by {
                    if t.contains('\n') {
                        let j = choose|j: int| 0 <= j < t.len() && t[j] == '\n';
                    }
                }
            }
            self.string = string_of(&text);
            return None;
        }
        let mut lines: Vec<char> = Vec::new();
        let mut rest: Vec<char> = Vec::new();
        let mut i: usize = 0;
        while i < text.len()
            invariant
                0 < end <= text.len(),
                text@ == t,
                i <= text.len(),
                i <= end ==> lines@ == t.take(i as int) && rest@.len() == 0,
                i > end ==> lines@ == t.take(end as int) && rest@ == t.subrange(end as int, i as int),
            decreases text.len() - i,
        {
            if i < end {
                lines.push(text[i]);
                assert(t.take(i + 1) =~= t.take(i as int).push(t[i as int]));
            } else {
                rest.push(text[i]);
                assert(t.subrange(end as int, i + 1) =~= t.subrange(end as int, i as int).push(t[i as int]));
            }
            i = i + 1;
        }
        proof {
            if i == end {
                assert(rest@ =~= t.subrange(end as int, i as int));
            }
            assert(lines@ + rest@ =~= t);
            assert(!rest@.contains('\n')) by {
                if rest@.contains('\n') {
                    let j = choose|j: int| 0 <= j < rest@.len() && rest@[j] == '\n';
                    assert(t[end + j] == '\n');
                }
            }
        }
        self.string = string_of(&rest);
        Some(string_of(&lines))
    }

    /// Hands back all the text that waits, to be printed, and keeps none.
    pub fn flush(&mut self) -> (r: String)
        ensures
            r@ == old(self)@,
            final(self)@ == Seq::<char>::empty(),
    {
        let mut taken = String::new();
        std::mem::swap(&mut taken, &mut self.string);
        taken
    }
}

} // verus!

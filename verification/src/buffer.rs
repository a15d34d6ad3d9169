//! The parser's source buffer: the characters fed so far and not yet read.
use vstd::prelude::*;
use std::collections::VecDeque;
use crate::text::string_push;
use vstd::std_specs::iter::IteratorSpec;

verus! {

broadcast use vstd::std_specs::vecdeque::group_vec_dequeue_axioms;

/// Which characters a bulk copy accepts.
#[derive(Debug, Clone, Copy, PartialEq, Eq, Structural)]
pub enum CopyClass {
    /// ASCII decimal digits.
    Digits,
    /// Characters that may stand unescaped inside a string literal and do
    /// not end it: neither `\`, nor `"`, nor a control character below
    /// U+0020.
    StringBody,
}

/// Whether `c` belongs to the class.
pub open spec fn class_accepts(class: CopyClass, c: char) -> bool {
    match class {
        CopyClass::Digits => '0' <= c <= '9',
        CopyClass::StringBody => c != '\\' && c != '"' && c >= '\u{20}',
    }
}

impl CopyClass {
    /// Whether `c` belongs to the class.
    pub fn accepts(&self, c: char) -> (r: bool)
        ensures
            r == class_accepts(*self, c),
    {
        match self {
            CopyClass::Digits => '0' <= c && c <= '9',
            CopyClass::StringBody => c != '\\' && c != '"' && c >= '\u{20}',
        }
    }
}

/// A queue of characters: text is appended at the back and read from the
/// front.
#[derive(Debug)]
pub struct Buffer {
    data: VecDeque<char>,
}

impl View for Buffer {
    type V = Seq<char>;

    closed spec fn view(&self) -> Seq<char> {
        self.data@
    }
}

impl Buffer {
    /// An empty buffer.
    pub fn new() -> (b: Self)
        ensures
            b@ == Seq::<char>::empty(),
    {
        Buffer { data: VecDeque::new() }
    }

    /// Appends the characters of `text`.
    pub fn push(&mut self, text: &str)
        ensures
            final(self)@ == old(self)@ + text@,
    {
        let ghost start = self.data@;
        let mut chars = text.chars();
        let ghost all = text@;
        proof {
            broadcast use vstd::string::axiom_spec_iter;
        }
        let ghost mut taken: int = 0;
        loop
            invariant
                0 <= taken <= all.len(),
                chars.obeys_prophetic_iter_laws(),
                chars.remaining() == all.skip(taken),
                self.data@ == start + all.take(taken),
            ensures
                self.data@ == start + all,
            decreases all.len() - taken,
        {
            let next = chars.next();
            proof {
                broadcast use vstd::string::next_postcondition;
            }
            match next {
                Some(c) => {
                    proof {
                        assert(all.skip(taken)[0] == all[taken]);
                        assert(all.skip(taken).drop_first() == all.skip(taken + 1));
                        assert(all.take(taken + 1) == all.take(taken).push(c));
                    }
                    self.data.push_back(c);
                    proof {
                        taken = taken + 1;
                    }
                },
                None => {
                    proof {
                        assert(all.skip(taken).len() == 0);
                        assert(all.take(taken) == all);
                    }
                    break ;
                },
            }
        }
    }

    /// The next character, if any, without reading it.
    pub fn peek(&self) -> (r: Option<char>)
        ensures
            self@.len() == 0 ==> r is None,
            self@.len() > 0 ==> r == Some(self@[0]),
    {
        if self.data.len() == 0 {
            None
        } else {
            Some(self.data[0])
        }
    }

    /// Reads the next character.
    pub fn consume_char(&mut self) -> (r: Option<char>)
        ensures
            old(self)@.len() == 0 ==> r is None && final(self)@ == old(self)@,
            old(self)@.len() > 0 ==> r == Some(old(self)@[0]) && final(self)@ == old(
                self,
            )@.drop_first(),
    {
        self.data.pop_front()
    }

    /// Reads the longest prefix of characters of `class` and appends it to
    /// `dst`; returns its length.
    pub fn copy_while(&mut self, dst: &mut String, class: CopyClass) -> (n: usize)
        ensures
            n <= old(self)@.len(),
            final(self)@ == old(self)@.skip(n as int),
            final(dst)@ == old(dst)@ + old(self)@.take(n as int),
            forall|i: int| 0 <= i < n ==> class_accepts(class, #[trigger] old(self)@[i]),
            n < old(self)@.len() ==> !class_accepts(class, old(self)@[n as int]),
    {
        let ghost start = self.data@;
        let ghost dst_start = dst@;
        let total = self.data.len();
        let mut copied: usize = 0;
        loop
            invariant
                total == start.len(),
                copied <= start.len(),
                self.data@ == start.skip(copied as int),
                dst@ == dst_start + start.take(copied as int),
                forall|i: int| 0 <= i < copied ==> class_accepts(class, #[trigger] start[i]),
            ensures
                copied <= start.len(),
                self.data@ == start.skip(copied as int),
                dst@ == dst_start + start.take(copied as int),
                forall|i: int| 0 <= i < copied ==> class_accepts(class, #[trigger] start[i]),
                copied < start.len() ==> !class_accepts(class, start[copied as int]),
            decreases start.len() - copied,
        {
            if self.data.len() == 0 {
                break ;
            }
            let c = self.data[0];
            if !class.accepts(c) {
                break ;
            }
            self.data.pop_front();
            string_push(dst, c);
            proof {
                assert(start.skip(copied as int)[0] == start[copied as int]);
                assert(start.skip(copied as int).subrange(1, start.skip(copied as int).len() as int)
                    == start.skip(copied + 1));
                assert(start.take(copied + 1) == start.take(copied as int).push(c));
            }
            copied = copied + 1;
        }
        copied
    }
}

} // verus!

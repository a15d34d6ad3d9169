//! The language that the streaming parser accepts, as an automaton over
//! characters: JSON values (objects, arrays, strings, numbers, `null`,
//! `true`, `false`) separated by whitespace, with trailing commas accepted
//! in objects and arrays, Unicode whitespace when the option allows it, and
//! several root values when the option allows them.
use vstd::prelude::*;
use crate::lexical::{Literal, NumState, literal_text, num_step, skips_between_tokens};
use crate::parser::ParseState;
use crate::string_decode::{DecodeState, EscapeState, decode_step, is_plain};
use crate::event::PathItemView;

verus! {

/// The token being read.
pub enum Scan {
    /// Between tokens.
    Between,
    /// Inside a number, in the given state of the number automaton.
    Number(NumState),
    /// Inside a literal word, after the given number of its characters.
    Word(Literal, nat),
    /// Inside a string literal (an object key when the flag is set).
    Str(bool, DecodeState),
}

/// The slot of an open container that its next value fills: the next
/// index of an array, or the key of an object once its name is read (the
/// key stays until the comma that ends the member).
pub enum Slot {
    Index(nat),
    Key(Option<Seq<char>>),
}

/// Where a reader of JSON text stands: the open containers with their
/// slots, the grammar position, the token being read, and the number of
/// scalar and string values completed.
pub struct Reading {
    pub frames: Seq<Slot>,
    pub phase: ParseState,
    pub scan: Scan,
    pub done: nat,
}

/// The open containers with the innermost object's key set to `k`.
pub open spec fn keyed(frames: Seq<Slot>, k: Seq<char>) -> Seq<Slot> {
    if frames.len() > 0 {
        frames.update(frames.len() - 1, Slot::Key(Some(k)))
    } else {
        frames
    }
}

/// The open containers after the comma that ends a member or an element:
/// the innermost object's key is cleared, or the innermost array's index
/// advances.
pub open spec fn after_comma(frames: Seq<Slot>) -> Seq<Slot> {
    if frames.len() > 0 {
        match frames.last() {
            Slot::Index(i) => frames.update(frames.len() - 1, Slot::Index(i + 1)),
            Slot::Key(_) => frames.update(frames.len() - 1, Slot::Key(None)),
        }
    } else {
        frames
    }
}

/// Whether the number automaton state ends a complete number.
pub open spec fn num_accepting(s: NumState) -> bool {
    s == NumState::Zero || s == NumState::Integer || s == NumState::Fraction || s
        == NumState::ExponentInteger
}

/// The literal word that starts with `c`.
pub open spec fn word_starting_with(c: char) -> Option<Literal> {
    if c == 'n' {
        Some(Literal::Null)
    } else if c == 't' {
        Some(Literal::True)
    } else if c == 'f' {
        Some(Literal::False)
    } else {
        None
    }
}

/// The reader of a string body before its first character.
pub open spec fn body_start() -> DecodeState {
    DecodeState { decoded: Seq::empty(), escape: EscapeState::Body, pending: None }
}

/// The grammar position after a complete value inside the innermost
/// container; at the root, the end (or, when several values are allowed,
/// the start of the next one).
pub open spec fn phase_after_value(frames: Seq<Slot>, multiple: bool) -> ParseState {
    if frames.len() == 0 {
        if multiple {
            ParseState::Start
        } else {
            ParseState::End
        }
    } else if frames.last() is Index {
        ParseState::AfterArrayValue
    } else {
        ParseState::AfterPropertyValue
    }
}

/// After a complete scalar or string value.
pub open spec fn completed(g: Reading, multiple: bool) -> Reading {
    Reading {
        frames: g.frames,
        phase: phase_after_value(g.frames, multiple),
        scan: Scan::Between,
        done: g.done + 1,
    }
}

/// After an opening bracket.
pub open spec fn opened(g: Reading, is_array: bool) -> Reading {
    Reading {
        frames: g.frames.push(
            if is_array {
                Slot::Index(0)
            } else {
                Slot::Key(None)
            },
        ),
        phase: if is_array {
            ParseState::BeforeArrayValue
        } else {
            ParseState::BeforePropertyName
        },
        scan: Scan::Between,
        done: g.done,
    }
}

/// After a closing bracket.
pub open spec fn closed_container(g: Reading, multiple: bool) -> Reading {
    Reading {
        frames: g.frames.drop_last(),
        phase: phase_after_value(g.frames.drop_last(), multiple),
        scan: Scan::Between,
        done: g.done,
    }
}

/// The first character of a value.
pub open spec fn start_value(g: Reading, c: char) -> Option<Reading> {
    if c == '{' {
        Some(opened(g, false))
    } else if c == '[' {
        Some(opened(g, true))
    } else if c == '"' {
        Some(Reading { scan: Scan::Str(false, body_start()), ..g })
    } else {
        match word_starting_with(c) {
            Some(l) => Some(Reading { scan: Scan::Word(l, 1), ..g }),
            None => if num_step(NumState::Start, c) != NumState::Reject {
                Some(Reading { scan: Scan::Number(num_step(NumState::Start, c)), ..g })
            } else {
                None
            },
        }
    }
}

/// A character read between tokens.
pub open spec fn between_step(g: Reading, c: char, uws: bool, multiple: bool) -> Option<Reading> {
    if skips_between_tokens(uws, c) {
        Some(g)
    } else {
        match g.phase {
            ParseState::Start => start_value(g, c),
            ParseState::BeforePropertyName => if c == '}' {
                Some(closed_container(g, multiple))
            } else if c == '"' {
                Some(Reading { scan: Scan::Str(true, body_start()), ..g })
            } else {
                None
            },
            ParseState::AfterPropertyName => if c == ':' {
                Some(Reading { phase: ParseState::BeforePropertyValue, ..g })
            } else {
                None
            },
            ParseState::BeforePropertyValue => start_value(g, c),
            ParseState::AfterPropertyValue => if c == ',' {
                Some(
                    Reading {
                        phase: ParseState::BeforePropertyName,
                        frames: after_comma(g.frames),
                        ..g
                    },
                )
            } else if c == '}' {
                Some(closed_container(g, multiple))
            } else {
                None
            },
            ParseState::BeforeArrayValue => if c == ']' {
                Some(closed_container(g, multiple))
            } else {
                start_value(g, c)
            },
            ParseState::AfterArrayValue => if c == ',' {
                Some(
                    Reading {
                        phase: ParseState::BeforeArrayValue,
                        frames: after_comma(g.frames),
                        ..g
                    },
                )
            } else if c == ']' {
                Some(closed_container(g, multiple))
            } else {
                None
            },
            _ => None,
        }
    }
}

/// Reads one character; `None` when the text read is not the beginning of
/// an accepted document.
pub open spec fn read_step(g: Reading, c: char, uws: bool, multiple: bool) -> Option<Reading> {
    match g.scan {
        Scan::Between => between_step(g, c, uws, multiple),
        Scan::Number(ns) => if num_step(ns, c) != NumState::Reject {
            Some(Reading { scan: Scan::Number(num_step(ns, c)), ..g })
        } else if num_accepting(ns) {
            between_step(completed(g, multiple), c, uws, multiple)
        } else {
            None
        },
        Scan::Word(l, m) => if m < literal_text(l).len() && c == literal_text(l)[m as int] {
            if m + 1 == literal_text(l).len() {
                Some(completed(g, multiple))
            } else {
                Some(Reading { scan: Scan::Word(l, m + 1), ..g })
            }
        } else {
            None
        },
        Scan::Str(key, ds) => if c == '"' && ds.escape is Body && ds.pending is None {
            if key {
                Some(
                    Reading {
                        phase: ParseState::AfterPropertyName,
                        scan: Scan::Between,
                        frames: keyed(g.frames, ds.decoded),
                        ..g
                    },
                )
            } else {
                Some(completed(g, multiple))
            }
        } else {
            match decode_step(ds, c) {
                Some(d) => Some(Reading { scan: Scan::Str(key, d), ..g }),
                None => None,
            }
        },
    }
}

/// The reader before any text.
pub open spec fn reading_start() -> Reading {
    Reading { frames: Seq::empty(), phase: ParseState::Start, scan: Scan::Between, done: 0 }
}

/// The reader after `s`; `None` when `s` is not the beginning of an
/// accepted document.
pub open spec fn read_text(s: Seq<char>, uws: bool, multiple: bool) -> Option<Reading>
    decreases s.len(),
{
    if s.len() == 0 {
        Some(reading_start())
    } else {
        match read_text(s.drop_last(), uws, multiple) {
            None => None,
            Some(g) => read_step(g, s.last(), uws, multiple),
        }
    }
}

/// The path component that a slot designates; an object whose member name
/// is not read yet designates the empty key.
pub open spec fn slot_item(sl: Slot) -> PathItemView {
    match sl {
        Slot::Index(i) => PathItemView::Index(i as usize),
        Slot::Key(k) => PathItemView::Key(
            match k {
                Some(x) => x,
                None => Seq::empty(),
            },
        ),
    }
}

/// The path of the slot that a reader of `s` stands at: for each open
/// container, the index or the member name (decoded) that leads further in.
/// Empty when `s` is not the beginning of an accepted document.
pub open spec fn text_path(s: Seq<char>, uws: bool, multiple: bool) -> Seq<PathItemView> {
    match read_text(s, uws, multiple) {
        Some(g) => g.frames.map_values(|sl: Slot| slot_item(sl)),
        None => Seq::empty(),
    }
}

/// Whether the number the reader is inside is complete: the text that
/// follows, `rest`, begins with a character that cannot continue it, or is
/// empty and the input has ended.
pub open spec fn number_ended(g: Reading, rest: Seq<char>, ended: bool) -> bool {
    &&& g.scan matches Scan::Number(ns)
    &&& num_accepting(g.scan->Number_0)
    &&& if rest.len() > 0 {
        num_step(g.scan->Number_0, rest[0]) == NumState::Reject
    } else {
        ended
    }
}

/// The number a reader of `s` is inside, as written: the characters read
/// since the number began (meaningful when the reader is inside a number).
#[verifier::opaque]
pub open spec fn number_token(s: Seq<char>, uws: bool, multiple: bool) -> Seq<char>
    decreases s.len(),
{
    if s.len() == 0 {
        Seq::empty()
    } else {
        match read_text(s.drop_last(), uws, multiple) {
            Some(g) => match g.scan {
                Scan::Number(ns) => if num_step(ns, s.last()) != NumState::Reject {
                    number_token(s.drop_last(), uws, multiple).push(s.last())
                } else {
                    seq![s.last()]
                },
                _ => seq![s.last()],
            },
            None => Seq::empty(),
        }
    }
}

/// Reading one more character extends the number or begins it.
pub proof fn lemma_number_token_push(s: Seq<char>, c: char, uws: bool, multiple: bool)
    ensures
        number_token(s.push(c), uws, multiple) == match read_text(s, uws, multiple) {
            Some(g) => match g.scan {
                Scan::Number(ns) => if num_step(ns, c) != NumState::Reject {
                    number_token(s, uws, multiple).push(c)
                } else {
                    seq![c]
                },
                _ => seq![c],
            },
            None => Seq::<char>::empty(),
        },
{
    reveal(number_token);
    assert(s.push(c).drop_last() =~= s);
}

/// Characters that keep the reader inside the same number extend it.
pub proof fn lemma_number_token_run(s: Seq<char>, run: Seq<char>, g: Reading, uws: bool, multiple: bool)
    requires
        read_text(s, uws, multiple) == Some(g),
        g.scan is Number,
        forall|i: int| 0 <= i < run.len() ==> read_step(g, #[trigger] run[i], uws, multiple) == Some(
            g,
        ),
        forall|i: int| 0 <= i < run.len() ==> num_step(g.scan->Number_0, #[trigger] run[i])
            == g.scan->Number_0,
        g.scan->Number_0 != NumState::Reject,
    ensures
        number_token(s + run, uws, multiple) == number_token(s, uws, multiple) + run,
    decreases run.len(),
{
    if run.len() == 0 {
        assert(s + run =~= s);
        assert(number_token(s, uws, multiple) + run =~= number_token(s, uws, multiple));
    } else {
        let init = run.drop_last();
        assert forall|i: int| 0 <= i < init.len() implies read_step(
            g,
            #[trigger] init[i],
            uws,
            multiple,
        ) == Some(g) by {
            assert(init[i] == run[i]);
        }
        assert forall|i: int| 0 <= i < init.len() implies num_step(
            g.scan->Number_0,
            #[trigger] init[i],
        ) == g.scan->Number_0 by {
            assert(init[i] == run[i]);
        }
        lemma_number_token_run(s, init, g, uws, multiple);
        lemma_read_stays(s, init, g, uws, multiple);
        let c = run[run.len() - 1];
        let ns = g.scan->Number_0;
        assert(num_step(ns, c) == ns);
        lemma_number_token_push(s + init, c, uws, multiple);
        assert((s + init).push(c) =~= s + run);
        assert((number_token(s, uws, multiple) + init).push(c) =~= number_token(s, uws, multiple)
            + run);
    }
}

/// Whether the input may end where the reader stands.
pub open spec fn may_end(g: Reading, multiple: bool) -> bool {
    match g.scan {
        Scan::Between => g.phase == ParseState::BeforePropertyValue || g.phase
            == ParseState::BeforeArrayValue || g.phase == ParseState::End || (g.phase
            == ParseState::Start && multiple),
        Scan::Number(ns) => num_accepting(ns) && {
            let h = completed(g, multiple);
            h.phase == ParseState::BeforePropertyValue || h.phase == ParseState::BeforeArrayValue
                || h.phase == ParseState::End || (h.phase == ParseState::Start && multiple)
        },
        _ => false,
    }
}

/// Whether `s` is the beginning of an accepted document.
pub open spec fn is_viable(s: Seq<char>, uws: bool, multiple: bool) -> bool {
    read_text(s, uws, multiple) is Some
}

/// Whether `s` is a whole accepted input.
pub open spec fn is_complete_input(s: Seq<char>, uws: bool, multiple: bool) -> bool {
    read_text(s, uws, multiple) matches Some(g) && may_end(g, multiple)
}

/// Reading one more character takes one step.
pub proof fn lemma_read_push(s: Seq<char>, c: char, uws: bool, multiple: bool)
    ensures
        read_text(s.push(c), uws, multiple) == match read_text(s, uws, multiple) {
            None => None,
            Some(g) => read_step(g, c, uws, multiple),
        },
{
    assert(s.push(c).drop_last() =~= s);
}

/// A text that is not the beginning of an accepted document cannot be
/// extended into one.
pub proof fn lemma_not_viable_extends(s: Seq<char>, t: Seq<char>, uws: bool, multiple: bool)
    requires
        read_text(s, uws, multiple) is None,
    ensures
        read_text(s + t, uws, multiple) is None,
    decreases t.len(),
{
    if t.len() == 0 {
        assert(s + t =~= s);
    } else {
        lemma_not_viable_extends(s, t.drop_last(), uws, multiple);
        assert((s + t).drop_last() =~= s + t.drop_last());
    }
}

/// Characters that leave the reader where it stands leave it there
/// together.
pub proof fn lemma_read_stays(s: Seq<char>, run: Seq<char>, g: Reading, uws: bool, multiple: bool)
    requires
        read_text(s, uws, multiple) == Some(g),
        forall|i: int| 0 <= i < run.len() ==> read_step(g, #[trigger] run[i], uws, multiple) == Some(
            g,
        ),
    ensures
        read_text(s + run, uws, multiple) == Some(g),
    decreases run.len(),
{
    if run.len() == 0 {
        assert(s + run =~= s);
    } else {
        let init = run.drop_last();
        assert forall|i: int| 0 <= i < init.len() implies read_step(
            g,
            #[trigger] init[i],
            uws,
            multiple,
        ) == Some(g) by {
            assert(init[i] == run[i]);
        }
        lemma_read_stays(s, init, g, uws, multiple);
        assert((s + run).drop_last() =~= s + init);
        assert((s + run).last() == run[run.len() - 1]);
    }
}

/// Plain characters inside a string body are decoded as themselves.
pub proof fn lemma_read_plain(
    s: Seq<char>,
    run: Seq<char>,
    g: Reading,
    key: bool,
    ds: DecodeState,
    uws: bool,
    multiple: bool,
)
    requires
        read_text(s, uws, multiple) == Some(g),
        g.scan == Scan::Str(key, ds),
        ds.escape is Body,
        ds.pending is None,
        forall|i: int| 0 <= i < run.len() ==> is_plain(#[trigger] run[i]),
    ensures
        read_text(s + run, uws, multiple) == Some(
            Reading { scan: Scan::Str(key, DecodeState { decoded: ds.decoded + run, ..ds }), ..g },
        ),
    decreases run.len(),
{
    if run.len() == 0 {
        assert(s + run =~= s);
        assert(ds.decoded + run =~= ds.decoded);
    } else {
        let init = run.drop_last();
        assert forall|i: int| 0 <= i < init.len() implies is_plain(#[trigger] init[i]) by {
            assert(init[i] == run[i]);
        }
        lemma_read_plain(s, init, g, key, ds, uws, multiple);
        assert((s + run).drop_last() =~= s + init);
        assert((s + run).last() == run[run.len() - 1]);
        assert(is_plain(run[run.len() - 1]));
        assert((ds.decoded + init).push(run.last()) =~= ds.decoded + run);
    }
}

} // verus!

//! The bracket nesting of JSON text: how many objects and arrays a text
//! opens and closes, and leaves open, brackets inside string literals aside.
use vstd::prelude::*;

verus! {

/// Where a scan of JSON text stands with respect to string literals.
#[derive(PartialEq, Eq, Structural)]
pub enum NestMode {
    /// Outside any string literal.
    Out,
    /// Inside a string literal.
    InString,
    /// Inside a string literal, right after a backslash.
    InEscape,
}

/// Reads one character: brackets outside string literals open and close
/// (and are counted), quotes and backslashes move in and out of string
/// literals and escapes. The state is the depth, the mode and the number of
/// brackets seen.
pub open spec fn nest_step(st: (int, NestMode, nat), c: char) -> (int, NestMode, nat) {
    match st.1 {
        NestMode::Out => if c == '{' || c == '[' {
            (st.0 + 1, NestMode::Out, st.2 + 1)
        } else if c == '}' || c == ']' {
            (st.0 - 1, NestMode::Out, st.2 + 1)
        } else if c == '"' {
            (st.0, NestMode::InString, st.2)
        } else {
            st
        },
        NestMode::InString => if c == '\\' {
            (st.0, NestMode::InEscape, st.2)
        } else if c == '"' {
            (st.0, NestMode::Out, st.2)
        } else {
            st
        },
        NestMode::InEscape => (st.0, NestMode::InString, st.2),
    }
}

/// The scan of `s` from its start.
pub open spec fn nest_run(s: Seq<char>) -> (int, NestMode, nat)
    decreases s.len(),
{
    if s.len() == 0 {
        (0, NestMode::Out, 0)
    } else {
        nest_step(nest_run(s.drop_last()), s.last())
    }
}

/// The number of brackets that `s` leaves open (openings minus closings
/// outside string literals).
pub open spec fn nesting_depth(s: Seq<char>) -> int {
    nest_run(s).0
}

/// The number of brackets in `s` outside string literals.
pub open spec fn brackets_seen(s: Seq<char>) -> nat {
    nest_run(s).2
}

/// Reading one more character takes one step.
pub proof fn lemma_nest_push(s: Seq<char>, c: char)
    ensures
        nest_run(s.push(c)) == nest_step(nest_run(s), c),
{
    assert(s.push(c).drop_last() =~= s);
}

/// Characters that leave the scan where it stands leave it there together.
pub proof fn lemma_nest_run_stays(s: Seq<char>, run: Seq<char>)
    requires
        forall|i: int| 0 <= i < run.len() ==> nest_step(nest_run(s), #[trigger] run[i])
            == nest_run(s),
    ensures
        nest_run(s + run) == nest_run(s),
    decreases run.len(),
{
    if run.len() == 0 {
        assert(s + run =~= s);
    } else {
        let init = run.drop_last();
        assert forall|i: int| 0 <= i < init.len() implies nest_step(
            nest_run(s),
            #[trigger] init[i],
        ) == nest_run(s) by {
            assert(init[i] == run[i]);
        }
        lemma_nest_run_stays(s, init);
        assert((s + run).drop_last() =~= s + init);
        assert((s + run).last() == run[run.len() - 1]);
    }
}

} // verus!

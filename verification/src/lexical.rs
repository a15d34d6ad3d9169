//! The lexical rules of JSON text used by the streaming parser: whitespace,
//! the number grammar, literal words and the line/column position reached
//! after reading some text.
use vstd::prelude::*;
use vstd::std_specs::iter::IteratorSpec;

verus! {

/// The four whitespace characters of JSON: space, tab, line feed, carriage
/// return.
pub open spec fn is_json_whitespace(c: char) -> bool {
    c == ' ' || c == '\t' || c == '\n' || c == '\r'
}

/// The characters with the Unicode `White_Space` property.
pub open spec fn is_unicode_whitespace(c: char) -> bool {
    ||| '\u{9}' <= c <= '\u{D}'
    ||| c == ' '
    ||| c == '\u{85}'
    ||| c == '\u{A0}'
    ||| c == '\u{1680}'
    ||| '\u{2000}' <= c <= '\u{200A}'
    ||| c == '\u{2028}'
    ||| c == '\u{2029}'
    ||| c == '\u{202F}'
    ||| c == '\u{205F}'
    ||| c == '\u{3000}'
}

/// Whether the parser skips `c` between tokens: the JSON whitespace, or,
/// when Unicode whitespace is allowed, any Unicode whitespace and the byte
/// order mark.
pub open spec fn skips_between_tokens(allow_unicode_whitespace: bool, c: char) -> bool {
    if allow_unicode_whitespace {
        is_unicode_whitespace(c) || c == '\u{FEFF}'
    } else {
        is_json_whitespace(c)
    }
}

/// Whether `c` has the Unicode `White_Space` property.
pub fn is_whitespace(c: char) -> (r: bool)
    ensures
        r == is_unicode_whitespace(c),
{
    ('\u{9}' <= c && c <= '\u{D}') || c == ' ' || c == '\u{85}' || c == '\u{A0}' || c == '\u{1680}'
        || ('\u{2000}' <= c && c <= '\u{200A}') || c == '\u{2028}' || c == '\u{2029}' || c
        == '\u{202F}' || c == '\u{205F}' || c == '\u{3000}'
}

/// Whether `c` is skipped between tokens under the given option.
pub fn skips_whitespace(allow_unicode_whitespace: bool, c: char) -> (r: bool)
    ensures
        r == skips_between_tokens(allow_unicode_whitespace, c),
{
    if allow_unicode_whitespace {
        is_whitespace(c) || c == '\u{FEFF}'
    } else {
        c == ' ' || c == '\t' || c == '\n' || c == '\r'
    }
}

/// The line (from 1) reached after reading `s`.
pub open spec fn line_of(s: Seq<char>) -> nat
    decreases s.len(),
{
    if s.len() == 0 {
        1
    } else if s.last() == '\n' {
        line_of(s.drop_last()) + 1
    } else {
        line_of(s.drop_last())
    }
}

/// The column (from 1) reached after reading `s`.
pub open spec fn column_of(s: Seq<char>) -> nat
    decreases s.len(),
{
    if s.len() == 0 {
        1
    } else if s.last() == '\n' {
        1
    } else {
        column_of(s.drop_last()) + 1
    }
}

/// Line and column never exceed one more than the length read.
pub proof fn lemma_position_bounds(s: Seq<char>)
    ensures
        1 <= line_of(s) <= s.len() + 1,
        1 <= column_of(s) <= s.len() + 1,
    decreases s.len(),
{
    if s.len() > 0 {
        lemma_position_bounds(s.drop_last());
    }
}

/// Reading one more character moves the position as `line_of` and
/// `column_of` say.
pub proof fn lemma_position_push(s: Seq<char>, c: char)
    ensures
        line_of(s.push(c)) == if c == '\n' {
            line_of(s) + 1
        } else {
            line_of(s)
        },
        column_of(s.push(c)) == if c == '\n' {
            1
        } else {
            column_of(s) + 1
        },
{
    assert(s.push(c).drop_last() =~= s);
}

/// Reading text without line feeds keeps the line and advances the column
/// by its length.
pub proof fn lemma_position_append_no_newline(s: Seq<char>, t: Seq<char>)
    requires
        forall|i: int| 0 <= i < t.len() ==> t[i] != '\n',
    ensures
        line_of(s + t) == line_of(s),
        column_of(s + t) == column_of(s) + t.len(),
    decreases t.len(),
{
    if t.len() == 0 {
        assert(s + t =~= s);
    } else {
        let u = t.drop_last();
        assert forall|i: int| 0 <= i < u.len() implies u[i] != '\n' by {
            assert(u[i] == t[i]);
        }
        lemma_position_append_no_newline(s, u);
        assert((s + t).drop_last() =~= s + u);
        assert((s + t).last() == t.last());
        assert(t.last() == t[t.len() - 1]);
    }
}

/// States of the automaton that recognizes number lexemes.
#[derive(Debug, Clone, Copy, PartialEq, Eq, Structural)]
pub enum NumState {
    Start,
    Sign,
    Zero,
    Integer,
    Point,
    Fraction,
    Exponent,
    ExponentSign,
    ExponentInteger,
    Reject,
}

/// Whether `c` is an ASCII decimal digit.
pub open spec fn is_digit(c: char) -> bool {
    '0' <= c <= '9'
}

/// One transition of the number automaton: an optional minus sign, an
/// integer part without leading zeros, an optional fraction, an optional
/// exponent. A decimal point may also be followed directly by the
/// exponent.
pub open spec fn num_step(s: NumState, c: char) -> NumState {
    match s {
        NumState::Start => if c == '-' {
            NumState::Sign
        } else if c == '0' {
            NumState::Zero
        } else if is_digit(c) {
            NumState::Integer
        } else {
            NumState::Reject
        },
        NumState::Sign => if c == '0' {
            NumState::Zero
        } else if is_digit(c) {
            NumState::Integer
        } else {
            NumState::Reject
        },
        NumState::Zero => if c == '.' {
            NumState::Point
        } else if c == 'e' || c == 'E' {
            NumState::Exponent
        } else {
            NumState::Reject
        },
        NumState::Integer => if is_digit(c) {
            NumState::Integer
        } else if c == '.' {
            NumState::Point
        } else if c == 'e' || c == 'E' {
            NumState::Exponent
        } else {
            NumState::Reject
        },
        NumState::Point => if is_digit(c) {
            NumState::Fraction
        } else if c == 'e' || c == 'E' {
            NumState::Exponent
        } else {
            NumState::Reject
        },
        NumState::Fraction => if is_digit(c) {
            NumState::Fraction
        } else if c == 'e' || c == 'E' {
            NumState::Exponent
        } else {
            NumState::Reject
        },
        NumState::Exponent => if c == '+' || c == '-' {
            NumState::ExponentSign
        } else if is_digit(c) {
            NumState::ExponentInteger
        } else {
            NumState::Reject
        },
        NumState::ExponentSign => if is_digit(c) {
            NumState::ExponentInteger
        } else {
            NumState::Reject
        },
        NumState::ExponentInteger => if is_digit(c) {
            NumState::ExponentInteger
        } else {
            NumState::Reject
        },
        NumState::Reject => NumState::Reject,
    }
}

/// The automaton state reached after reading `s`.
pub open spec fn num_run(s: Seq<char>) -> NumState
    decreases s.len(),
{
    if s.len() == 0 {
        NumState::Start
    } else {
        num_step(num_run(s.drop_last()), s.last())
    }
}

/// Whether `s` is a complete number lexeme.
pub open spec fn is_number_lexeme(s: Seq<char>) -> bool {
    let st = num_run(s);
    st == NumState::Zero || st == NumState::Integer || st == NumState::Fraction || st
        == NumState::ExponentInteger
}

/// Reading one more character takes one transition.
pub proof fn lemma_num_run_push(s: Seq<char>, c: char)
    ensures
        num_run(s.push(c)) == num_step(num_run(s), c),
{
    assert(s.push(c).drop_last() =~= s);
}

/// Digits keep the automaton in a digit-loop state.
pub proof fn lemma_num_run_digits(s: Seq<char>, ds: Seq<char>)
    requires
        num_run(s) == NumState::Integer || num_run(s) == NumState::Fraction || num_run(s)
            == NumState::ExponentInteger,
        forall|i: int| 0 <= i < ds.len() ==> is_digit(ds[i]),
    ensures
        num_run(s + ds) == num_run(s),
    decreases ds.len(),
{
    if ds.len() == 0 {
        assert(s + ds =~= s);
    } else {
        let u = ds.drop_last();
        assert forall|i: int| 0 <= i < u.len() implies is_digit(u[i]) by {
            assert(u[i] == ds[i]);
        }
        lemma_num_run_digits(s, u);
        assert((s + ds).drop_last() =~= s + u);
        assert((s + ds).last() == ds[ds.len() - 1]);
    }
}

/// A number lexeme, classified: an integer has neither a decimal point nor
/// an exponent.
#[derive(Debug, Clone, Copy, PartialEq, Eq)]
pub enum NumberLexeme<'a> {
    Integer(&'a str),
    Float(&'a str),
}

/// Whether a lexeme is written as an integer (no `.`, `e` or `E`).
pub open spec fn is_integer_lexeme(s: Seq<char>) -> bool {
    forall|i: int| 0 <= i < s.len() ==> s[i] != '.' && s[i] != 'e' && s[i] != 'E'
}

impl<'a> NumberLexeme<'a> {
    /// Classifies a lexeme as an integer or a float.
    pub fn classify(lexeme: &'a str) -> (r: NumberLexeme<'a>)
        ensures
            is_integer_lexeme(lexeme@) ==> r == NumberLexeme::Integer(lexeme),
            !is_integer_lexeme(lexeme@) ==> r == NumberLexeme::Float(lexeme),
    {
        let mut chars = lexeme.chars();
        let ghost all = lexeme@;
        proof {
            broadcast use vstd::string::axiom_spec_iter;
        }
        let ghost mut taken: int = 0;
        loop
            invariant
                all == lexeme@,
                0 <= taken <= all.len(),
                chars.obeys_prophetic_iter_laws(),
                chars.remaining() == all.skip(taken),
                forall|i: int| 0 <= i < taken ==> all[i] != '.' && all[i] != 'e' && all[i] != 'E',
            decreases all.len() - taken,
        {
            let next = chars.next();
            proof {
                broadcast use vstd::string::next_postcondition;
            }
            match next {
                Some(c) => {
                    proof {
                        assert(all.skip(taken)[0] == all[taken]);
                        assert(all.skip(taken).drop_first() == all.skip(taken + 1));
                    }
                    if c == '.' || c == 'e' || c == 'E' {
                        assert(all[taken] == c);
                        assert(!is_integer_lexeme(all));
                        return NumberLexeme::Float(lexeme);
                    }
                    proof {
                        taken = taken + 1;
                    }
                },
                None => {
                    proof {
                        assert(all.skip(taken).len() == 0);
                        assert(taken == all.len());
                    }
                    assert(is_integer_lexeme(all));
                    return NumberLexeme::Integer(lexeme);
                },
            }
        }
    }
}

/// The literal words of JSON.
#[derive(Debug, Clone, Copy, PartialEq, Eq, Structural)]
pub enum Literal {
    Null,
    True,
    False,
}

/// The characters of a literal word.
pub open spec fn literal_text(l: Literal) -> Seq<char> {
    match l {
        Literal::Null => seq!['n', 'u', 'l', 'l'],
        Literal::True => seq!['t', 'r', 'u', 'e'],
        Literal::False => seq!['f', 'a', 'l', 's', 'e'],
    }
}

impl Literal {
    /// The literal word that starts with `c`, if any.
    pub fn starting_with(c: char) -> (r: Option<Literal>)
        ensures
            r matches Some(l) ==> literal_text(l)[0] == c,
            r is None ==> c != 'n' && c != 't' && c != 'f',
    {
        if c == 'n' {
            Some(Literal::Null)
        } else if c == 't' {
            Some(Literal::True)
        } else if c == 'f' {
            Some(Literal::False)
        } else {
            None
        }
    }

    /// The number of characters of the word.
    pub fn len(&self) -> (r: usize)
        ensures
            r == literal_text(*self).len(),
    {
        match self {
            Literal::Null => 4,
            Literal::True => 4,
            Literal::False => 5,
        }
    }

    /// The `i`-th character of the word.
    pub fn char_at(&self, i: usize) -> (r: char)
        requires
            i < literal_text(*self).len(),
        ensures
            r == literal_text(*self)[i as int],
    {
        let s: [char; 5] = match self {
            Literal::Null => ['n', 'u', 'l', 'l', ' '],
            Literal::True => ['t', 'r', 'u', 'e', ' '],
            Literal::False => ['f', 'a', 'l', 's', 'e'],
        };
        s[i]
    }
}

} // verus!

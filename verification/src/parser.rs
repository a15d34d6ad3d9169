//! The streaming JSON parser.
//!
//! The parser is fed text in chunks and yields [`ParseEvent`]s as soon as
//! they are known; string values may arrive as several fragments. After
//! [`StreamingParser::finish`] the end of the input is known and the
//! remaining events, or an error, are produced. Once an error has been
//! returned, no further event is produced.
use vstd::prelude::*;
use crate::buffer::{Buffer, CopyClass, class_accepts};
use crate::error::{ErrorSource, ParserError, SyntaxError};
use crate::escape_buffer::{
    UnicodeEscapeBuffer,
    char_from_scalar,
    hex_value,
    is_hex_digit,
};
use crate::event::{ParseEvent, PathComponent, PathItemView, completes_value, event_path, path_view};
use crate::frames::{Frame, FrameStack, frame_slot, slot_of};
use crate::lexical::{
    Literal,
    NumState,
    column_of,
    is_digit,
    is_number_lexeme,
    lemma_num_run_digits,
    lemma_num_run_push,
    lemma_position_append_no_newline,
    lemma_position_bounds,
    lemma_position_push,
    line_of,
    literal_text,
    num_run,
    num_step,
    skips_between_tokens,
    skips_whitespace,
};
use crate::options::{NonScalarValueMode, ParserOptions};
use crate::text::string_push;
use crate::nesting::{
    NestMode,
    lemma_nest_push,
    lemma_nest_run_stays,
    nest_run,
    nest_step,
    nesting_depth,
    brackets_seen,
};
use crate::grammar::{
    Reading,
    Scan,
    Slot,
    lemma_number_token_push,
    lemma_number_token_run,
    number_token,
    number_ended,
    slot_item,
    text_path,
    after_comma,
    keyed,
    body_start,
    closed_container,
    completed,
    phase_after_value,
    is_complete_input,
    is_viable,
    lemma_not_viable_extends,
    lemma_read_plain,
    lemma_read_push,
    lemma_read_stays,
    may_end,
    num_accepting,
    opened,
    read_step,
    read_text,
};
use crate::string_decode::{
    DecodeState,
    EscapeState,
    decode_run,
    decode_string_body,
    decode_step,
    is_plain,
    lemma_decode_plain,
    lemma_decode_push,
    combine_surrogates,
};

verus! {

/// The byte of `{`.
pub const OPEN_BRACE: u8 = 123;
/// The byte of `}`.
pub const CLOSE_BRACE: u8 = 125;
/// The byte of `[`.
pub const OPEN_BRACKET: u8 = 91;
/// The byte of `]`.
pub const CLOSE_BRACKET: u8 = 93;
/// The byte of `:`.
pub const COLON: u8 = 58;
/// The byte of `,`.
pub const COMMA: u8 = 44;

/// The states of the grammar-level automaton.
#[derive(Debug, Clone, Copy, PartialEq, Eq, Structural)]
pub enum ParseState {
    Start,
    BeforePropertyName,
    AfterPropertyName,
    BeforePropertyValue,
    BeforeArrayValue,
    AfterPropertyValue,
    AfterArrayValue,
    End,
    Error,
}

/// The states of the lexer.
#[derive(Debug, Clone, Copy, PartialEq, Eq, Structural)]
pub enum LexState {
    Default,
    Value,
    ValueLiteral,
    Sign,
    Zero,
    DecimalInteger,
    DecimalPoint,
    DecimalFraction,
    DecimalExponent,
    DecimalExponentSign,
    DecimalExponentInteger,
    String,
    StringEscape,
    StringEscapeUnicode,
    Error,
}

/// A token produced by the lexer.
#[derive(Debug)]
pub enum Token {
    /// No complete token: the input is exhausted for now (or for good).
    Eof,
    /// A complete object key.
    PropertyName { value: String },
    /// A fragment of a string value.
    String { fragment: String },
    Boolean(bool),
    Null,
    /// A complete number lexeme.
    Number(String),
    /// One of `{` `}` `[` `]` `:` `,`.
    Punctuator(u8),
}

/// What the lexer sees next.
#[derive(Debug, Clone, Copy, PartialEq, Eq, Structural)]
pub enum PeekedChar {
    /// No character is buffered, more input may come.
    Empty,
    /// The next character.
    Char(char),
    /// The input has ended.
    EndOfInput,
}

/// The number-automaton state that a number lexer state stands for.
pub open spec fn number_state_of(s: LexState) -> Option<NumState> {
    match s {
        LexState::Sign => Some(NumState::Sign),
        LexState::Zero => Some(NumState::Zero),
        LexState::DecimalInteger => Some(NumState::Integer),
        LexState::DecimalPoint => Some(NumState::Point),
        LexState::DecimalFraction => Some(NumState::Fraction),
        LexState::DecimalExponent => Some(NumState::Exponent),
        LexState::DecimalExponentSign => Some(NumState::ExponentSign),
        LexState::DecimalExponentInteger => Some(NumState::ExponentInteger),
        _ => None,
    }
}

/// Whether the lexer state is inside a string literal.
pub open spec fn is_string_state(s: LexState) -> bool {
    s == LexState::String || s == LexState::StringEscape || s == LexState::StringEscapeUnicode
}

/// Whether the parse state expects the inside of an object.
pub open spec fn is_object_state(s: ParseState) -> bool {
    s == ParseState::BeforePropertyName || s == ParseState::AfterPropertyName || s
        == ParseState::BeforePropertyValue || s == ParseState::AfterPropertyValue
}

/// The character of a punctuator.
pub open spec fn punct_char(b: u8) -> char {
    if b == OPEN_BRACE {
        '{'
    } else if b == CLOSE_BRACE {
        '}'
    } else if b == OPEN_BRACKET {
        '['
    } else if b == CLOSE_BRACKET {
        ']'
    } else if b == COLON {
        ':'
    } else {
        ','
    }
}

/// How a punctuator changes the number of open containers.
pub open spec fn punct_delta(b: u8) -> int {
    if b == OPEN_BRACE || b == OPEN_BRACKET {
        1
    } else if b == CLOSE_BRACE || b == CLOSE_BRACKET {
        -1
    } else {
        0
    }
}

/// Whether a punctuator is a bracket (counted as one container opened or
/// closed).
pub open spec fn punct_count(b: u8) -> nat {
    if b == OPEN_BRACE || b == OPEN_BRACKET || b == CLOSE_BRACE || b == CLOSE_BRACKET {
        1
    } else {
        0
    }
}

/// The punctuators that the grammar state accepts.
pub open spec fn punct_allowed(s: ParseState, b: u8) -> bool {
    if expects_value(s) && (b == OPEN_BRACE || b == OPEN_BRACKET) {
        true
    } else if s == ParseState::BeforePropertyName {
        b == CLOSE_BRACE
    } else if s == ParseState::AfterPropertyName {
        b == COLON
    } else if s == ParseState::AfterPropertyValue {
        b == COMMA || b == CLOSE_BRACE
    } else if s == ParseState::BeforeArrayValue {
        b == CLOSE_BRACKET
    } else if s == ParseState::AfterArrayValue {
        b == COMMA || b == CLOSE_BRACKET
    } else {
        false
    }
}

/// Whether `s` is not empty and its last character is `c`.
pub open spec fn ends_with_char(s: Seq<char>, c: char) -> bool {
    s.len() > 0 && s.last() == c
}

/// Whether the parse state expects a value.
pub open spec fn expects_value(s: ParseState) -> bool {
    s == ParseState::Start || s == ParseState::BeforePropertyValue || s
        == ParseState::BeforeArrayValue
}

/// Whether the parse state expects the inside of an array.
pub open spec fn is_array_state(s: ParseState) -> bool {
    s == ParseState::BeforeArrayValue || s == ParseState::AfterArrayValue
}

/// The parse state after a complete value inside the given innermost
/// container (or at the root).
pub open spec fn state_after_value(frames: Seq<Frame>) -> ParseState {
    if frames.len() == 0 {
        ParseState::End
    } else if frames.last() is Array {
        ParseState::AfterArrayValue
    } else {
        ParseState::AfterPropertyValue
    }
}

/// The path of a value in the innermost open container: the container's
/// path followed by its current slot; the empty path at the root.
pub open spec fn value_path(frames: FrameStack) -> Seq<PathItemView> {
    if frames.frames().len() == 0 {
        Seq::empty()
    } else {
        frames.components().push(slot_of(frames.frames().last()))
    }
}

/// Whether a step gives an event that completes a value.
pub open spec fn step_completes(r: Result<Option<ParseEvent>, ParserError>) -> bool {
    match r {
        Ok(Some(e)) => completes_value(e),
        _ => false,
    }
}

/// Whether a call of `next` gives an event that completes a value.
pub open spec fn announces_value(r: Option<Result<ParseEvent, ParserError>>) -> bool {
    match r {
        Some(Ok(e)) => completes_value(e),
        _ => false,
    }
}

/// `path` designates the slot of the innermost open container of `frames`
/// that was just filled: the container's path followed by the array index,
/// or by a key when the container is an object (whose pending key is dropped
/// once its value is complete). With no open container it is the empty root
/// path.
pub open spec fn at_slot(frames: FrameStack, path: Seq<PathItemView>) -> bool {
    let cur = value_path(frames);
    if frames.frames().len() > 0 && frames.frames().last() is Object {
        &&& path.len() == cur.len()
        &&& path.drop_last() == cur.drop_last()
        &&& path.last() is Key
    } else {
        path == cur
    }
}

/// Where the reader of a string body stands, for a lexer state inside a
/// string literal.
pub open spec fn escape_of(s: LexState, digits: Seq<char>) -> EscapeState {
    if s == LexState::StringEscape {
        EscapeState::Escape
    } else if s == LexState::StringEscapeUnicode {
        EscapeState::Unicode(digits)
    } else {
        EscapeState::Body
    }
}

/// The pending high surrogate as a number.
pub open spec fn pending_view(p: Option<u32>) -> Option<nat> {
    match p {
        Some(h) => Some(h as nat),
        None => None,
    }
}

/// The quote character.
pub open spec fn quote() -> Seq<char> {
    seq!['"']
}

/// Whether the lexer state reads a number or a literal into its buffer.
pub open spec fn tracks_suffix(s: LexState) -> bool {
    number_state_of(s) is Some || s == LexState::ValueLiteral
}

/// Whether `s` ends with `t`.
pub open spec fn ends_with(s: Seq<char>, t: Seq<char>) -> bool {
    t.len() <= s.len() && s.subrange(s.len() - t.len(), s.len() as int) == t
}

/// Appending the same text to both keeps a suffix a suffix.
proof fn lemma_ends_with_append(s: Seq<char>, t: Seq<char>, u: Seq<char>)
    requires
        ends_with(s, t),
    ensures
        ends_with(s + u, t + u),
{
    assert((s + u).subrange((s + u).len() - (t + u).len(), (s + u).len() as int) =~= t + u);
}

/// Whether an event is about a root value.
pub open spec fn is_root_event(e: ParseEvent) -> bool {
    event_path(e).len() == 0
}

/// The streaming JSON parser.
pub struct StreamingParser {
    source: Buffer,
    end_of_input: bool,
    /// Number of characters read so far, and the line and column reached.
    pos: usize,
    line: usize,
    column: usize,
    consumed: Ghost<Seq<char>>,
    parse_state: ParseState,
    lex_state: LexState,
    /// Characters of the token being lexed: the decoded string fragment not
    /// yet emitted, or the number or literal read so far.
    buffer: String,
    unicode_escape_buffer: UnicodeEscapeBuffer,
    /// A `\u` escape that denoted a high surrogate, awaiting its low half.
    pending_high_surrogate: Option<u32>,
    literal: Literal,
    literal_matched: usize,
    /// Whether the last token was incomplete (more input is needed).
    partial_lex: bool,
    frames: FrameStack,
    /// Whether a fragment of the current string value was emitted already.
    string_open: bool,
    /// Whether the lexer is between the quotes of a string literal.
    in_literal: Ghost<bool>,
    /// The body of the string literal read so far.
    string_raw: Ghost<Seq<char>>,
    /// The fragments of the current string value emitted so far.
    string_text: Ghost<Seq<char>>,
    /// The body of the last complete string literal, and the text of its
    /// fragments.
    last_body: Ghost<Seq<char>>,
    last_text: Ghost<Seq<char>>,
    /// How many containers were opened and closed so far.
    containers: Ghost<nat>,
    /// How many scalar and string values were completed so far.
    values_done: Ghost<nat>,
    multiple_values: bool,
    allow_unicode_whitespace: bool,
    non_scalar_values: NonScalarValueMode,
}

/// A parser to which no more input can be fed.
pub struct ClosedStreamingParser {
    parser: StreamingParser,
}

impl StreamingParser {
    /// All the text fed so far.
    pub closed spec fn fed(&self) -> Seq<char> {
        self.consumed@ + self.source@
    }

    /// The text read so far.
    pub closed spec fn consumed(&self) -> Seq<char> {
        self.consumed@
    }

    /// Whether the end of the input has been announced.
    pub closed spec fn input_ended(&self) -> bool {
        self.end_of_input
    }

    /// Whether the parser has reported an error (and will produce nothing
    /// more).
    pub closed spec fn is_errored(&self) -> bool {
        self.parse_state == ParseState::Error
    }

    /// The options the parser was made with.
    pub closed spec fn options(&self) -> (bool, bool, NonScalarValueMode) {
        (self.allow_unicode_whitespace, self.multiple_values, self.non_scalar_values)
    }

    /// Position bookkeeping: the counters describe the text read, and the
    /// total fed fits the machine's counters.
    closed spec fn wf_positions(&self) -> bool {
        &&& self.pos == self.consumed@.len()
        &&& self.line == line_of(self.consumed@)
        &&& self.column == column_of(self.consumed@)
        &&& self.pos + self.source@.len() < usize::MAX - 1
    }

    /// The open containers agree with the grammar state, and no array
    /// index exceeds the number of characters read.
    closed spec fn wf_frames(&self) -> bool {
        let fs = self.frames.frames();
        &&& self.frames.wf()
        &&& (self.parse_state == ParseState::Start || self.parse_state == ParseState::End)
            ==> fs.len() == 0
        &&& is_object_state(self.parse_state) ==> fs.len() > 0 && fs.last() is Object
        &&& is_array_state(self.parse_state) ==> fs.len() > 0 && fs.last() is Array
        &&& forall|i: int|
            0 <= i < fs.len() && #[trigger] fs[i] is Array ==> fs[i]->next_index <= self.pos
    }

    /// The lexer's buffers agree with its state.
    closed spec fn wf_lexer(&self) -> bool {
        &&& self.unicode_escape_buffer.wf()
        &&& self.parse_state != ParseState::Error ==> self.lex_state != LexState::Error
        &&& (number_state_of(self.lex_state) matches Some(st) ==> num_run(self.buffer@) == st)
        &&& self.lex_state == LexState::ValueLiteral ==> {
            &&& 1 <= self.literal_matched < literal_text(self.literal).len()
            &&& self.buffer@ == literal_text(self.literal).take(self.literal_matched as int)
        }
        &&& (self.pending_high_surrogate matches Some(h) ==> 0xD800 <= h <= 0xDBFF)
        &&& self.parse_state != ParseState::Error && tracks_suffix(self.lex_state) ==> expects_value(
            self.parse_state,
        )
    }

    /// Where the reader of the current string body stands: the text
    /// emitted and buffered, the escape being read, and the pending high
    /// surrogate.
    closed spec fn decode_state(&self) -> DecodeState {
        DecodeState {
            decoded: self.string_text@ + self.buffer@,
            escape: escape_of(self.lex_state, self.unicode_escape_buffer.digits()),
            pending: pending_view(self.pending_high_surrogate),
        }
    }

    /// Between the quotes of a string literal, the body read so far follows
    /// the opening quote in the input and decodes to the fragments emitted
    /// plus the buffered text. An object key emits no fragment.
    closed spec fn wf_literal(&self) -> bool {
        self.parse_state != ParseState::Error ==> {
            &&& self.in_literal@ ==> {
                &&& is_string_state(self.lex_state)
                &&& ends_with(self.consumed@, quote() + self.string_raw@)
                &&& decode_run(self.string_raw@) == Some(self.decode_state())
            }
            &&& self.in_literal@ ==> expects_value(self.parse_state) || self.parse_state
                == ParseState::BeforePropertyName
            &&& self.in_literal@ && self.parse_state == ParseState::BeforePropertyName
                ==> self.string_text@ == Seq::<char>::empty()
            &&& !self.in_literal@ ==> self.pending_high_surrogate is None
            &&& is_string_state(self.lex_state) && !self.in_literal@ ==> !self.partial_lex
        }
    }

    /// The last complete string literal decodes to the text recorded for it.
    closed spec fn wf_last(&self) -> bool {
        decode_string_body(self.last_body@) == Some(self.last_text@)
    }

    /// The ghost record of string literals is unchanged.
    closed spec fn same_literal_ghosts(&self, other: &Self) -> bool {
        &&& self.in_literal == other.in_literal
        &&& self.string_raw == other.string_raw
        &&& self.string_text == other.string_text
        &&& self.last_body == other.last_body
        &&& self.last_text == other.last_text
    }

    /// Between tokens, the lexer is inside a string literal only when the
    /// last token was incomplete.
    closed spec fn wf_token(&self) -> bool {
        self.parse_state != ParseState::Error ==> {
            &&& self.in_literal@ ==> self.partial_lex
            &&& self.partial_lex ==> self.lex_state != LexState::Value
            &&& !self.partial_lex ==> !tracks_suffix(self.lex_state) && !self.in_literal@
            &&& self.parse_state == ParseState::End ==> !tracks_suffix(self.lex_state)
                && !self.in_literal@
        }
    }

    /// Where the scan of the text read stands: inside a string literal, after
    /// a backslash in one, or outside.
    closed spec fn nest_mode(&self) -> NestMode {
        if !self.in_literal@ {
            NestMode::Out
        } else if self.lex_state == LexState::StringEscape {
            NestMode::InEscape
        } else {
            NestMode::InString
        }
    }

    /// Where a reader of the text read stands, as the parser's state shows
    /// it (at the root, with several values allowed, the end of a value is
    /// the start of the next).
    closed spec fn reading(&self) -> Reading {
        Reading {
            frames: self.frames.frames().map_values(|f: Frame| frame_slot(f)),
            phase: if self.multiple_values && self.parse_state == ParseState::End {
                ParseState::Start
            } else {
                self.parse_state
            },
            scan: match number_state_of(self.lex_state) {
                Some(ns) => Scan::Number(ns),
                None => if self.lex_state == LexState::ValueLiteral {
                    Scan::Word(self.literal, self.literal_matched as nat)
                } else if self.in_literal@ {
                    Scan::Str(self.parse_state == ParseState::BeforePropertyName, self.decode_state())
                } else {
                    Scan::Between
                },
            },
            done: self.values_done@,
        }
    }

    /// A number was read and completed by the character that follows it,
    /// not read yet, or by the end of the input.
    closed spec fn number_completed(&self, g: Reading) -> bool {
        &&& (g.scan matches Scan::Number(ns) && num_accepting(ns) && (self.source@.len() > 0
            ==> num_step(ns, self.source@[0]) == NumState::Reject))
        &&& self.source@.len() == 0 ==> self.end_of_input
    }

    /// The text read is the beginning of an accepted document, and the
    /// parser stands where a reader of it stands.
    closed spec fn wf_grammar(&self) -> bool {
        self.parse_state != ParseState::Error ==> match read_text(
            self.consumed@,
            self.allow_unicode_whitespace,
            self.multiple_values,
        ) {
            Some(g) => (g == self.reading() || (self.number_completed(g) && completed(
                g,
                self.multiple_values,
            ) == self.reading())) && (number_state_of(self.lex_state) is Some ==> self.buffer@
                == number_token(self.consumed@, self.allow_unicode_whitespace, self.multiple_values)),
            None => false,
        }
    }

    /// An error is due: the text read, or the text read and the next
    /// character, is not the beginning of an accepted document, or the input
    /// ended where it may not.
    closed spec fn error_due(&self) -> bool {
        let uws = self.allow_unicode_whitespace;
        let m = self.multiple_values;
        ||| read_text(self.consumed@, uws, m) is None
        ||| self.source@.len() > 0 && read_text(self.consumed@.push(self.source@[0]), uws, m) is None
        ||| self.source@.len() == 0 && self.end_of_input && (read_text(self.consumed@, uws, m) matches Some(g)
            && !may_end(g, m))
    }

    /// What a token does to the reader's position.
    closed spec fn after_token(&self, t: Token) -> Reading {
        let g = self.reading();
        let m = self.multiple_values;
        match t {
            Token::Punctuator(b) => if b == OPEN_BRACE {
                opened(g, false)
            } else if b == OPEN_BRACKET {
                opened(g, true)
            } else if b == CLOSE_BRACE || b == CLOSE_BRACKET {
                closed_container(g, m)
            } else if b == COLON {
                Reading { phase: ParseState::BeforePropertyValue, ..g }
            } else if g.phase == ParseState::AfterPropertyValue {
                Reading { phase: ParseState::BeforePropertyName, frames: after_comma(g.frames), ..g }
            } else {
                Reading { phase: ParseState::BeforeArrayValue, frames: after_comma(g.frames), ..g }
            },
            Token::PropertyName { value } => Reading {
                phase: ParseState::AfterPropertyName,
                frames: keyed(g.frames, value@),
                ..g
            },
            Token::Null => completed(g, m),
            Token::Boolean(_) => completed(g, m),
            Token::Number(_) => completed(g, m),
            Token::String { .. } => if self.partial_lex {
                g
            } else {
                completed(g, m)
            },
            Token::Eof => g,
        }
    }

    /// After the lexer returned `t`: the text read leads a reader to where
    /// the parser stands once `t` is applied.
    closed spec fn wf_grammar_token(&self, t: Token) -> bool {
        self.parse_state != ParseState::Error ==> match read_text(
            self.consumed@,
            self.allow_unicode_whitespace,
            self.multiple_values,
        ) {
            Some(g) => if t is Eof || (t is String && self.partial_lex) {
                self.wf_grammar()
            } else if t is Number {
                self.number_completed(g) && completed(g, self.multiple_values) == self.after_token(
                    t,
                )
            } else {
                g == self.after_token(t)
            },
            None => false,
        }
    }

    /// In the lexer state that starts a value, the next character is there,
    /// is not skipped, and does not close the array.
    closed spec fn value_ahead(&self) -> bool {
        &&& self.source@.len() > 0
        &&& !skips_between_tokens(self.allow_unicode_whitespace, self.source@[0])
        &&& self.parse_state == ParseState::BeforeArrayValue ==> self.source@[0] != ']'
    }

    /// The next character takes a reader of the text read where it takes a
    /// reader standing where the parser stands.
    proof fn lemma_read_next(&self)
        requires
            self.wf_grammar(),
            !self.is_errored(),
            self.source@.len() > 0,
        ensures
            read_text(
                self.consumed@.push(self.source@[0]),
                self.allow_unicode_whitespace,
                self.multiple_values,
            ) == read_step(
                self.reading(),
                self.source@[0],
                self.allow_unicode_whitespace,
                self.multiple_values,
            ),
    {
        lemma_read_push(
            self.consumed@,
            self.source@[0],
            self.allow_unicode_whitespace,
            self.multiple_values,
        );
    }

    /// A number that begins at the next character consists of it.
    proof fn lemma_number_begins(&self)
        requires
            self.wf_grammar(),
            !self.is_errored(),
            self.source@.len() > 0,
            self.reading().scan is Between,
        ensures
            number_token(
                self.consumed@.push(self.source@[0]),
                self.allow_unicode_whitespace,
                self.multiple_values,
            ) == seq![self.source@[0]],
    {
        lemma_number_token_push(
            self.consumed@,
            self.source@[0],
            self.allow_unicode_whitespace,
            self.multiple_values,
        );
        let g = read_text(self.consumed@, self.allow_unicode_whitespace, self.multiple_values).unwrap();
        if g != self.reading() {
            assert(self.number_completed(g));
        }
    }

    /// The text read may end where the parser may end.
    proof fn lemma_read_end(&self)
        requires
            self.wf_grammar(),
            !self.is_errored(),
        ensures
            read_text(self.consumed@, self.allow_unicode_whitespace, self.multiple_values) matches Some(
                g,
            ) && may_end(g, self.multiple_values) == may_end(self.reading(), self.multiple_values),
    {
    }

    /// When an error is due, the text fed is not the beginning of an
    /// accepted document, or the input ended on an incomplete one.
    proof fn lemma_error_due_input(&self)
        requires
            self.error_due(),
        ensures
            !is_viable(self.fed(), self.allow_unicode_whitespace, self.multiple_values) || (
            self.end_of_input && !is_complete_input(
                self.fed(),
                self.allow_unicode_whitespace,
                self.multiple_values,
            )),
    {
        let uws = self.allow_unicode_whitespace;
        let m = self.multiple_values;
        let c = self.consumed@;
        let src = self.source@;
        if read_text(c, uws, m) is None {
            lemma_not_viable_extends(c, src, uws, m);
        } else if src.len() > 0 && read_text(c.push(src[0]), uws, m) is None {
            lemma_not_viable_extends(c.push(src[0]), src.drop_first(), uws, m);
            assert(c.push(src[0]) + src.drop_first() =~= c + src);
        } else {
            assert(c + src =~= c);
        }
    }

    /// The open containers are the brackets that the text read leaves open.
    closed spec fn wf_nest(&self) -> bool {
        self.parse_state != ParseState::Error ==> nest_run(self.consumed@) == (
            self.frames.frames().len() as int,
            self.nest_mode(),
            self.containers@,
        )
    }

    /// Inside a string literal of which no fragment was emitted, no text
    /// has been recorded.
    closed spec fn wf_text(&self) -> bool {
        self.parse_state != ParseState::Error ==> (self.in_literal@ && !self.string_open
            ==> self.string_text@ == Seq::<char>::empty())
    }

    /// Inside a number or a literal, the token read so far is what was
    /// last read from the input.
    closed spec fn wf_suffix(&self) -> bool {
        tracks_suffix(self.lex_state) ==> ends_with(self.consumed@, self.buffer@)
    }

    /// A string value in progress is being lexed, awaiting more input, at
    /// a position where a value is expected.
    closed spec fn wf_string(&self) -> bool {
        self.string_open ==> {
            &&& self.partial_lex
            &&& is_string_state(self.lex_state)
            &&& (self.parse_state == ParseState::Start || self.parse_state
                == ParseState::BeforePropertyValue || self.parse_state
                == ParseState::BeforeArrayValue)
        }
    }

    /// Internal consistency of the parser.
    pub closed spec fn wf(&self) -> bool {
        &&& self.wf_core()
        &&& self.wf_string()
        &&& self.wf_token()
        &&& self.wf_text()
        &&& self.wf_nest()
        &&& self.wf_grammar()
    }

    /// Whether a string value has been started (a fragment emitted) and not
    /// finished.
    pub closed spec fn string_in_progress(&self) -> bool {
        self.string_open
    }

    /// The number of open containers.
    pub closed spec fn depth(&self) -> nat {
        self.frames.frames().len()
    }

    /// Unless an error was reported, the open containers are exactly the
    /// brackets that the text read so far leaves open.
    pub proof fn lemma_depth_is_nesting(&self)
        requires
            self.wf(),
            !self.is_errored(),
        ensures
            self.depth() == nesting_depth(self.consumed()),
    {
    }

    /// The text of the fragments emitted so far for the string value being
    /// read, or for the last one once it is complete.
    pub closed spec fn string_so_far(&self) -> Seq<char> {
        self.string_text@
    }

    /// The body (the text between the quotes) of the last string literal
    /// read to its closing quote.
    pub closed spec fn last_string_body(&self) -> Seq<char> {
        self.last_body@
    }

    /// The text that the last complete string literal stands for.
    pub closed spec fn last_string_text(&self) -> Seq<char> {
        self.last_text@
    }

    /// The path of a value at the current position: the path of the
    /// innermost open container followed by its current slot.
    pub closed spec fn current_value_path(&self) -> Seq<PathItemView> {
        value_path(self.frames)
    }

    /// How many scalar and string values the events so far completed.
    pub closed spec fn values_announced(&self) -> nat {
        self.values_done@
    }

    /// The path of the innermost open container (empty at the root).
    pub closed spec fn container_path(&self) -> Seq<PathItemView> {
        self.frames.components()
    }

    /// True when the innermost open container is an object.
    pub closed spec fn in_object(&self) -> bool {
        self.frames.frames().len() > 0 && self.frames.frames().last() is Object
    }

    /// `path` designates the slot of the innermost open container that was
    /// just filled: it is the current value path, except that in an object
    /// only its last component is a key (the member's key, which the parser
    /// drops once the member's value is complete).
    pub open spec fn at_current_slot(&self, path: Seq<PathItemView>) -> bool {
        let cur = self.current_value_path();
        if self.in_object() {
            &&& path.len() == cur.len()
            &&& path.drop_last() == cur.drop_last()
            &&& path.last() is Key
        } else {
            path == cur
        }
    }

    /// Internal consistency of the lexer and grammar state.
    closed spec fn wf_core(&self) -> bool {
        self.wf_base() && self.wf_literal()
    }

    /// Internal consistency that holds even after a lexing error.
    closed spec fn wf_base(&self) -> bool {
        &&& self.wf_positions()
        &&& self.wf_frames()
        &&& self.wf_lexer()
        &&& self.wf_suffix()
        &&& self.wf_last()
    }

    /// What a lexer step leaves unchanged.
    closed spec fn same_grammar_state(&self, other: &Self) -> bool {
        &&& self.frames == other.frames
        &&& self.containers == other.containers
        &&& self.values_done == other.values_done
        &&& self.parse_state == other.parse_state
        &&& self.end_of_input == other.end_of_input
        &&& self.string_open == other.string_open
        &&& self.multiple_values == other.multiple_values
        &&& self.allow_unicode_whitespace == other.allow_unicode_whitespace
        &&& self.non_scalar_values == other.non_scalar_values
    }

    /// The error for position-stamped syntax errors at the current position.
    closed spec fn error_here(&self, e: SyntaxError) -> ParserError {
        ParserError { source: ErrorSource::SyntaxError(e), line: self.line, column: self.column }
    }

    /// The error for what the lexer saw, at the current position.
    closed spec fn invalid_char_error(&self, c: PeekedChar) -> ParserError {
        match c {
            PeekedChar::Char(ch) => self.error_here(SyntaxError::InvalidCharacter(ch)),
            _ => self.error_here(SyntaxError::UnexpectedEndOfInput),
        }
    }

    /// The postcondition shared by the lexer's steps.
    closed spec fn step_post(
        &self,
        old: &Self,
        r: Result<Option<Token>, ParserError>,
    ) -> bool {
        &&& self.wf_base()
        &&& r is Ok ==> self.wf_literal()
        &&& self.same_grammar_state(old)
        &&& (r matches Ok(None) && is_string_state(self.lex_state) ==> self.in_literal@)
        &&& (r matches Ok(None) && old.in_literal@ ==> self.in_literal@)
        &&& (r matches Ok(None) && self.in_literal@ ==> self.string_text@ == if old.in_literal@ {
            old.string_text@
        } else {
            Seq::<char>::empty()
        })
        &&& (r matches Ok(Some(t)) ==> (self.in_literal@ ==> self.partial_lex && (t is String
            || t is Eof)))
        &&& (r matches Ok(Some(Token::Eof)) ==> self.same_literal_ghosts(old))
        &&& (r matches Ok(Some(Token::Punctuator(b))) ==> ends_with_char(
            self.consumed@,
            punct_char(b),
        ))
        &&& (r matches Ok(Some(Token::Punctuator(b))) ==> punct_allowed(self.parse_state, b)
            && nest_run(self.consumed@) == (
            self.frames.frames().len() + punct_delta(b),
            NestMode::Out,
            self.containers@ + punct_count(b),
        ))
        &&& (r is Ok && !(r matches Ok(Some(Token::Punctuator(_)))) ==> self.wf_nest())
        &&& (r matches Ok(None) ==> self.wf_grammar())
        &&& (r matches Ok(Some(t)) ==> self.wf_grammar_token(t))
        &&& (r is Err ==> self.error_due())
        &&& (r matches Ok(Some(Token::Number(n))) ==> n@ == number_token(
            self.consumed@,
            self.allow_unicode_whitespace,
            self.multiple_values,
        ))
        &&& (r matches Ok(Some(Token::PropertyName { .. })) ==> self.parse_state
            == ParseState::BeforePropertyName)
        &&& (r matches Ok(Some(Token::String { .. })) ==> self.parse_state
            != ParseState::BeforePropertyName)
        &&& (r matches Ok(Some(t)) ==> (!self.partial_lex ==> !tracks_suffix(self.lex_state)
            && !self.in_literal@))
        &&& (r matches Ok(None) && self.lex_state == LexState::Value ==> self.value_ahead())
        &&& (r is Ok && old.lex_state == LexState::Default && old.parse_state == ParseState::End
            ==> self.lex_state == LexState::Default)
        &&& (r matches Ok(Some(t)) && (t is Number || t is Null || t is Boolean || t is String)
            ==> expects_value(self.parse_state))
        &&& (r matches Ok(Some(t)) && !(t is Eof) ==> !tracks_suffix(self.lex_state))
        &&& (r matches Ok(Some(t)) && !(t is Eof || t is String) ==> !self.partial_lex)
        &&& (r matches Ok(Some(Token::String { .. })) && self.partial_lex ==> !self.end_of_input)
        &&& (r matches Ok(Some(Token::Eof)) ==> if self.partial_lex {
            !self.end_of_input
        } else {
            self.end_of_input && self.source@.len() == 0
        })
        &&& (r matches Ok(Some(t)) ==> (self.partial_lex ==> self.lex_state != LexState::Value))
        &&& (r matches Ok(None) && self.lex_state == LexState::Value ==> expects_value(
            self.parse_state,
        ))
        &&& (r matches Ok(Some(Token::String { fragment })) ==> old.in_literal@
            && self.string_text@ == old.string_text@ + fragment@)
        &&& (r matches Ok(Some(Token::String { .. })) && !self.partial_lex ==> {
            &&& !self.in_literal@
            &&& self.last_text@ == self.string_text@
            &&& ends_with(self.consumed@, quote() + self.last_body@ + quote())
        })
        &&& self.fed() == old.fed()
        &&& self.pos >= old.pos
        &&& (r matches Ok(Some(Token::Punctuator(_))) ==> self.pos > old.pos)
        &&& (r matches Ok(Some(Token::Number(s))) ==> is_number_lexeme(s@) && ends_with(
            self.consumed@,
            s@,
        ))
        &&& (r matches Ok(Some(Token::Null)) ==> ends_with(self.consumed@, literal_text(Literal::Null)))
        &&& (r matches Ok(Some(Token::Boolean(b))) ==> ends_with(
            self.consumed@,
            literal_text(if b {
                Literal::True
            } else {
                Literal::False
            }),
        ))
        &&& (r matches Ok(None) ==> self.pos > old.pos || (self.lex_state == LexState::Value
            && old.lex_state != LexState::Value))
        &&& (r matches Ok(Some(t)) && !(t is Eof) && !self.partial_lex && (old.lex_state
            == LexState::Default || old.lex_state == LexState::Value) ==> self.pos > old.pos)
        &&& (r matches Err(e) ==> e.line == line_of(self.consumed@) && (e.column == column_of(
            self.consumed@) || (e.source == ErrorSource::SyntaxError(
            SyntaxError::UnexpectedEndOfInput) && e.column == column_of(self.consumed@) + 1)))
        &&& (r matches Ok(Some(Token::String { .. })) ==> is_string_state(self.lex_state))
        &&& (r matches Ok(Some(t)) && (t is Eof || self.partial_lex) ==> self.source@.len() == 0)
        &&& (is_string_state(old.lex_state) && old.parse_state != ParseState::BeforePropertyName
            ==> {
            &&& r matches Ok(None) ==> is_string_state(self.lex_state)
            &&& r matches Ok(Some(t)) ==> is_string_state(self.lex_state) && (t is String || (
            t is Eof && self.partial_lex && !self.end_of_input))
        })
    }

    /// Creates a parser with the given options.
    pub fn new(options: ParserOptions) -> (p: Self)
        ensures
            p.wf(),
            !p.string_in_progress(),
            p.current_value_path() == Seq::<PathItemView>::empty(),
            p.fed() == Seq::<char>::empty(),
            !p.input_ended(),
            !p.is_errored(),
            p.options() == (
                options.allow_unicode_whitespace,
                options.allow_multiple_json_values,
                options.non_scalar_values,
            ),
    {
        let p = StreamingParser {
            source: Buffer::new(),
            end_of_input: false,
            pos: 0,
            line: 1,
            column: 1,
            consumed: Ghost(Seq::empty()),
            parse_state: ParseState::Start,
            lex_state: LexState::Default,
            buffer: String::new(),
            unicode_escape_buffer: UnicodeEscapeBuffer::new(),
            pending_high_surrogate: None,
            literal: Literal::Null,
            literal_matched: 0,
            partial_lex: false,
            frames: FrameStack::new(),
            string_open: false,
            in_literal: Ghost(false),
            string_raw: Ghost(Seq::empty()),
            string_text: Ghost(Seq::empty()),
            last_body: Ghost(Seq::empty()),
            last_text: Ghost(Seq::empty()),
            containers: Ghost(0),
            values_done: Ghost(0),
            multiple_values: options.allow_multiple_json_values,
            allow_unicode_whitespace: options.allow_unicode_whitespace,
            non_scalar_values: options.non_scalar_values,
        };
        assert(p.fed() =~= Seq::<char>::empty());
        assert(p.frames.frames().map_values(|f: Frame| frame_slot(f)) =~= Seq::<Slot>::empty());
        proof {
            p.frames.lemma_empty_components();
        }
        p
    }

    /// Feeds a chunk of JSON text. The text is buffered; events are
    /// produced by [`StreamingParser::next`].
    pub fn feed(&mut self, text: &str)
        requires
            !old(self).input_ended(),
            old(self).wf(),
            old(self).fed().len() + text@.len() < usize::MAX - 1,
        ensures
            final(self).wf(),
            final(self).fed() == old(self).fed() + text@,
            final(self).string_in_progress() == old(self).string_in_progress(),
            final(self).string_so_far() == old(self).string_so_far(),
            final(self).depth() == old(self).depth(),
            final(self).current_value_path() == old(self).current_value_path(),
            final(self).consumed() == old(self).consumed(),
            final(self).input_ended() == old(self).input_ended(),
            final(self).is_errored() == old(self).is_errored(),
            final(self).options() == old(self).options(),
    {
        self.source.push(text);
        assert(self.fed() =~= old(self).fed() + text@);
    }

    /// Marks the end of the input; the returned parser yields the remaining
    /// events.
    pub fn finish(self) -> (c: ClosedStreamingParser)
        requires
            self.wf(),
        ensures
            c.parser().wf(),
            c.parser().input_ended(),
            c.parser().string_in_progress() == self.string_in_progress(),
            c.parser().string_so_far() == self.string_so_far(),
            c.parser().depth() == self.depth(),
            c.parser().current_value_path() == self.current_value_path(),
            c.parser().fed() == self.fed(),
            c.parser().consumed() == self.consumed(),
            c.parser().is_errored() == self.is_errored(),
            c.parser().options() == self.options(),
    {
        let mut parser = self;
        parser.end_of_input = true;
        ClosedStreamingParser { parser }
    }

    /// Peeks at the next character.
    fn peek_char(&self) -> (r: PeekedChar)
        ensures
            self.source@.len() > 0 ==> r == PeekedChar::Char(self.source@[0]),
            self.source@.len() == 0 && self.end_of_input ==> r == PeekedChar::EndOfInput,
            self.source@.len() == 0 && !self.end_of_input ==> r == PeekedChar::Empty,
    {
        match self.source.peek() {
            Some(ch) => PeekedChar::Char(ch),
            None => if self.end_of_input {
                PeekedChar::EndOfInput
            } else {
                PeekedChar::Empty
            },
        }
    }

    /// Reads the next character (known to be there) and moves the position.
    fn advance_char(&mut self)
        requires
            old(self).wf_core(),
            old(self).source@.len() > 0,
        ensures
            final(self).reading() == old(self).reading(),
            final(self).wf_positions(),
            final(self).wf_frames(),
            final(self).wf_lexer(),
            tracks_suffix(old(self).lex_state) ==> ends_with(
                final(self).consumed@,
                old(self).buffer@.push(old(self).source@[0]),
            ),
            final(self).same_grammar_state(old(self)),
            final(self).consumed@ == old(self).consumed@.push(old(self).source@[0]),
            final(self).source@ == old(self).source@.drop_first(),
            final(self).fed() == old(self).fed(),
            final(self).pos == old(self).pos + 1,
            final(self).lex_state == old(self).lex_state,
            final(self).buffer == old(self).buffer,
            final(self).unicode_escape_buffer == old(self).unicode_escape_buffer,
            final(self).pending_high_surrogate == old(self).pending_high_surrogate,
            final(self).literal == old(self).literal,
            final(self).literal_matched == old(self).literal_matched,
            final(self).partial_lex == old(self).partial_lex,
            final(self).same_literal_ghosts(old(self)),
            final(self).wf_last(),
            !old(self).in_literal@ ==> final(self).wf_literal(),
            nest_run(final(self).consumed@) == nest_step(
                nest_run(old(self).consumed@),
                old(self).source@[0],
            ),
            old(self).in_literal@ && !old(self).is_errored() ==> ends_with(
                final(self).consumed@,
                quote() + old(self).string_raw@.push(old(self).source@[0]),
            ),
    {
        let ch = self.source.consume_char().unwrap();
        proof {
            lemma_position_push(self.consumed@, ch);
            lemma_position_bounds(self.consumed@);
        }
        if ch == '\n' {
            self.line = self.line + 1;
            self.column = 1;
        } else {
            self.column = self.column + 1;
        }
        self.pos = self.pos + 1;
        self.consumed = Ghost(self.consumed@.push(ch));
        assert(self.fed() =~= old(self).fed());
        proof {
            lemma_nest_push(old(self).consumed@, ch);
        }
        proof {
            if tracks_suffix(old(self).lex_state) {
                lemma_ends_with_append(old(self).consumed@, old(self).buffer@, seq![ch]);
                assert(old(self).consumed@ + seq![ch] =~= self.consumed@);
                assert(old(self).buffer@ + seq![ch] =~= old(self).buffer@.push(ch));
            }
            if old(self).in_literal@ && !old(self).is_errored() {
                lemma_ends_with_append(
                    old(self).consumed@,
                    quote() + old(self).string_raw@,
                    seq![ch],
                );
                assert(old(self).consumed@ + seq![ch] =~= self.consumed@);
                assert(quote() + old(self).string_raw@ + seq![ch] =~= quote()
                    + old(self).string_raw@.push(ch));
            }
        }
    }

    /// Reads the longest run of characters of `class` into the token
    /// buffer. The class excludes the line feed.
    fn copy_run(&mut self, class: CopyClass) -> (n: usize)
        requires
            old(self).wf_positions(),
        ensures
            final(self).wf_positions(),
            final(self).same_grammar_state(old(self)),
            final(self).fed() == old(self).fed(),
            n <= old(self).source@.len(),
            final(self).consumed@ == old(self).consumed@ + old(self).source@.take(n as int),
            final(self).source@ == old(self).source@.skip(n as int),
            final(self).buffer@ == old(self).buffer@ + old(self).source@.take(n as int),
            forall|i: int| 0 <= i < n ==> class_accepts(class, #[trigger] old(self).source@[i]),
            n < old(self).source@.len() ==> !class_accepts(class, old(self).source@[n as int]),
            final(self).pos == old(self).pos + n,
            final(self).lex_state == old(self).lex_state,
            final(self).unicode_escape_buffer == old(self).unicode_escape_buffer,
            final(self).pending_high_surrogate == old(self).pending_high_surrogate,
            final(self).literal == old(self).literal,
            final(self).literal_matched == old(self).literal_matched,
            final(self).partial_lex == old(self).partial_lex,
            final(self).same_literal_ghosts(old(self)),
            class == CopyClass::Digits && nest_run(old(self).consumed@).1 == NestMode::Out
                ==> nest_run(final(self).consumed@) == nest_run(old(self).consumed@),
            class == CopyClass::StringBody && nest_run(old(self).consumed@).1 == NestMode::InString
                ==> nest_run(final(self).consumed@) == nest_run(old(self).consumed@),
    {
        let ghost src = self.source@;
        let n = self.source.copy_while(&mut self.buffer, class);
        let ghost run = src.take(n as int);
        proof {
            assert forall|i: int| 0 <= i < run.len() implies run[i] != '\n' by {
                assert(run[i] == src[i]);
                assert(class_accepts(class, src[i]));
            }
            lemma_position_append_no_newline(self.consumed@, run);
            lemma_position_bounds(self.consumed@);
            assert(src =~= run + src.skip(n as int));
        }
        self.column = self.column + n;
        self.pos = self.pos + n;
        self.consumed = Ghost(self.consumed@ + run);
        assert(self.fed() =~= old(self).fed());
        proof {
            let st = nest_run(old(self).consumed@);
            if (class == CopyClass::Digits && st.1 == NestMode::Out) || (class
                == CopyClass::StringBody && st.1 == NestMode::InString) {
                assert forall|i: int| 0 <= i < run.len() implies nest_step(
                    st,
                    #[trigger] run[i],
                ) == st by {
                    assert(run[i] == src[i]);
                    assert(class_accepts(class, src[i]));
                }
                lemma_nest_run_stays(old(self).consumed@, run);
            }
        }
        n
    }

    /// The error at the current position.
    fn syntax_error(&self, e: SyntaxError) -> (r: ParserError)
        ensures
            r == self.error_here(e),
    {
        ParserError::new(e, self.line, self.column)
    }

    /// The error for an unexpected character or end of input.
    fn invalid_char(&self, c: PeekedChar) -> (r: ParserError)
        ensures
            r == self.invalid_char_error(c),
    {
        match c {
            PeekedChar::Char(ch) => self.syntax_error(SyntaxError::InvalidCharacter(ch)),
            _ => self.syntax_error(SyntaxError::UnexpectedEndOfInput),
        }
    }

    /// Returns `value`, recording whether it is incomplete.
    fn new_token(&mut self, value: Token, partial: bool) -> (t: Token)
        ensures
            t == value,
            final(self).partial_lex == partial,
            *final(self) == (StreamingParser { partial_lex: partial, ..*old(self) }),
    {
        self.partial_lex = partial;
        value
    }
}

/// The order in which the lexer may change state without reading: only
/// towards `Value`.
spec fn lex_rank(s: LexState) -> nat {
    if s == LexState::Value {
        0
    } else {
        1
    }
}

impl StreamingParser {
    /// With no more input available inside a string literal: emits the
    /// buffered characters of a string value as a fragment; an object key
    /// (emitted whole) and an empty buffer give `Eof`.
    fn produce_partial(&mut self) -> (t: Token)
        requires
            old(self).wf_nest(),
            old(self).wf_core(),
            !old(self).is_errored(),
            old(self).in_literal@,
        ensures
            final(self).reading() == old(self).reading(),
            final(self).wf_nest(),
            final(self).wf_core(),
            final(self).same_grammar_state(old(self)),
            final(self).partial_lex,
            final(self).source == old(self).source,
            final(self).consumed == old(self).consumed,
            final(self).pos == old(self).pos,
            final(self).lex_state == old(self).lex_state,
            final(self).in_literal == old(self).in_literal,
            final(self).last_body == old(self).last_body,
            final(self).last_text == old(self).last_text,
            t is Eof ==> final(self).same_literal_ghosts(old(self)),
            t is Eof || t is String,
            t matches Token::String { fragment } ==> old(self).parse_state
                != ParseState::BeforePropertyName && fragment@ == old(self).buffer@
                && final(self).string_text@ == old(self).string_text@ + fragment@,
            old(self).parse_state != ParseState::BeforePropertyName && old(self).buffer@.len()
                > 0 ==> t is String,
    {
        self.partial_lex = true;
        if self.parse_state == ParseState::BeforePropertyName || self.buffer.as_str().is_empty() {
            return Token::Eof;
        }
        let ghost text = self.string_text@ + self.buffer@;
        let mut fragment = String::new();
        std::mem::swap(&mut fragment, &mut self.buffer);
        self.string_text = Ghost(text);
        proof {
            assert(self.string_text@ + self.buffer@ =~= text);
        }
        Token::String { fragment }
    }

    /// Reads the closing quote of a string literal and emits the key, or
    /// the last fragment of the string value.
    fn close_string(&mut self) -> (t: Token)
        requires
            old(self).wf_nest(),
            old(self).wf_core(),
            !old(self).is_errored(),
            old(self).in_literal@,
            old(self).lex_state == LexState::String,
            old(self).pending_high_surrogate is None,
            old(self).source@.len() > 0,
            old(self).source@[0] == '"',
        ensures
            final(self).consumed@ == old(self).consumed@.push(old(self).source@[0]),
            final(self).source@ == old(self).source@.drop_first(),
            final(self).reading() == (Reading { scan: Scan::Between, ..old(self).reading() }),
            final(self).wf_nest(),
            final(self).wf_core(),
            final(self).same_grammar_state(old(self)),
            final(self).fed() == old(self).fed(),
            final(self).pos == old(self).pos + 1,
            final(self).lex_state == old(self).lex_state,
            !final(self).partial_lex,
            !final(self).in_literal@,
            final(self).string_text@ == old(self).string_text@ + old(self).buffer@,
            final(self).last_text@ == final(self).string_text@,
            final(self).last_body@ == old(self).string_raw@,
            ends_with(final(self).consumed@, quote() + final(self).last_body@ + quote()),
            old(self).parse_state == ParseState::BeforePropertyName ==> (t matches Token::PropertyName {
                value,
            } && value@ == old(self).buffer@),
            old(self).parse_state != ParseState::BeforePropertyName ==> (t matches Token::String {
                fragment,
            } && fragment@ == old(self).buffer@),
    {
        self.advance_char();
        let ghost text = self.string_text@ + self.buffer@;
        let ghost raw = self.string_raw@;
        self.in_literal = Ghost(false);
        self.last_body = Ghost(raw);
        self.last_text = Ghost(text);
        self.string_text = Ghost(text);
        self.partial_lex = false;
        proof {
            assert(quote() + raw.push('"') =~= quote() + raw + quote());
        }
        let mut value = String::new();
        std::mem::swap(&mut value, &mut self.buffer);
        if self.parse_state == ParseState::BeforePropertyName {
            Token::PropertyName { value }
        } else {
            Token::String { fragment: value }
        }
    }

    /// Opens a string literal after its opening quote was read.
    fn open_string(&mut self)
        requires
            !old(self).is_errored() ==> nest_run(old(self).consumed@) == (
                old(self).frames.frames().len() as int,
                NestMode::InString,
                old(self).containers@,
            ),
            old(self).wf_base(),
            old(self).wf_literal(),
            !old(self).is_errored(),
            !old(self).in_literal@,
            !is_string_state(old(self).lex_state),
            old(self).consumed@.len() > 0,
            expects_value(old(self).parse_state) || old(self).parse_state
                == ParseState::BeforePropertyName,
            old(self).consumed@.last() == '"',
        ensures
            final(self).reading() == (Reading {
                scan: Scan::Str(
                    old(self).parse_state == ParseState::BeforePropertyName,
                    body_start(),
                ),
                ..old(self).reading()
            }),
            final(self).wf_nest(),
            final(self).wf_core(),
            final(self).same_grammar_state(old(self)),
            final(self).source == old(self).source,
            final(self).consumed == old(self).consumed,
            final(self).pos == old(self).pos,
            final(self).lex_state == LexState::String,
            final(self).in_literal@,
            final(self).string_text@ == Seq::<char>::empty(),
    {
        self.buffer = String::new();
        self.lex_state = LexState::String;
        self.in_literal = Ghost(true);
        self.string_raw = Ghost(Seq::empty());
        self.string_text = Ghost(Seq::empty());
        proof {
            assert(self.consumed@.subrange(self.consumed@.len() - 1, self.consumed@.len() as int)
                =~= quote() + self.string_raw@);
            assert(self.string_text@ + self.buffer@ =~= Seq::<char>::empty());
        }
    }

    /// Reads the next character of the body of a string literal.
    fn advance_body(&mut self)
        requires
            old(self).wf_core(),
            !old(self).is_errored(),
            old(self).in_literal@,
            old(self).source@.len() > 0,
        ensures
            nest_run(final(self).consumed@) == nest_step(
                nest_run(old(self).consumed@),
                old(self).source@[0],
            ),
            final(self).wf_base(),
            final(self).same_grammar_state(old(self)),
            final(self).consumed@ == old(self).consumed@.push(old(self).source@[0]),
            final(self).source@ == old(self).source@.drop_first(),
            final(self).fed() == old(self).fed(),
            final(self).pos == old(self).pos + 1,
            final(self).lex_state == old(self).lex_state,
            final(self).buffer == old(self).buffer,
            final(self).unicode_escape_buffer == old(self).unicode_escape_buffer,
            final(self).pending_high_surrogate == old(self).pending_high_surrogate,
            final(self).partial_lex == old(self).partial_lex,
            final(self).in_literal@,
            final(self).string_text == old(self).string_text,
            final(self).last_body == old(self).last_body,
            final(self).last_text == old(self).last_text,
            final(self).string_raw@ == old(self).string_raw@.push(old(self).source@[0]),
            ends_with(final(self).consumed@, quote() + final(self).string_raw@),
            decode_run(final(self).string_raw@) == decode_step(
                old(self).decode_state(),
                old(self).source@[0],
            ),
    {
        let ghost c = self.source@[0];
        let ghost raw = self.string_raw@;
        self.advance_char();
        self.string_raw = Ghost(raw.push(c));
        proof {
            lemma_decode_push(raw, c);
        }
    }

    /// Outside any token: skips whitespace, reports the end of the
    /// available input, or starts the token the grammar state expects.
    fn step_default(&mut self) -> (r: Result<Option<Token>, ParserError>)
        requires
            old(self).wf_grammar(),
            old(self).multiple_values ==> old(self).parse_state != ParseState::End,
            old(self).wf_nest(),
            old(self).wf_core(),
            !old(self).is_errored(),
            old(self).lex_state == LexState::Default,
        ensures
            final(self).step_post(old(self), r),
    {
        match self.peek_char() {
            PeekedChar::Char(c) => {
                proof {
                    self.lemma_read_next();
                }
                if skips_whitespace(self.allow_unicode_whitespace, c) {
                    self.advance_char();
                    Ok(None)
                } else {
                    self.step_structural(c)
                }
            },
            PeekedChar::Empty => Ok(Some(self.new_token(Token::Eof, true))),
            PeekedChar::EndOfInput => Ok(Some(self.new_token(Token::Eof, false))),
        }
    }

    /// Reads a punctuator.
    fn punctuator(&mut self, b: u8) -> (r: Result<Option<Token>, ParserError>)
        requires
            !old(self).is_errored(),
            old(self).wf_nest(),
            old(self).wf_core(),
            old(self).source@.len() > 0,
            !tracks_suffix(old(self).lex_state),
            !old(self).in_literal@,
            old(self).source@[0] == punct_char(b),
        ensures
            final(self).consumed@ == old(self).consumed@.push(old(self).source@[0]),
            final(self).source@ == old(self).source@.drop_first(),
            final(self).reading() == old(self).reading(),
            nest_run(final(self).consumed@) == (
                final(self).frames.frames().len() + punct_delta(b),
                NestMode::Out,
                final(self).containers@ + punct_count(b),
            ),
            final(self).same_literal_ghosts(old(self)),
            ends_with_char(final(self).consumed@, punct_char(b)),
            final(self).wf_core(),
            final(self).same_grammar_state(old(self)),
            final(self).fed() == old(self).fed(),
            final(self).pos == old(self).pos + 1,
            final(self).lex_state == old(self).lex_state,
            !final(self).partial_lex,
            r == Ok::<Option<Token>, ParserError>(Some(Token::Punctuator(b))),
    {
        self.advance_char();
        Ok(Some(self.new_token(Token::Punctuator(b), false)))
    }

    /// The start of a token, as the grammar state expects it; `c` is the
    /// next character.
    #[verifier::rlimit(60)]
    fn step_structural(&mut self, c: char) -> (r: Result<Option<Token>, ParserError>)
        requires
            !skips_between_tokens(old(self).allow_unicode_whitespace, c),
            old(self).wf_grammar(),
            old(self).multiple_values ==> old(self).parse_state != ParseState::End,
            old(self).wf_nest(),
            old(self).wf_core(),
            !old(self).is_errored(),
            old(self).lex_state == LexState::Default,
            old(self).source@.len() > 0,
            old(self).source@[0] == c,
        ensures
            final(self).step_post(old(self), r),
    {
        proof {
            self.lemma_read_next();
        }
        match self.parse_state {
            ParseState::Start => {
                if c == '{' {
                    self.punctuator(OPEN_BRACE)
                } else if c == '[' {
                    self.punctuator(OPEN_BRACKET)
                } else {
                    self.lex_state = LexState::Value;
                    Ok(None)
                }
            },
            ParseState::BeforePropertyName => {
                if c == '}' {
                    self.punctuator(CLOSE_BRACE)
                } else if c == '"' {
                    self.advance_char();
                    self.open_string();
                    Ok(None)
                } else {
                    Err(self.invalid_char(PeekedChar::Char(c)))
                }
            },
            ParseState::AfterPropertyName => {
                if c == ':' {
                    self.punctuator(COLON)
                } else {
                    Err(self.invalid_char(PeekedChar::Char(c)))
                }
            },
            ParseState::BeforePropertyValue => {
                self.lex_state = LexState::Value;
                Ok(None)
            },
            ParseState::AfterPropertyValue => {
                if c == ',' {
                    self.punctuator(COMMA)
                } else if c == '}' {
                    self.punctuator(CLOSE_BRACE)
                } else {
                    Err(self.invalid_char(PeekedChar::Char(c)))
                }
            },
            ParseState::BeforeArrayValue => {
                if c == ']' {
                    self.punctuator(CLOSE_BRACKET)
                } else {
                    self.lex_state = LexState::Value;
                    Ok(None)
                }
            },
            ParseState::AfterArrayValue => {
                if c == ',' {
                    self.punctuator(COMMA)
                } else if c == ']' {
                    self.punctuator(CLOSE_BRACKET)
                } else {
                    Err(self.invalid_char(PeekedChar::Char(c)))
                }
            },
            ParseState::End => Err(self.invalid_char(PeekedChar::Char(c))),
            ParseState::Error => Err(self.invalid_char(PeekedChar::Char(c))),
        }
    }

    /// Reads the first character of a number, a number lexeme being
    /// recognized by `st`.
    fn start_number(&mut self, c: char, st: LexState)
        requires
            expects_value(old(self).parse_state),
            old(self).wf_nest(),
            old(self).wf_core(),
            old(self).lex_state == LexState::Value,
            !old(self).is_errored(),
            old(self).source@.len() > 0,
            old(self).source@[0] == c,
            number_state_of(st) == Some(num_step(NumState::Start, c)),
        ensures
            final(self).consumed@ == old(self).consumed@.push(c),
            final(self).source@ == old(self).source@.drop_first(),
            final(self).reading() == (Reading {
                scan: Scan::Number(number_state_of(st).unwrap()),
                ..old(self).reading()
            }),
            final(self).wf_nest(),
            final(self).same_literal_ghosts(old(self)),
            final(self).wf_core(),
            final(self).same_grammar_state(old(self)),
            final(self).fed() == old(self).fed(),
            final(self).pos == old(self).pos + 1,
            final(self).lex_state == st,
            final(self).buffer@ == seq![c],
    {
        self.buffer = String::new();
        self.advance_char();
        string_push(&mut self.buffer, c);
        proof {
            lemma_num_run_push(Seq::<char>::empty(), c);
            assert(Seq::<char>::empty().push(c) =~= self.buffer@);
            assert(self.consumed@.subrange(self.consumed@.len() - 1, self.consumed@.len() as int)
                =~= self.buffer@);
        }
        self.lex_state = st;
    }

    /// Inside a number: reads `c` (the next character) and moves to `st`.
    fn number_push(&mut self, c: char, st: LexState)
        requires
            old(self).wf_nest(),
            old(self).wf_core(),
            old(self).source@.len() > 0,
            old(self).source@[0] == c,
            number_state_of(old(self).lex_state) is Some,
            number_state_of(st) == Some(
                num_step(number_state_of(old(self).lex_state).unwrap(), c),
            ),
        ensures
            final(self).consumed@ == old(self).consumed@.push(c),
            final(self).source@ == old(self).source@.drop_first(),
            final(self).reading() == (Reading {
                scan: Scan::Number(number_state_of(st).unwrap()),
                ..old(self).reading()
            }),
            old(self).wf_grammar() && !old(self).is_errored() ==> final(self).wf_grammar(),
            final(self).wf_nest(),
            final(self).same_literal_ghosts(old(self)),
            final(self).wf_core(),
            final(self).same_grammar_state(old(self)),
            final(self).fed() == old(self).fed(),
            final(self).pos == old(self).pos + 1,
            final(self).lex_state == st,
    {
        proof {
            if old(self).wf_grammar() && !old(self).is_errored() {
                self.lemma_read_next();
                lemma_number_token_push(
                    old(self).consumed@,
                    c,
                    self.allow_unicode_whitespace,
                    self.multiple_values,
                );
            }
        }
        self.advance_char();
        let ghost before = self.buffer@;
        string_push(&mut self.buffer, c);
        proof {
            lemma_num_run_push(before, c);
        }
        self.lex_state = st;
    }

    /// Inside a number, in a state that loops on digits: reads the next
    /// digit `c` and the run of digits after it.
    fn number_digits(&mut self, c: char)
        requires
            old(self).wf_nest(),
            old(self).wf_core(),
            old(self).source@.len() > 0,
            old(self).source@[0] == c,
            is_digit(c),
            old(self).lex_state == LexState::DecimalInteger || old(self).lex_state
                == LexState::DecimalFraction || old(self).lex_state
                == LexState::DecimalExponentInteger,
        ensures
            old(self).wf_grammar() && !old(self).is_errored() ==> final(self).wf_grammar(),
            final(self).wf_nest(),
            final(self).same_literal_ghosts(old(self)),
            final(self).wf_core(),
            final(self).same_grammar_state(old(self)),
            final(self).fed() == old(self).fed(),
            final(self).pos > old(self).pos,
            final(self).lex_state == old(self).lex_state,
    {
        let st = self.lex_state;
        self.number_push(c, st);
        let ghost before = self.buffer@;
        let ghost src = self.source@;
        let ghost cons_before = self.consumed@;
        let ghost g1 = self.reading();
        let n = self.copy_run(CopyClass::Digits);
        proof {
            let ds = src.take(n as int);
            if old(self).wf_grammar() && !old(self).is_errored() {
                assert forall|i: int| 0 <= i < ds.len() implies read_step(
                    g1,
                    #[trigger] ds[i],
                    self.allow_unicode_whitespace,
                    self.multiple_values,
                ) == Some(g1) by {
                    assert(ds[i] == src[i]);
                    assert(class_accepts(CopyClass::Digits, src[i]));
                }
                lemma_read_stays(
                    cons_before,
                    ds,
                    g1,
                    self.allow_unicode_whitespace,
                    self.multiple_values,
                );
                assert forall|i: int| 0 <= i < ds.len() implies num_step(
                    g1.scan->Number_0,
                    #[trigger] ds[i],
                ) == g1.scan->Number_0 by {
                    assert(ds[i] == src[i]);
                    assert(class_accepts(CopyClass::Digits, src[i]));
                }
                lemma_number_token_run(
                    cons_before,
                    ds,
                    g1,
                    self.allow_unicode_whitespace,
                    self.multiple_values,
                );
            }
            assert forall|i: int| 0 <= i < ds.len() implies is_digit(ds[i]) by {
                assert(ds[i] == src[i]);
                assert(class_accepts(CopyClass::Digits, src[i]));
            }
            lemma_num_run_digits(before, ds);
            lemma_ends_with_append(cons_before, before, ds);
            assert forall|i: int|
                0 <= i < self.frames.frames().len() && #[trigger] self.frames.frames()[i] is Array
                implies self.frames.frames()[i]->next_index <= self.pos by {}
        }
    }

    /// Ends a number: emits the lexeme read so far.
    fn emit_number(&mut self) -> (r: Result<Option<Token>, ParserError>)
        requires
            old(self).wf_nest(),
            old(self).wf_core(),
            number_state_of(old(self).lex_state) is Some,
            is_number_lexeme(old(self).buffer@),
        ensures
            final(self).source == old(self).source,
            final(self).lex_state == LexState::Default,
            final(self).wf_nest(),
            final(self).same_literal_ghosts(old(self)),
            final(self).wf_core(),
            final(self).same_grammar_state(old(self)),
            final(self).fed() == old(self).fed(),
            final(self).pos == old(self).pos,
            final(self).consumed == old(self).consumed,
            !final(self).partial_lex,
            r matches Ok(Some(Token::Number(s))) && s@ == old(self).buffer@,
    {
        let mut lexeme = String::new();
        std::mem::swap(&mut lexeme, &mut self.buffer);
        self.lex_state = LexState::Default;
        Ok(Some(self.new_token(Token::Number(lexeme), false)))
    }

    /// Inside a number.
    #[verifier::rlimit(30)]
    fn step_number(&mut self) -> (r: Result<Option<Token>, ParserError>)
        requires
            old(self).wf_grammar(),
            old(self).multiple_values ==> old(self).parse_state != ParseState::End,
            old(self).wf_nest(),
            old(self).wf_core(),
            !old(self).is_errored(),
            number_state_of(old(self).lex_state) is Some,
        ensures
            final(self).step_post(old(self), r),
    {
        proof {
            if self.source@.len() > 0 {
                self.lemma_read_next();
            } else {
                self.lemma_read_end();
            }
        }
        let next = self.peek_char();
        let c = match next {
            PeekedChar::Empty => {
                return Ok(Some(self.new_token(Token::Eof, true)));
            },
            PeekedChar::Char(c) => c,
            PeekedChar::EndOfInput => ' ',
        };
        let at_end = next == PeekedChar::EndOfInput;
        let digit = !at_end && '0' <= c && c <= '9';
        let exp = !at_end && (c == 'e' || c == 'E');
        let point = !at_end && c == '.';
        match self.lex_state {
            LexState::Sign => {
                if !at_end && c == '0' {
                    self.number_push(c, LexState::Zero);
                    Ok(None)
                } else if digit {
                    self.number_push(c, LexState::DecimalInteger);
                    Ok(None)
                } else {
                    Err(self.invalid_char(next))
                }
            },
            LexState::Zero => {
                if point {
                    self.number_push(c, LexState::DecimalPoint);
                    Ok(None)
                } else if exp {
                    self.number_push(c, LexState::DecimalExponent);
                    Ok(None)
                } else {
                    self.emit_number()
                }
            },
            LexState::DecimalInteger => {
                if point {
                    self.number_push(c, LexState::DecimalPoint);
                    Ok(None)
                } else if exp {
                    self.number_push(c, LexState::DecimalExponent);
                    Ok(None)
                } else if digit {
                    self.number_digits(c);
                    Ok(None)
                } else {
                    self.emit_number()
                }
            },
            LexState::DecimalPoint => {
                if exp {
                    self.number_push(c, LexState::DecimalExponent);
                    Ok(None)
                } else if digit {
                    self.number_push(c, LexState::DecimalFraction);
                    let n = self.copy_digits_after_push();
                    Ok(None)
                } else {
                    Err(self.invalid_char(next))
                }
            },
            LexState::DecimalFraction => {
                if exp {
                    self.number_push(c, LexState::DecimalExponent);
                    Ok(None)
                } else if digit {
                    self.number_digits(c);
                    Ok(None)
                } else {
                    self.emit_number()
                }
            },
            LexState::DecimalExponent => {
                if !at_end && (c == '+' || c == '-') {
                    self.number_push(c, LexState::DecimalExponentSign);
                    Ok(None)
                } else if digit {
                    self.number_push(c, LexState::DecimalExponentInteger);
                    let n = self.copy_digits_after_push();
                    Ok(None)
                } else {
                    Err(self.invalid_char(next))
                }
            },
            LexState::DecimalExponentSign => {
                if digit {
                    self.number_push(c, LexState::DecimalExponentInteger);
                    let n = self.copy_digits_after_push();
                    Ok(None)
                } else {
                    Err(self.invalid_char(next))
                }
            },
            _ => {
                if digit {
                    self.number_digits(c);
                    Ok(None)
                } else {
                    self.emit_number()
                }
            },
        }
    }

    /// At the start of a value: reads a bracket, or the first character of
    /// a literal, a number or a string.
    #[verifier::rlimit(60)]
    fn step_value(&mut self) -> (r: Result<Option<Token>, ParserError>)
        requires
            old(self).value_ahead(),
            old(self).wf_grammar(),
            old(self).multiple_values ==> old(self).parse_state != ParseState::End,
            old(self).wf_nest(),
            old(self).wf_core(),
            !old(self).is_errored(),
            old(self).lex_state == LexState::Value,
            expects_value(old(self).parse_state),
        ensures
            final(self).step_post(old(self), r),
    {
        proof {
            self.lemma_read_next();
            if self.source@.len() > 0 {
                self.lemma_number_begins();
            }
        }
        let next = self.peek_char();
        let c = match next {
            PeekedChar::Char(c) => c,
            _ => {
                return Err(self.invalid_char(next));
            },
        };
        if c == '{' {
            return self.punctuator(OPEN_BRACE);
        }
        if c == '[' {
            return self.punctuator(OPEN_BRACKET);
        }
        match Literal::starting_with(c) {
            Some(l) => {
                self.buffer = String::new();
                self.advance_char();
                string_push(&mut self.buffer, c);
                self.lex_state = LexState::ValueLiteral;
                self.literal = l;
                self.literal_matched = 1;
                proof {
                    assert(self.buffer@ =~= literal_text(l).take(1));
                    assert(self.consumed@.subrange(
                        self.consumed@.len() - 1,
                        self.consumed@.len() as int,
                    ) =~= self.buffer@);
                }
                return Ok(None);
            },
            None => {},
        }
        if c == '-' {
            self.start_number(c, LexState::Sign);
            Ok(None)
        } else if c == '0' {
            self.start_number(c, LexState::Zero);
            Ok(None)
        } else if '1' <= c && c <= '9' {
            self.start_number(c, LexState::DecimalInteger);
            Ok(None)
        } else if c == '"' {
            self.advance_char();
            self.open_string();
            Ok(None)
        } else {
            Err(self.invalid_char(next))
        }
    }

    /// Inside `null`, `true` or `false`.
    #[verifier::rlimit(60)]
    fn step_literal(&mut self) -> (r: Result<Option<Token>, ParserError>)
        requires
            old(self).wf_grammar(),
            old(self).multiple_values ==> old(self).parse_state != ParseState::End,
            old(self).wf_nest(),
            old(self).wf_core(),
            !old(self).is_errored(),
            old(self).lex_state == LexState::ValueLiteral,
        ensures
            final(self).step_post(old(self), r),
    {
        proof {
            if self.source@.len() > 0 {
                self.lemma_read_next();
            } else {
                self.lemma_read_end();
            }
        }
        let next = self.peek_char();
        match next {
            PeekedChar::Empty => Ok(Some(self.new_token(Token::Eof, true))),
            PeekedChar::Char(c) => {
                let expected = self.literal.char_at(self.literal_matched);
                if c != expected {
                    return Err(self.invalid_char(next));
                }
                self.advance_char();
                let ghost before = self.buffer@;
                string_push(&mut self.buffer, c);
                self.literal_matched = self.literal_matched + 1;
                proof {
                    assert(self.buffer@ =~= literal_text(self.literal).take(
                        self.literal_matched as int,
                    ));
                }
                if self.literal_matched == self.literal.len() {
                    assert(self.buffer@ =~= literal_text(self.literal));
                    let tok = match self.literal {
                        Literal::Null => Token::Null,
                        Literal::True => Token::Boolean(true),
                        Literal::False => Token::Boolean(false),
                    };
                    self.lex_state = LexState::Default;
                    Ok(Some(self.new_token(tok, false)))
                } else {
                    Ok(None)
                }
            },
            PeekedChar::EndOfInput => Err(self.invalid_char(next)),
        }
    }

    /// Inside a string, outside an escape.
    fn step_string(&mut self) -> (r: Result<Option<Token>, ParserError>)
        requires
            old(self).wf_grammar(),
            old(self).multiple_values ==> old(self).parse_state != ParseState::End,
            old(self).wf_nest(),
            old(self).wf_core(),
            !old(self).is_errored(),
            old(self).lex_state == LexState::String,
            old(self).in_literal@,
        ensures
            final(self).step_post(old(self), r),
    {
        proof {
            if self.source@.len() > 0 {
                self.lemma_read_next();
            } else {
                self.lemma_read_end();
            }
        }
        let next = self.peek_char();
        match next {
            PeekedChar::Char(c) => {
                if c == '\\' {
                    self.advance_body();
                    self.lex_state = LexState::StringEscape;
                    proof {
                        assert(self.decode_state() == DecodeState {
                            escape: EscapeState::Escape,
                            ..old(self).decode_state()
                        });
                        assert(self.reading() == Reading {
                            scan: Scan::Str(
                                old(self).parse_state == ParseState::BeforePropertyName,
                                self.decode_state(),
                            ),
                            ..old(self).reading()
                        });
                    }
                    Ok(None)
                } else if '\u{20}' > c {
                    Err(self.invalid_char(next))
                } else {
                    match self.pending_high_surrogate {
                        Some(high) => {
                            return Err(
                                self.syntax_error(SyntaxError::InvalidUnicodeEscapeSequence(high)),
                            );
                        },
                        None => {},
                    }
                    if c == '"' {
                        Ok(Some(self.close_string()))
                    } else {
                        let ghost src = self.source@;
                        let ghost raw = self.string_raw@;
                        let ghost cons = self.consumed@;
                        let ghost st = self.decode_state();
                        let n = self.copy_run(CopyClass::StringBody);
                        let ghost run = src.take(n as int);
                        self.string_raw = Ghost(raw + run);
                        proof {
                            assert(class_accepts(CopyClass::StringBody, src[0]));
                            assert forall|i: int|
                                0 <= i < self.frames.frames().len()
                                    && #[trigger] self.frames.frames()[i] is Array
                                implies self.frames.frames()[i]->next_index <= self.pos by {}
                            assert forall|i: int| 0 <= i < run.len() implies is_plain(
                                #[trigger] run[i],
                            ) by {
                                assert(run[i] == src[i]);
                                assert(class_accepts(CopyClass::StringBody, src[i]));
                            }
                            lemma_decode_plain(raw, run, st);
                            lemma_read_plain(
                                cons,
                                run,
                                old(self).reading(),
                                old(self).parse_state == ParseState::BeforePropertyName,
                                st,
                                self.allow_unicode_whitespace,
                                self.multiple_values,
                            );
                            lemma_ends_with_append(cons, quote() + raw, run);
                            assert(quote() + raw + run =~= quote() + (raw + run));
                            assert(st.decoded + run =~= self.string_text@ + self.buffer@);
                            assert(self.decode_state() == DecodeState {
                                decoded: st.decoded + run,
                                ..st
                            });
                            assert(self.reading() == Reading {
                                scan: Scan::Str(
                                    old(self).parse_state == ParseState::BeforePropertyName,
                                    self.decode_state(),
                                ),
                                ..old(self).reading()
                            });
                        }
                        Ok(None)
                    }
                }
            },
            PeekedChar::Empty => Ok(Some(self.produce_partial())),
            PeekedChar::EndOfInput => Err(self.invalid_char(next)),
        }
    }

    /// Reads the character after a backslash, which the escape decodes to
    /// `ch`, and returns to the string body.
    fn push_decoded(&mut self, ch: char)
        requires
            old(self).wf_grammar(),
            old(self).wf_nest(),
            old(self).wf_core(),
            !old(self).is_errored(),
            old(self).in_literal@,
            old(self).source@.len() > 0,
            old(self).lex_state == LexState::StringEscape,
            decode_step(old(self).decode_state(), old(self).source@[0]) == Some(
                DecodeState {
                    decoded: old(self).decode_state().decoded.push(ch),
                    escape: EscapeState::Body,
                    pending: old(self).decode_state().pending,
                },
            ),
        ensures
            final(self).wf_grammar(),
            final(self).wf_nest(),
            final(self).wf_core(),
            final(self).same_grammar_state(old(self)),
            final(self).fed() == old(self).fed(),
            final(self).pos == old(self).pos + 1,
            final(self).lex_state == LexState::String,
            final(self).in_literal@,
            final(self).string_text == old(self).string_text,
            final(self).last_body == old(self).last_body,
            final(self).last_text == old(self).last_text,
    {
        proof {
            self.lemma_read_next();
        }
        self.advance_body();
        let ghost before = self.buffer@;
        string_push(&mut self.buffer, ch);
        self.lex_state = LexState::String;
        proof {
            assert(self.string_text@ + self.buffer@ =~= (self.string_text@ + before).push(ch));
            assert(self.reading() == Reading {
                scan: Scan::Str(
                    old(self).parse_state == ParseState::BeforePropertyName,
                    self.decode_state(),
                ),
                ..old(self).reading()
            });
        }
    }

    /// After a backslash inside a string.
    #[verifier::rlimit(80)]
    fn step_escape(&mut self) -> (r: Result<Option<Token>, ParserError>)
        requires
            old(self).wf_grammar(),
            old(self).multiple_values ==> old(self).parse_state != ParseState::End,
            old(self).wf_nest(),
            old(self).wf_core(),
            !old(self).is_errored(),
            old(self).lex_state == LexState::StringEscape,
            old(self).in_literal@,
        ensures
            final(self).step_post(old(self), r),
    {
        proof {
            if self.source@.len() > 0 {
                self.lemma_read_next();
            } else {
                self.lemma_read_end();
            }
        }
        let next = self.peek_char();
        match next {
            PeekedChar::Empty => Ok(Some(self.produce_partial())),
            PeekedChar::Char(c) => {
                if c == '"' || c == '\\' || c == '/' {
                    self.push_decoded(c);
                    Ok(None)
                } else if c == 'b' {
                    self.push_decoded('\u{8}');
                    Ok(None)
                } else if c == 'f' {
                    self.push_decoded('\u{C}');
                    Ok(None)
                } else if c == 'n' {
                    self.push_decoded('\n');
                    Ok(None)
                } else if c == 'r' {
                    self.push_decoded('\r');
                    Ok(None)
                } else if c == 't' {
                    self.push_decoded('\t');
                    Ok(None)
                } else if c == 'u' {
                    self.advance_body();
                    self.unicode_escape_buffer.reset();
                    self.lex_state = LexState::StringEscapeUnicode;
                    proof {
                        assert(self.decode_state() == DecodeState {
                            escape: EscapeState::Unicode(Seq::empty()),
                            ..old(self).decode_state()
                        });
                        assert(self.reading() == Reading {
                            scan: Scan::Str(
                                old(self).parse_state == ParseState::BeforePropertyName,
                                self.decode_state(),
                            ),
                            ..old(self).reading()
                        });
                    }
                    Ok(None)
                } else {
                    Err(self.invalid_char(next))
                }
            },
            PeekedChar::EndOfInput => Err(self.invalid_char(next)),
        }
    }

    /// Inside a `\u` escape.
    #[verifier::rlimit(100)]
    #[verifier::spinoff_prover]
    fn step_unicode(&mut self) -> (r: Result<Option<Token>, ParserError>)
        requires
            old(self).wf_grammar(),
            old(self).multiple_values ==> old(self).parse_state != ParseState::End,
            old(self).wf_nest(),
            old(self).wf_core(),
            !old(self).is_errored(),
            old(self).lex_state == LexState::StringEscapeUnicode,
            old(self).in_literal@,
        ensures
            final(self).step_post(old(self), r),
    {
        proof {
            if self.source@.len() > 0 {
                self.lemma_read_next();
            } else {
                self.lemma_read_end();
            }
        }
        let next = self.peek_char();
        let c = match next {
            PeekedChar::Empty => {
                return Ok(Some(self.produce_partial()));
            },
            PeekedChar::EndOfInput => {
                proof {
                    lemma_position_bounds(self.consumed@);
                }
                return Err(
                    ParserError::new(SyntaxError::UnexpectedEndOfInput, self.line, self.column + 1),
                );
            },
            PeekedChar::Char(c) => c,
        };
        if !(('0' <= c && c <= '9') || ('a' <= c && c <= 'f') || ('A' <= c && c <= 'F')) {
            return Err(self.invalid_char(next));
        }
        let ghost st = self.decode_state();
        let ghost ds = self.unicode_escape_buffer.digits();
        self.advance_body();
        assert(is_hex_digit(c));
        let completing = self.unicode_escape_buffer.completing_code(c);
        let surrogate = match completing {
            Some(code) => 0xD800 <= code && code <= 0xDFFF,
            None => false,
        };
        if surrogate {
            self.unicode_escape_buffer.reset();
            let code = match completing {
                Some(code) => code,
                None => {
                    return Err(
                        self.syntax_error(SyntaxError::InvalidUnicodeEscapeSequence(0)),
                    );
                },
            };
            if code <= 0xDBFF {
                self.pending_high_surrogate = Some(code);
                self.lex_state = LexState::String;
                assert(self.decode_state() == DecodeState {
                    escape: EscapeState::Body,
                    pending: Some(hex_value(ds.push(c))),
                    ..st
                });
                Ok(None)
            } else {
                match self.pending_high_surrogate {
                    Some(high) => {
                        let cp: u32 = 0x10000 + (high - 0xD800) * 1024 + (code - 0xDC00);
                        let ch = match char_from_scalar(cp) {
                            Some(ch) => ch,
                            None => {
                                return Err(
                                    self.syntax_error(
                                        SyntaxError::InvalidUnicodeEscapeSequence(cp),
                                    ),
                                );
                            },
                        };
                        self.pending_high_surrogate = None;
                        let ghost before = self.buffer@;
                        string_push(&mut self.buffer, ch);
                        self.lex_state = LexState::String;
                        proof {
                            assert(cp as nat == combine_surrogates(
                                high as nat,
                                hex_value(ds.push(c)),
                            ));
                            assert(self.string_text@ + self.buffer@ =~= st.decoded.push(ch));
                        }
                        Ok(None)
                    },
                    None => Err(
                        self.syntax_error(SyntaxError::InvalidUnicodeEscapeSequence(code)),
                    ),
                }
            }
        } else {
        match self.unicode_escape_buffer.feed(c) {
            Ok(Some(ch)) => {
                match self.pending_high_surrogate {
                    Some(high) => {
                        return Err(
                            self.syntax_error(SyntaxError::InvalidUnicodeEscapeSequence(high)),
                        );
                    },
                    None => {},
                }
                let ghost before = self.buffer@;
                string_push(&mut self.buffer, ch);
                self.lex_state = LexState::String;
                proof {
                    assert(self.string_text@ + self.buffer@ =~= st.decoded.push(ch));
                }
                Ok(None)
            },
            Ok(None) => {
                assert(self.decode_state() == DecodeState {
                    escape: EscapeState::Unicode(ds.push(c)),
                    ..st
                });
                Ok(None)
            },
            Err(_) => {
                vstd::pervasive::unreached()
            },
        }
        }
    }

    /// One step of the lexer in its current state.
    fn lex_state_step(&mut self) -> (r: Result<Option<Token>, ParserError>)
        requires
            old(self).lex_state == LexState::Value ==> old(self).value_ahead(),
            old(self).wf_grammar(),
            old(self).multiple_values ==> old(self).parse_state != ParseState::End,
            old(self).wf_nest(),
            old(self).wf_core(),
            !old(self).is_errored(),
            is_string_state(old(self).lex_state) ==> old(self).in_literal@,
            old(self).lex_state == LexState::Value ==> expects_value(old(self).parse_state),
        ensures
            final(self).step_post(old(self), r),
    {
        match self.lex_state {
            LexState::Default => self.step_default(),
            LexState::Value => self.step_value(),
            LexState::ValueLiteral => self.step_literal(),
            LexState::String => self.step_string(),
            LexState::StringEscape => self.step_escape(),
            LexState::StringEscapeUnicode => self.step_unicode(),
            LexState::Error => Err(self.syntax_error(SyntaxError::UnexpectedEndOfInput)),
            _ => self.step_number(),
        }
    }

    /// Reads the next token. A complete token other than `Eof` is preceded
    /// by reading at least one character, unless it completes an
    /// incomplete one.
    fn lex(&mut self) -> (r: Result<Token, ParserError>)
        requires
            old(self).wf_grammar(),
            old(self).multiple_values ==> old(self).parse_state != ParseState::End,
            old(self).wf_nest(),
            old(self).wf_core(),
            old(self).wf_token(),
            !old(self).is_errored(),
        ensures
            r matches Ok(Token::String { .. }) && final(self).partial_lex ==> !final(
                self).end_of_input,
            r matches Ok(Token::Eof) ==> if final(self).partial_lex {
                !final(self).end_of_input
            } else {
                final(self).end_of_input && final(self).source@.len() == 0
            },
            r matches Ok(t) && !(t is Eof || t is String) ==> !final(self).partial_lex,
            r matches Ok(t) && !(t is Eof) ==> !tracks_suffix(final(self).lex_state),
            r matches Ok(t) && (t is Number || t is Null || t is Boolean || t is String)
                ==> expects_value(final(self).parse_state),
            r matches Ok(t) ==> final(self).wf_grammar_token(t),
            r is Err ==> final(self).error_due(),
            r is Ok ==> final(self).wf_token(),
            r matches Ok(Token::PropertyName { .. }) ==> final(self).parse_state
                == ParseState::BeforePropertyName,
            r matches Ok(Token::String { .. }) ==> final(self).parse_state
                != ParseState::BeforePropertyName,
            final(self).wf_base(),
            r is Ok ==> final(self).wf_literal(),
            r matches Ok(Token::String { fragment }) ==> final(self).string_text@ == (if old(self).in_literal@ {
                old(self).string_text@
            } else {
                Seq::<char>::empty()
            }) + fragment@,
            r matches Ok(t) ==> (final(self).in_literal@ ==> final(self).partial_lex && (t is String
                || t is Eof)),
            r matches Ok(Token::Eof) && final(self).in_literal@ ==> final(self).string_text@ == if old(self).in_literal@ {
                old(self).string_text@
            } else {
                Seq::<char>::empty()
            },
            r matches Ok(Token::Eof) && old(self).in_literal@ ==> final(self).in_literal@,
            r matches Ok(Token::Punctuator(b)) ==> ends_with_char(final(self).consumed@, punct_char(b)),
            r matches Ok(Token::Punctuator(b)) ==> punct_allowed(final(self).parse_state, b)
                && nest_run(final(self).consumed@) == (
                final(self).frames.frames().len() + punct_delta(b),
                NestMode::Out,
                final(self).containers@ + punct_count(b),
            ),
            r is Ok && !(r matches Ok(Token::Punctuator(_))) ==> final(self).wf_nest(),
            r matches Ok(t) ==> (final(self).partial_lex ==> final(self).lex_state
                != LexState::Value),
            r matches Ok(Token::String { .. }) && !final(self).partial_lex ==> {
                &&& !final(self).in_literal@
                &&& final(self).last_text@ == final(self).string_text@
                &&& ends_with(final(self).consumed@, quote() + final(self).last_body@ + quote())
            },
            final(self).same_grammar_state(old(self)),
            final(self).fed() == old(self).fed(),
            final(self).pos >= old(self).pos,
            r matches Ok(Token::Punctuator(_)) ==> final(self).pos > old(self).pos,
            r matches Ok(Token::Number(s)) ==> is_number_lexeme(s@) && ends_with(
                final(self).consumed@,
                s@,
            ),
            r matches Ok(Token::Number(s)) ==> s@ == number_token(
                final(self).consumed@,
                final(self).allow_unicode_whitespace,
                final(self).multiple_values,
            ),
            r matches Ok(Token::Null) ==> ends_with(final(self).consumed@, literal_text(Literal::Null)),
            r matches Ok(Token::Boolean(b)) ==> ends_with(
                final(self).consumed@,
                literal_text(if b {
                    Literal::True
                } else {
                    Literal::False
                }),
            ),
            r matches Ok(t) && !(t is Eof) && !final(self).partial_lex && !old(self).partial_lex
                ==> final(self).pos > old(self).pos,
            r matches Err(e) ==> e.line == line_of(final(self).consumed@) && (e.column
                == column_of(final(self).consumed@) || (e.source == ErrorSource::SyntaxError(
                SyntaxError::UnexpectedEndOfInput) && e.column == column_of(final(self).consumed@)
                + 1)),
            r matches Ok(Token::String { .. }) ==> is_string_state(final(self).lex_state),
            r matches Ok(t) && (t is Eof || final(self).partial_lex) ==> final(self).source@.len()
                == 0,
            old(self).partial_lex && is_string_state(old(self).lex_state) && old(self).parse_state
                != ParseState::BeforePropertyName ==> (r matches Ok(t) ==> is_string_state(
                final(self).lex_state) && (t is String || (t is Eof && final(self).partial_lex
                && !final(self).end_of_input))),
    {
        if !self.partial_lex {
            self.lex_state = LexState::Default;
        }
        let ghost start = *self;
        loop
            invariant
                self.wf_core(),
                self.wf_nest(),
                !self.is_errored(),
                is_string_state(self.lex_state) ==> self.in_literal@,
                old(self).in_literal@ ==> self.in_literal@,
                self.lex_state == LexState::Value ==> expects_value(self.parse_state),
                self.lex_state == LexState::Value ==> self.value_ahead(),
                self.wf_grammar(),
                self.multiple_values ==> self.parse_state != ParseState::End,
                self.parse_state == ParseState::End ==> self.lex_state == LexState::Default,
                self.in_literal@ ==> self.string_text@ == if old(self).in_literal@ {
                    old(self).string_text@
                } else {
                    Seq::<char>::empty()
                },
                self.same_grammar_state(&start),
                self.fed() == start.fed(),
                start.pos == old(self).pos,
                start.partial_lex == old(self).partial_lex,
                start.same_grammar_state(old(self)),
                start.fed() == old(self).fed(),
                self.pos >= start.pos,
                !start.partial_lex ==> self.pos > start.pos || self.lex_state == LexState::Default
                    || self.lex_state == LexState::Value,
                start.lex_state == old(self).lex_state || !old(self).partial_lex,
                old(self).partial_lex && is_string_state(old(self).lex_state) && old(self).parse_state
                    != ParseState::BeforePropertyName ==> is_string_state(self.lex_state),
            decreases self.source@.len(), lex_rank(self.lex_state),
        {
            let ghost before = *self;
            match self.lex_state_step() {
                Ok(Some(tok)) => {
                    return Ok(tok);
                },
                Ok(None) => {},
                Err(e) => {
                    return Err(e);
                },
            }
            assert(self.fed().len() == self.pos + self.source@.len());
            assert(before.fed().len() == before.pos + before.source@.len());
        }
    }

    /// Every open array's index is below the number of characters read.
    closed spec fn indices_below_pos(&self) -> bool {
        let fs = self.frames.frames();
        forall|i: int| 0 <= i < fs.len() && #[trigger] fs[i] is Array ==> fs[i]->next_index < self.pos
    }

    /// The path of a value in the innermost open container.
    fn build_value_path(&self) -> (r: Vec<PathComponent>)
        requires
            self.frames.wf(),
        ensures
            path_view(r@) == value_path(self.frames),
    {
        let mut path = self.frames.to_path_components();
        proof {
            self.frames.lemma_empty_components();
        }
        match self.frames.last() {
            Some(f) => {
                let ghost before = path@;
                path.push(f.to_path_component());
                proof {
                    assert(path_view(path@) =~= path_view(before).push(slot_of(*f)));
                }
            },
            None => {},
        }
        path
    }

    /// Closes the innermost container: emits its end and returns to the
    /// state after a value in the enclosing one.
    fn pop(&mut self) -> (r: Option<ParseEvent>)
        requires
            !tracks_suffix(old(self).lex_state),
            nest_run(old(self).consumed@) == (
                old(self).frames.frames().len() - 1,
                NestMode::Out,
                old(self).containers@ + 1,
            ),
            old(self).wf_core(),
            !old(self).is_errored(),
            old(self).frames.frames().len() > 0,
            !old(self).in_literal@,
        ensures
            final(self).reading() == (Reading {
                frames: old(self).reading().frames.drop_last(),
                phase: phase_after_value(
                    old(self).reading().frames.drop_last(),
                    old(self).multiple_values,
                ),
                ..old(self).reading()
            }),
            final(self).containers@ == old(self).containers@ + 1,
            final(self).wf_nest(),
            final(self).wf_core(),
            final(self).same_literal_ghosts(old(self)),
            !final(self).is_errored(),
            final(self).fed() == old(self).fed(),
            final(self).source == old(self).source,
            final(self).consumed == old(self).consumed,
            final(self).pos == old(self).pos,
            final(self).partial_lex == old(self).partial_lex,
            final(self).lex_state == old(self).lex_state,
            final(self).end_of_input == old(self).end_of_input,
            final(self).options() == old(self).options(),
            final(self).frames.frames() == old(self).frames.frames().drop_last(),
            final(self).parse_state == state_after_value(final(self).frames.frames()),
            final(self).string_open == old(self).string_open,
            r matches Some(e) && path_view(event_path(e)) == old(self).frames.components(),
            r matches Some(e) ==> path_view(event_path(e)) == value_path(final(self).frames),
            final(self).values_done == old(self).values_done,
            old(self).frames.frames().last() is Array ==> r matches Some(ParseEvent::ArrayEnd { .. }),
            old(self).frames.frames().last() is Object ==> r matches Some(
                ParseEvent::ObjectEnd { .. },
            ),
    {
        let path = self.frames.to_path_components();
        self.containers = Ghost(self.containers@ + 1);
        let ev = match self.frames.pop() {
            Some(Frame::Array { .. }) => Some(ParseEvent::ArrayEnd { path }),
            Some(Frame::Object { .. }) => Some(ParseEvent::ObjectEnd { path }),
            None => None,
        };
        self.parse_state = match self.frames.last() {
            Some(Frame::Array { .. }) => ParseState::AfterArrayValue,
            Some(Frame::Object { .. }) => ParseState::AfterPropertyValue,
            None => ParseState::End,
        };
        proof {
            let fs = self.frames.frames();
            let ofs = old(self).frames.frames();
            assert forall|i: int| 0 <= i < fs.len() && #[trigger] fs[i] is Array implies fs[i]->next_index
                <= self.pos by {
                assert(fs[i] == ofs[i]);
            }
            assert(fs.map_values(|f: Frame| frame_slot(f)) =~= ofs.map_values(|f: Frame| frame_slot(f)).drop_last());
            old(self).frames.lemma_components_are_slots();
            self.frames.lemma_components_are_slots();
            if fs.len() > 0 {
                assert(value_path(self.frames) =~= fs.map_values(|f: Frame| slot_of(f)));
            }
            assert(ofs.drop_last() =~= fs);
            assert(value_path(self.frames) =~= old(self).frames.components());
        }
        ev
    }

    /// Starts a value: opens a container, or emits a scalar or a string
    /// fragment at the current value path.
    #[verifier::rlimit(30)]
    fn push(&mut self, token: Token) -> (r: Result<Option<ParseEvent>, ParserError>)
        requires
            !(token is Eof),
            !(token is String) ==> !old(self).partial_lex,
            !tracks_suffix(old(self).lex_state),
            token matches Token::Punctuator(b) ==> b == OPEN_BRACE || b == OPEN_BRACKET,
            token matches Token::Punctuator(b) ==> nest_run(old(self).consumed@) == (
                old(self).frames.frames().len() + punct_delta(b),
                NestMode::Out,
                old(self).containers@ + punct_count(b),
            ),
            !(token is Punctuator) ==> old(self).wf_nest(),
            old(self).wf_core(),
            !old(self).is_errored(),
            old(self).parse_state == ParseState::Start || old(self).parse_state
                == ParseState::BeforePropertyValue || old(self).parse_state
                == ParseState::BeforeArrayValue,
            token matches Token::Number(s) ==> is_number_lexeme(s@),
            !(token is String) ==> !old(self).string_open,
            token is String && old(self).partial_lex ==> is_string_state(old(self).lex_state),
            old(self).in_literal@ ==> old(self).partial_lex && (token is String || token is Eof),
        ensures
            r is Err ==> token is PropertyName,
            token == Token::Punctuator(OPEN_BRACE) ==> final(self).reading() == (Reading {
                frames: old(self).reading().frames.push(Slot::Key(None)),
                phase: ParseState::BeforePropertyName,
                ..old(self).reading()
            }),
            token == Token::Punctuator(OPEN_BRACKET) ==> final(self).reading() == (Reading {
                frames: old(self).reading().frames.push(Slot::Index(0)),
                phase: ParseState::BeforeArrayValue,
                ..old(self).reading()
            }),
            token is String && old(self).partial_lex ==> final(self).reading() == old(self).reading(),
            r is Ok && !(token is Punctuator) && !(token is String && old(self).partial_lex)
                ==> final(self).reading() == (Reading {
                phase: phase_after_value(old(self).reading().frames, old(self).multiple_values),
                done: old(self).reading().done + 1,
                ..old(self).reading()
            }),
            r matches Ok(Some(e)) && (e is ObjectBegin || e is ArrayStart) ==> final(
                self).containers@ == old(self).containers@ + 1,
            !(r matches Ok(Some(e)) && (e is ObjectBegin || e is ArrayStart)) ==> final(
                self).containers@ == old(self).containers@,
            final(self).wf_nest(),
            r matches Ok(Some(e)) && (e is ObjectBegin || e is ArrayStart) ==> final(
                self).frames.frames().len() == old(self).frames.frames().len() + 1,
            !(r matches Ok(Some(e)) && (e is ObjectBegin || e is ArrayStart)) ==> final(
                self).frames.frames().len() == old(self).frames.frames().len(),
            r matches Ok(Some(ParseEvent::ObjectBegin { .. })) ==> token == Token::Punctuator(
                OPEN_BRACE,
            ),
            r matches Ok(Some(ParseEvent::ArrayStart { .. })) ==> token == Token::Punctuator(
                OPEN_BRACKET,
            ),
            !(r matches Ok(Some(ParseEvent::ObjectEnd { .. }))),
            !(r matches Ok(Some(ParseEvent::ArrayEnd { .. }))),
            r matches Ok(Some(ParseEvent::String { fragment, is_final, .. })) ==> (token matches Token::String {
                fragment: f,
            } && f == fragment && is_final == !old(self).partial_lex),
            final(self).wf_core(),
            final(self).wf_string(),
            final(self).same_literal_ghosts(old(self)),
            !final(self).is_errored(),
            final(self).fed() == old(self).fed(),
            final(self).source == old(self).source,
            final(self).consumed == old(self).consumed,
            final(self).pos == old(self).pos,
            final(self).partial_lex == old(self).partial_lex,
            final(self).lex_state == old(self).lex_state,
            final(self).end_of_input == old(self).end_of_input,
            final(self).options() == old(self).options(),
            r matches Ok(Some(ParseEvent::Number { value, .. })) ==> is_number_lexeme(value@),
            r matches Err(e) ==> e.line == line_of(final(self).consumed@) && e.column
                == column_of(final(self).consumed@),
            token is String ==> (r matches Ok(Some(ParseEvent::String { is_initial, is_final, .. }))
                && is_initial == !old(self).string_open && is_final == !old(self).partial_lex
                && final(self).string_open == !is_final),
            token is String ==> (r matches Ok(Some(e)) && path_view(event_path(e)) == value_path(
                old(self).frames)),
            r matches Ok(Some(e)) ==> (!(e is ObjectBegin || e is ArrayStart) ==> at_slot(
                final(self).frames,
                path_view(event_path(e)),
            )),
            r matches Ok(Some(e)) ==> ((e is ObjectBegin || e is ArrayStart) ==> path_view(
                event_path(e),
            ) == final(self).frames.components()),
            r matches Ok(None) ==> final(self).frames.components() == old(self).frames.components(),
            token is String && old(self).partial_lex ==> final(self).frames == old(self).frames
                && final(self).parse_state == old(self).parse_state,
            !(token is String) ==> !final(self).string_open,
            !(token is String) ==> !(r matches Ok(Some(ParseEvent::String { .. }))),
            r matches Ok(Some(ParseEvent::Number { value, .. })) ==> (token matches Token::Number(
                t,
            ) && t == value),
            r matches Ok(Some(ParseEvent::Boolean { value, .. })) ==> token == Token::Boolean(value),
            r matches Ok(Some(ParseEvent::Null { .. })) ==> token is Null,
            token is Null ==> r matches Ok(Some(ParseEvent::Null { .. })),
            final(self).values_done@ == old(self).values_done@ + if step_completes(r) {
                1int
            } else {
                0int
            },
            r matches Ok(Some(e)) ==> (!(e is ObjectBegin || e is ArrayStart) ==> path_view(
                event_path(e),
            ) == value_path(final(self).frames)),
            token matches Token::Boolean(v) ==> r matches Ok(Some(ParseEvent::Boolean { value, .. }))
                && value == v,
            token matches Token::Number(t) ==> r matches Ok(Some(ParseEvent::Number { value, .. }))
                && value == t,
    {
        match token {
            Token::Punctuator(b) => {
                if b == OPEN_BRACE {
                    let ghost ofs = self.frames.frames();
                    self.frames.push(Frame::new_object_frame());
                    self.containers = Ghost(self.containers@ + 1);
                    assert(self.frames.frames().map_values(|f: Frame| frame_slot(f)) =~= ofs.map_values(
                        |f: Frame| frame_slot(f),
                    ).push(Slot::Key(None)));
                    let path = self.frames.to_path_components();
                    self.parse_state = ParseState::BeforePropertyName;
                    proof {
                        self.lemma_indices_after_push(old(self).frames.frames());
                    }
                    return Ok(Some(ParseEvent::ObjectBegin { path }));
                }
                if b == OPEN_BRACKET {
                    let ghost ofs = self.frames.frames();
                    self.frames.push(Frame::new_array_frame());
                    self.containers = Ghost(self.containers@ + 1);
                    assert(self.frames.frames().map_values(|f: Frame| frame_slot(f)) =~= ofs.map_values(
                        |f: Frame| frame_slot(f),
                    ).push(Slot::Index(0)));
                    let path = self.frames.to_path_components();
                    self.parse_state = ParseState::BeforeArrayValue;
                    proof {
                        self.lemma_indices_after_push(old(self).frames.frames());
                    }
                    return Ok(Some(ParseEvent::ArrayStart { path }));
                }
            },
            _ => {},
        }
        let path = self.build_value_path();
        let ev = match token {
            Token::Null => Some(ParseEvent::Null { path }),
            Token::Boolean(value) => Some(ParseEvent::Boolean { path, value }),
            Token::Number(value) => Some(ParseEvent::Number { path, value }),
            Token::String { fragment } => {
                let is_initial = !self.string_open;
                let is_final = !self.partial_lex;
                self.string_open = self.partial_lex;
                Some(ParseEvent::String { path, fragment, is_initial, is_final })
            },
            Token::PropertyName { .. } => {
                return Err(
                    self.syntax_error(
                        SyntaxError::SyntaxError("Unexpected property name outside of object"),
                    ),
                );
            },
            _ => None,
        };
        if !self.partial_lex {
            self.complete_value();
        }
        Ok(ev)
    }

    /// A new frame opened with index 0 keeps every array index within the
    /// characters read.
    proof fn lemma_indices_after_push(&self, before: Seq<Frame>)
        requires
            self.frames.frames().len() == before.len() + 1,
            forall|i: int| 0 <= i < before.len() ==> self.frames.frames()[i] == before[i],
            forall|i: int|
                0 <= i < before.len() && #[trigger] before[i] is Array ==> before[i]->next_index
                    <= self.pos,
            self.frames.frames().last() is Array ==> self.frames.frames().last()->next_index == 0,
        ensures
            forall|i: int|
                0 <= i < self.frames.frames().len() && #[trigger] self.frames.frames()[i] is Array
                    ==> self.frames.frames()[i]->next_index <= self.pos,
    {
        let fs = self.frames.frames();
        assert forall|i: int| 0 <= i < fs.len() && #[trigger] fs[i] is Array implies fs[i]->next_index
            <= self.pos by {
            if i < before.len() {
                assert(fs[i] == before[i]);
            }
        }
    }

    /// Frames updated at their innermost one read as the containers with
    /// that slot updated.
    proof fn lemma_frame_slots(a: Seq<Frame>, b: Seq<Frame>)
        requires
            a.len() == b.len(),
            a.len() > 0,
            forall|i: int| 0 <= i < a.len() - 1 ==> a[i] == b[i],
        ensures
            a.map_values(|f: Frame| frame_slot(f)) == b.map_values(|f: Frame| frame_slot(f)).update(
                a.len() - 1,
                frame_slot(a.last()),
            ),
    {
        assert(a.map_values(|f: Frame| frame_slot(f)) =~= b.map_values(|f: Frame| frame_slot(f)).update(
            a.len() - 1,
            frame_slot(a.last()),
        ));
    }

    /// After a complete value: moves to the state after a value in the
    /// innermost container.
    fn complete_value(&mut self)
        requires
            !tracks_suffix(old(self).lex_state),
            old(self).wf_nest(),
            old(self).frames.wf(),
            old(self).wf_positions(),
            old(self).wf_lexer(),
            old(self).wf_suffix(),
            old(self).parse_state != ParseState::Error,
            old(self).wf_literal(),
            old(self).wf_last(),
            !old(self).in_literal@,
            forall|i: int|
                0 <= i < old(self).frames.frames().len() && #[trigger] old(self).frames.frames()[i] is Array ==> old(self).frames.frames()[i]->next_index
                    <= old(self).pos,
        ensures
            final(self).reading() == (Reading {
                phase: phase_after_value(old(self).reading().frames, old(self).multiple_values),
                done: old(self).reading().done + 1,
                ..old(self).reading()
            }),
            final(self).wf_nest(),
            final(self).wf_core(),
            final(self).same_literal_ghosts(old(self)),
            !final(self).is_errored(),
            final(self).fed() == old(self).fed(),
            final(self).source == old(self).source,
            final(self).consumed == old(self).consumed,
            final(self).pos == old(self).pos,
            final(self).line == old(self).line,
            final(self).column == old(self).column,
            final(self).partial_lex == old(self).partial_lex,
            final(self).lex_state == old(self).lex_state,
            final(self).end_of_input == old(self).end_of_input,
            final(self).options() == old(self).options(),
            final(self).frames.frames().len() == old(self).frames.frames().len(),
            final(self).parse_state == state_after_value(final(self).frames.frames()),
            final(self).string_open == old(self).string_open,
            final(self).frames == old(self).frames,
            final(self).values_done@ == old(self).values_done@ + 1,
    {
        let ghost ofs = self.frames.frames();
        self.values_done = Ghost(self.values_done@ + 1);
        self.parse_state = match self.frames.last() {
            None => ParseState::End,
            Some(Frame::Array { .. }) => ParseState::AfterArrayValue,
            Some(Frame::Object { .. }) => ParseState::AfterPropertyValue,
        };
        proof {
            let fs = self.frames.frames();
            if fs.len() > 0 {
                assert(fs.last() is Array <==> fs.map_values(|f: Frame| frame_slot(f)).last() is Index);
            }
        }
    }

    /// The error for an input that ends inside a value.
    fn invalid_eof(&self) -> (r: ParserError)
        ensures
            r == self.error_here(SyntaxError::UnexpectedEndOfInput),
    {
        self.syntax_error(SyntaxError::UnexpectedEndOfInput)
    }

    /// Applies a token to the grammar state; returns the event it
    /// produces, if any.
    #[verifier::rlimit(40)]
    fn dispatch_parse_state(&mut self, token: Token) -> (r: Result<Option<ParseEvent>, ParserError>)
        requires
            token is Eof && old(self).partial_lex ==> !old(self).end_of_input,
            !(token is Eof || token is String) ==> !old(self).partial_lex,
            !(token is Eof) ==> !tracks_suffix(old(self).lex_state),
            token is Number || token is Null || token is Boolean || token is String
                ==> expects_value(old(self).parse_state),
            old(self).wf_token(),
            old(self).wf_grammar_token(token),
            token is PropertyName ==> old(self).parse_state == ParseState::BeforePropertyName,
            token is String ==> old(self).parse_state != ParseState::BeforePropertyName,
            old(self).multiple_values ==> old(self).parse_state != ParseState::End,
            token is Eof && !old(self).partial_lex ==> old(self).source@.len() == 0
                && old(self).end_of_input,
            old(self).wf_core(),
            !old(self).is_errored(),
            token matches Token::Number(s) ==> is_number_lexeme(s@),
            token is Punctuator ==> old(self).indices_below_pos(),
            old(self).string_open ==> {
                &&& (old(self).parse_state == ParseState::Start || old(self).parse_state
                    == ParseState::BeforePropertyValue || old(self).parse_state
                    == ParseState::BeforeArrayValue)
                &&& token is String || (token is Eof && old(self).partial_lex
                    && !old(self).end_of_input)
                &&& is_string_state(old(self).lex_state)
            },
            token is String && old(self).partial_lex ==> is_string_state(old(self).lex_state),
            old(self).in_literal@ ==> old(self).partial_lex && (token is String || token is Eof),
            token matches Token::Punctuator(b) ==> punct_allowed(old(self).parse_state, b)
                && nest_run(old(self).consumed@) == (
                old(self).frames.frames().len() + punct_delta(b),
                NestMode::Out,
                old(self).containers@ + punct_count(b),
            ),
            !(token is Punctuator) ==> old(self).wf_nest(),
        ensures
            token is Eof && old(self).end_of_input && r is Ok ==> may_end(
                old(self).reading(),
                old(self).multiple_values,
            ),
            final(self).wf_token(),
            r is Ok ==> final(self).wf_grammar(),
            r is Err ==> final(self).error_due(),
            r matches Ok(Some(e)) && (e is ObjectBegin || e is ArrayStart || e is ObjectEnd
                || e is ArrayEnd) ==> final(self).containers@ == old(self).containers@ + 1,
            r matches Ok(None) || (r matches Ok(Some(e)) && !(e is ObjectBegin || e is ArrayStart
                || e is ObjectEnd || e is ArrayEnd)) ==> final(self).containers@ == old(
                self).containers@,
            final(self).wf_nest(),
            r matches Ok(Some(e)) && (e is ObjectBegin || e is ArrayStart) ==> final(
                self).frames.frames().len() == old(self).frames.frames().len() + 1,
            r matches Ok(Some(e)) && (e is ObjectEnd || e is ArrayEnd) ==> final(
                self).frames.frames().len() + 1 == old(self).frames.frames().len(),
            r matches Ok(None) || (r matches Ok(Some(e)) && !(e is ObjectBegin || e is ArrayStart
                || e is ObjectEnd || e is ArrayEnd)) ==> final(self).frames.frames().len() == old(
                self).frames.frames().len(),
            r matches Ok(Some(ParseEvent::ObjectBegin { .. })) ==> token == Token::Punctuator(
                OPEN_BRACE,
            ),
            r matches Ok(Some(ParseEvent::ArrayStart { .. })) ==> token == Token::Punctuator(
                OPEN_BRACKET,
            ),
            r matches Ok(Some(ParseEvent::ObjectEnd { .. })) ==> token == Token::Punctuator(
                CLOSE_BRACE,
            ),
            r matches Ok(Some(ParseEvent::ArrayEnd { .. })) ==> token == Token::Punctuator(
                CLOSE_BRACKET,
            ),
            old(self).string_open && token is String && r is Ok ==> r matches Ok(Some(_)),
            r matches Ok(Some(ParseEvent::String { fragment, is_final, .. })) ==> (token matches Token::String {
                fragment: f,
            } && f == fragment && is_final == !old(self).partial_lex),
            final(self).lex_state == old(self).lex_state,
            old(self).in_literal@ && token is String && r is Ok ==> final(self).string_open,
            token is Eof && r is Ok ==> final(self).string_open == old(self).string_open,
            final(self).wf_core(),
            final(self).wf_string(),
            final(self).same_literal_ghosts(old(self)),
            !final(self).is_errored(),
            final(self).fed() == old(self).fed(),
            final(self).source == old(self).source,
            final(self).consumed == old(self).consumed,
            final(self).pos == old(self).pos,
            final(self).partial_lex == old(self).partial_lex,
            final(self).end_of_input == old(self).end_of_input,
            final(self).options() == old(self).options(),
            r matches Ok(Some(ParseEvent::Number { value, .. })) ==> is_number_lexeme(value@),
            r matches Err(e) ==> e.line == line_of(final(self).consumed@) && e.column
                == column_of(final(self).consumed@),
            r matches Ok(Some(ParseEvent::String { is_initial, is_final, .. })) ==> is_initial
                == !old(self).string_open && final(self).string_open == !is_final,
            old(self).string_open ==> (r matches Ok(Some(e)) ==> e is String && path_view(
                event_path(e),
            ) == value_path(old(self).frames)),
            old(self).string_open ==> (r matches Ok(None) ==> final(self).string_open && final(
                self).frames == old(self).frames && final(self).parse_state == old(self).parse_state),
            r matches Ok(Some(e)) ==> (!(e is ObjectBegin || e is ArrayStart || e is ObjectEnd
                || e is ArrayEnd) ==> at_slot(final(self).frames, path_view(event_path(e)))),
            r matches Ok(Some(e)) ==> ((e is ObjectBegin || e is ArrayStart) ==> path_view(
                event_path(e),
            ) == final(self).frames.components()),
            r matches Ok(Some(e)) ==> ((e is ObjectEnd || e is ArrayEnd) ==> path_view(
                event_path(e),
            ) == old(self).frames.components()),
            r matches Ok(None) ==> final(self).frames.components() == old(self).frames.components(),
            final(self).values_done@ == old(self).values_done@ + if step_completes(r) {
                1int
            } else {
                0int
            },
            r matches Ok(Some(e)) ==> (!(e is ObjectBegin || e is ArrayStart) ==> path_view(
                event_path(e),
            ) == value_path(final(self).frames)),
            r matches Ok(Some(e)) && !(e is String) ==> !final(self).string_open,
            r matches Ok(None) ==> final(self).string_open == old(self).string_open,
            r matches Ok(Some(ParseEvent::Number { value, .. })) ==> (token matches Token::Number(
                t,
            ) && t == value),
            r matches Ok(Some(ParseEvent::Boolean { value, .. })) ==> token == Token::Boolean(value),
            r matches Ok(Some(ParseEvent::Null { .. })) ==> token is Null,
    {
        proof {
            if token is Eof {
                self.lemma_read_end();
            }
        }
        match self.parse_state {
            ParseState::Start => match token {
                Token::Eof => {
                    if self.end_of_input && !self.multiple_values {
                        Err(self.invalid_eof())
                    } else {
                        Ok(None)
                    }
                },
                _ => self.push(token),
            },
            ParseState::BeforePropertyName => match token {
                Token::Eof => {
                    if self.end_of_input {
                        Err(self.invalid_eof())
                    } else {
                        Ok(None)
                    }
                },
                Token::PropertyName { value } => {
                    let ghost ofs = self.frames.frames();
                    match self.frames.last_mut() {
                        Some(f) => {
                            *f = Frame::Object { pending_key: Some(value) };
                        },
                        None => {},
                    }
                    self.parse_state = ParseState::AfterPropertyName;
                    proof {
                        let fs = self.frames.frames();
                        assert forall|i: int|
                            0 <= i < fs.len() && #[trigger] fs[i] is Array implies fs[i]->next_index
                            <= self.pos by {
                            assert(fs[i] == ofs[i]);
                        }
                        assert forall|i: int| 0 <= i < fs.len() implies (#[trigger] fs[i] is Array)
                            == (ofs[i] is Array) by {
                            if i < fs.len() - 1 {
                                assert(fs[i] == ofs[i]);
                            }
                        }
                        assert forall|i: int| 0 <= i < fs.len() - 1 implies fs[i] == ofs[i] by {}
                        Self::lemma_frame_slots(fs, ofs);
                    }
                    Ok(None)
                },
                Token::Punctuator(_) => Ok(self.pop()),
                Token::String { .. } => Err(
                    self.syntax_error(
                        SyntaxError::SyntaxError("Unexpected string value in property name"),
                    ),
                ),
                _ => Ok(None),
            },
            ParseState::AfterPropertyName => match token {
                Token::Eof => {
                    if self.end_of_input {
                        Err(self.invalid_eof())
                    } else {
                        Ok(None)
                    }
                },
                _ => {
                    self.parse_state = ParseState::BeforePropertyValue;
                    Ok(None)
                },
            },
            ParseState::BeforePropertyValue => match token {
                Token::Eof => Ok(None),
                _ => self.push(token),
            },
            ParseState::BeforeArrayValue => match token {
                Token::Eof => Ok(None),
                Token::Punctuator(b) => {
                    if b == CLOSE_BRACKET {
                        Ok(self.pop())
                    } else {
                        self.push(token)
                    }
                },
                _ => self.push(token),
            },
            ParseState::AfterPropertyValue => match token {
                Token::Eof => {
                    if self.end_of_input {
                        Err(self.invalid_eof())
                    } else {
                        Ok(None)
                    }
                },
                Token::Punctuator(b) => {
                    if b == COMMA {
                        let ghost ofs = self.frames.frames();
                        match self.frames.last_mut() {
                            Some(f) => {
                                *f = Frame::Object { pending_key: None };
                            },
                            None => {},
                        }
                        self.parse_state = ParseState::BeforePropertyName;
                        proof {
                            let fs = self.frames.frames();
                            assert forall|i: int|
                                0 <= i < fs.len() && #[trigger] fs[i] is Array
                                implies fs[i]->next_index <= self.pos by {
                                assert(fs[i] == ofs[i]);
                            }
                            assert forall|i: int| 0 <= i < fs.len() implies (#[trigger] fs[i] is Array)
                                == (ofs[i] is Array) by {
                                if i < fs.len() - 1 {
                                    assert(fs[i] == ofs[i]);
                                }
                            }
                            assert forall|i: int| 0 <= i < fs.len() - 1 implies fs[i] == ofs[i] by {}
                        Self::lemma_frame_slots(fs, ofs);
                        }
                        Ok(None)
                    } else if b == CLOSE_BRACE {
                        Ok(self.pop())
                    } else {
                        Ok(None)
                    }
                },
                _ => Ok(None),
            },
            ParseState::AfterArrayValue => match token {
                Token::Eof => {
                    if self.end_of_input {
                        Err(self.invalid_eof())
                    } else {
                        Ok(None)
                    }
                },
                Token::Punctuator(b) => {
                    if b == COMMA {
                        let ghost ofs = self.frames.frames();
                        let ghost n = ofs.len();
                        assert(ofs[n - 1] is Array);
                        match self.frames.last_mut() {
                            Some(f) => {
                                let index = match f {
                                    Frame::Array { next_index } => *next_index,
                                    Frame::Object { .. } => 0,
                                };
                                *f = Frame::Array { next_index: index + 1 };
                            },
                            None => {},
                        }
                        self.parse_state = ParseState::BeforeArrayValue;
                        proof {
                            let fs = self.frames.frames();
                            assert forall|i: int|
                                0 <= i < fs.len() && #[trigger] fs[i] is Array
                                implies fs[i]->next_index <= self.pos by {
                                if i < n - 1 {
                                    assert(fs[i] == ofs[i]);
                                }
                            }
                            assert forall|i: int| 0 <= i < fs.len() implies (#[trigger] fs[i] is Array)
                                == (ofs[i] is Array) by {
                                if i < n - 1 {
                                    assert(fs[i] == ofs[i]);
                                }
                            }
                            assert forall|i: int| 0 <= i < fs.len() - 1 implies fs[i] == ofs[i] by {}
                        Self::lemma_frame_slots(fs, ofs);
                        }
                        Ok(None)
                    } else if b == CLOSE_BRACKET {
                        Ok(self.pop())
                    } else {
                        Ok(None)
                    }
                },
                _ => Ok(None),
            },
            ParseState::End => Ok(None),
            ParseState::Error => Ok(None),
        }
    }

    /// Drives the lexer and the grammar until an event is ready, more input
    /// is needed, the input has ended, or an error occurs.
    fn next_event_internal(&mut self) -> (r: Option<Result<ParseEvent, ParserError>>)
        requires
            old(self).wf(),
            !old(self).is_errored(),
        ensures
            r is None && final(self).end_of_input ==> is_complete_input(
                final(self).consumed@,
                final(self).allow_unicode_whitespace,
                final(self).multiple_values,
            ),
            r matches Some(Err(_)) ==> final(self).error_due(),
            final(self).wf_base(),
            !(r matches Some(Err(_))) ==> final(self).wf(),
            !final(self).is_errored(),
            final(self).fed() == old(self).fed(),
            final(self).pos >= old(self).pos,
            final(self).end_of_input == old(self).end_of_input,
            final(self).options() == old(self).options(),
            r matches Some(Ok(ParseEvent::Number { value, .. })) ==> is_number_lexeme(value@),
            old(self).non_scalar_values == NonScalarValueMode::Roots ==> (r matches Some(Ok(e))
                ==> is_root_event(e)),
            old(self).non_scalar_values == NonScalarValueMode::Roots ==> (r is None ==> final(
                self).values_done@ == old(self).values_done@ || final(self).frames.frames().len()
                > 0),
            old(self).non_scalar_values == NonScalarValueMode::Roots ==> (r matches Some(Ok(e))
                && !(e is ObjectEnd || e is ArrayEnd) ==> final(self).values_done@ == old(
                self).values_done@ + if announces_value(r) {
                1int
            } else {
                0int
            }),
            old(self).non_scalar_values == NonScalarValueMode::Roots ==> {
                &&& r matches Some(Ok(ParseEvent::String { is_initial, is_final, .. }))
                    ==> is_initial == !old(self).string_open && final(self).string_open == !is_final
                &&& r matches Some(Ok(ParseEvent::String { fragment, is_initial, .. }))
                    ==> final(self).string_text@ == (if is_initial {
                    Seq::<char>::empty()
                } else {
                    old(self).string_text@
                }) + fragment@
                &&& (r matches Some(Ok(ParseEvent::String { is_final, .. })) && is_final
                    ==> final(self).last_text@ == final(self).string_text@ && ends_with(
                    final(self).consumed@,
                    quote() + final(self).last_body@ + quote(),
                ))
            },
            r matches Some(Err(e)) ==> e.line == line_of(final(self).consumed@) && (e.column
                == column_of(final(self).consumed@) || (e.source == ErrorSource::SyntaxError(
                SyntaxError::UnexpectedEndOfInput) && e.column == column_of(final(self).consumed@)
                + 1)),
            r is None ==> final(self).source@.len() == 0,
            r matches Some(Ok(ParseEvent::Number { value, .. })) ==> ends_with(
                final(self).consumed@,
                value@,
            ),
            r matches Some(Ok(ParseEvent::Null { .. })) ==> ends_with(
                final(self).consumed@,
                literal_text(Literal::Null),
            ),
            r matches Some(Ok(ParseEvent::Boolean { value, .. })) ==> ends_with(
                final(self).consumed@,
                literal_text(if value {
                    Literal::True
                } else {
                    Literal::False
                }),
            ),
            r matches Some(Ok(e)) && !(e is String) ==> !final(self).string_open,
            r matches Some(Ok(ParseEvent::ObjectBegin { .. })) ==> ends_with_char(
                final(self).consumed@,
                '{',
            ),
            r matches Some(Ok(ParseEvent::ArrayStart { .. })) ==> ends_with_char(
                final(self).consumed@,
                '[',
            ),
            r matches Some(Ok(ParseEvent::ObjectEnd { .. })) ==> ends_with_char(
                final(self).consumed@,
                '}',
            ),
            r matches Some(Ok(ParseEvent::ArrayEnd { .. })) ==> ends_with_char(
                final(self).consumed@,
                ']',
            ),
            r matches Some(Ok(ParseEvent::Number { value, .. })) ==> value@ == number_token(
                final(self).consumed@,
                final(self).allow_unicode_whitespace,
                final(self).multiple_values,
            ),
            old(self).non_scalar_values != NonScalarValueMode::Roots ==> {
                &&& r matches Some(Ok(ParseEvent::String { is_initial, is_final, .. }))
                    ==> is_initial == !old(self).string_open && final(self).string_open == !is_final
                &&& old(self).string_open ==> (r matches Some(Ok(e)) ==> e is String && path_view(
                    event_path(e),
                ) == value_path(old(self).frames))
                &&& r is None ==> final(self).string_open == old(self).string_open
                &&& r is None && old(self).string_open ==> final(self).string_text@ == old(
                    self).string_text@
                &&& r matches Some(Ok(ParseEvent::String { is_final, .. })) ==> (!is_final
                    ==> final(self).source@.len() == 0)
                &&& final(self).values_done@ == old(self).values_done@ + if announces_value(r) {
                    1int
                } else {
                    0int
                }
                &&& r matches Some(Ok(e)) ==> (!(e is ObjectBegin || e is ArrayStart) ==> path_view(
                    event_path(e),
                ) == value_path(final(self).frames))
                &&& r matches Some(Ok(e)) ==> (!(e is ObjectBegin || e is ArrayStart
                    || e is ObjectEnd || e is ArrayEnd) ==> at_slot(
                    final(self).frames,
                    path_view(event_path(e)),
                ))
                &&& r matches Some(Ok(e)) ==> ((e is ObjectBegin || e is ArrayStart) ==> path_view(
                    event_path(e),
                ) == final(self).frames.components())
                &&& r matches Some(Ok(e)) ==> ((e is ObjectEnd || e is ArrayEnd) ==> path_view(
                    event_path(e),
                ) == old(self).frames.components())
                &&& (r matches Some(Ok(e)) && (e is ObjectBegin || e is ArrayStart) ==> final(
                    self).frames.frames().len() == old(self).frames.frames().len() + 1)
                &&& (r matches Some(Ok(e)) && (e is ObjectEnd || e is ArrayEnd) ==> final(
                    self).frames.frames().len() + 1 == old(self).frames.frames().len())
                &&& (r is None || (r matches Some(Ok(e)) && !(e is ObjectBegin || e is ArrayStart
                    || e is ObjectEnd || e is ArrayEnd)) ==> final(self).frames.frames().len()
                    == old(self).frames.frames().len())
                &&& (r matches Some(Ok(e)) && (e is ObjectBegin || e is ArrayStart || e is ObjectEnd
                    || e is ArrayEnd) ==> final(self).containers@ == old(self).containers@ + 1)
                &&& (r is None || (r matches Some(Ok(e)) && !(e is ObjectBegin || e is ArrayStart
                    || e is ObjectEnd || e is ArrayEnd)) ==> final(self).containers@ == old(
                    self).containers@)
                &&& r matches Some(Ok(ParseEvent::String { fragment, is_initial, .. }))
                    ==> final(self).string_text@ == (if is_initial {
                    Seq::<char>::empty()
                } else {
                    old(self).string_text@
                }) + fragment@
                &&& (r matches Some(Ok(ParseEvent::String { is_final, .. })) && is_final
                    ==> final(self).last_text@ == final(self).string_text@ && ends_with(
                    final(self).consumed@,
                    quote() + final(self).last_body@ + quote(),
                ))
            },
    {
        loop
            invariant
                self.wf(),
                !self.is_errored(),
                self.fed() == old(self).fed(),
                self.pos >= old(self).pos,
                self.end_of_input == old(self).end_of_input,
                self.options() == old(self).options(),
                self.non_scalar_values == old(self).non_scalar_values,
                self.values_done@ >= old(self).values_done@,
                self.non_scalar_values == NonScalarValueMode::Roots ==> (self.values_done@ > old(
                    self).values_done@ ==> self.frames.frames().len() > 0),
                self.non_scalar_values == NonScalarValueMode::Roots ==> (self.string_open
                    && self.frames.frames().len() == 0 ==> old(self).string_open
                    && self.string_text@ == old(self).string_text@),
                self.non_scalar_values == NonScalarValueMode::Roots ==> (old(self).string_open
                    && !self.string_open ==> self.values_done@ > old(self).values_done@),
                self.non_scalar_values != NonScalarValueMode::Roots ==> {
                    &&& self.string_open == old(self).string_open
                    &&& old(self).string_open ==> self.frames == old(self).frames
                        && self.parse_state == old(self).parse_state
                    &&& old(self).string_open ==> self.string_text@ == old(self).string_text@
                    &&& self.frames.frames().len() == old(self).frames.frames().len()
                    &&& self.frames.components() == old(self).frames.components()
                    &&& self.values_done == old(self).values_done
                    &&& self.containers@ == old(self).containers@
                },
            ensures
                self.source@.len() == 0,
                self.end_of_input ==> is_complete_input(
                    self.consumed@,
                    self.allow_unicode_whitespace,
                    self.multiple_values,
                ),
            decreases 2 * self.source@.len() + if self.partial_lex {
                1int
            } else {
                0int
            },
        {
            if self.multiple_values && self.parse_state == ParseState::End {
                let ghost pre = *self;
                self.lex_state = LexState::Default;
                self.parse_state = ParseState::Start;
                proof {
                    assert(pre.frames.frames().len() == 0);
                    pre.frames.lemma_empty_components();
                }
                self.frames.clear();
                proof {
                    assert(self.frames.frames().map_values(|f: Frame| frame_slot(f)) =~= pre.frames.frames().map_values(
                        |f: Frame| frame_slot(f),
                    ));
                    assert(self.reading() == pre.reading());
                }
            }
            let ghost before = *self;
            let token = match self.lex() {
                Ok(t) => t,
                Err(e) => {
                    return Some(Err(e));
                },
            };
            let is_eof = match token {
                Token::Eof => true,
                _ => false,
            };
            proof {
                if token is Punctuator {
                    let fs = self.frames.frames();
                    assert forall|i: int| 0 <= i < fs.len() && #[trigger] fs[i] is Array implies fs[i]->next_index
                        < self.pos by {
                        assert(fs[i] == before.frames.frames()[i]);
                    }
                }
            }
            let ghost mid = *self;
            let ghost tk = token;
            let res = self.dispatch_parse_state(token);
            proof {
                if res is Ok {
                    if self.in_literal@ && !self.string_open {
                        assert(tk is Eof);
                        assert(mid.string_open == before.string_open);
                    }
                }
                if self.non_scalar_values != NonScalarValueMode::Roots && old(self).string_open
                    && res is Ok {
                    assert(before.in_literal@);
                }
                if before.string_open && res is Ok {
                    assert(before.in_literal@);
                }
                if res matches Ok(Some(ParseEvent::String { .. })) {
                    assert(tk is String);
                    if before.in_literal@ && !before.string_open {
                        assert(before.string_text@ == Seq::<char>::empty());
                    }
                    if before.string_open {
                        assert(before.in_literal@);
                    }
                }
            }
            match res {
                Ok(Some(ev)) => {
                    if self.non_scalar_values == NonScalarValueMode::Roots {
                        proof {
                            self.frames.lemma_components_are_slots();
                            self.frames.lemma_empty_components();
                            mid.frames.lemma_components_are_slots();
                            mid.frames.lemma_empty_components();
                            assert(path_view(event_path(ev)).len() == event_path(ev).len());
                        }
                        if ev.path().len() == 0 {
                            proof {
                                if !(ev is ObjectBegin || ev is ArrayStart || ev is ObjectEnd
                                    || ev is ArrayEnd) {
                                    assert(self.frames.frames().len() == 0);
                                    assert(mid.frames.frames().len() == 0);
                                    assert(mid.values_done@ == old(self).values_done@);
                                }
                                if ev is ObjectBegin || ev is ArrayStart {
                                    assert(self.frames.frames().len() == 1);
                                    assert(mid.frames.frames().len() == 0);
                                    assert(mid.values_done@ == old(self).values_done@);
                                }
                            }
                            return Some(Ok(ev));
                        }
                        proof {
                            if !(ev is ObjectEnd || ev is ArrayEnd) {
                                assert(self.frames.frames().len() > 0);
                            } else {
                                assert(mid.frames.frames().len() >= 2);
                            }
                        }
                    } else {
                        return Some(Ok(ev));
                    }
                },
                Ok(None) => {},
                Err(e) => {
                    return Some(Err(e));
                },
            }
            if is_eof || self.partial_lex {
                proof {
                    if self.non_scalar_values != NonScalarValueMode::Roots && old(self).string_open {
                        assert(tk is Eof);
                    }
                }
                assert(self.source@.len() == 0);
                break ;
            }
            assert(self.fed().len() == self.pos + self.source@.len());
            assert(before.fed().len() == before.pos + before.source@.len());
        }
        None
    }

    /// The text read leads a reader to the parser's open containers and
    /// slots, and to the values it completed (a number that the next
    /// character completes is counted once the parser has completed it).
    proof fn lemma_text_path(&self)
        requires
            self.wf(),
            !self.is_errored(),
        ensures
            text_path(self.consumed@, self.allow_unicode_whitespace, self.multiple_values)
                == value_path(self.frames),
            self.frames.frames().len() > 0 ==> value_path(self.frames).drop_last()
                == self.frames.components(),
            read_text(self.consumed@, self.allow_unicode_whitespace, self.multiple_values) matches Some(
                g,
            ) && (self.values_done@ == g.done || (self.values_done@ == g.done + 1 && number_ended(
                g,
                self.source@,
                self.end_of_input,
            ))),
    {
        let g = read_text(self.consumed@, self.allow_unicode_whitespace, self.multiple_values).unwrap();
        let fs = self.frames.frames();
        assert(g.frames == self.reading().frames);
        self.frames.lemma_components_are_slots();
        let vp = value_path(self.frames);
        assert(vp =~= fs.map_values(|f: Frame| slot_of(f)));
        assert(g.frames.map_values(|sl: Slot| slot_item(sl)) =~= vp);
        if fs.len() > 0 {
            assert(vp.drop_last() =~= fs.drop_last().map_values(|f: Frame| slot_of(f)));
        }
    }

    /// The next event; `None` when more input is needed or the input is
    /// exhausted. After an error is returned, every later call returns
    /// `None`.
    ///
    /// Unless only root events are kept, the fragments of a string value
    /// come one after the other at the path of the value: the first has
    /// `is_initial` set, and the string is in progress until one has
    /// `is_final` set. The fragments of a string value together are the
    /// text its literal stands for, and each bracket outside string literals
    /// is announced by exactly one container event. Each value the text
    /// completes (a scalar, or a string at its closing quote) is announced by
    /// exactly one event; a fragment that does not end its string comes only
    /// when all the text fed has been read. Every event carries the path
    /// that the text read leads to, member names decoded, and a number
    /// carries the whole number as written.
    ///
    /// When only root events are kept, no value completes at the root
    /// without its event: a call that returns nothing leaves the count of
    /// completed values unchanged unless a container is still open, a call
    /// that returns a value, a begin event or a string fragment completes
    /// no other value before it, and the fragments of a root string follow
    /// one another as above and together are the text its literal stands
    /// for.
    ///
    /// The text read is always the beginning of an accepted document; an
    /// error is reported only when the text fed is not, or when the input
    /// ended on an incomplete document, and a `None` after the end of the
    /// input means the document was complete.
    pub fn next(&mut self) -> (r: Option<Result<ParseEvent, ParserError>>)
        requires
            old(self).wf(),
        ensures
            !old(self).is_errored() && r is None && final(self).input_ended() ==> is_complete_input(
                final(self).fed(),
                final(self).options().0,
                final(self).options().1,
            ),
            !final(self).is_errored() ==> is_viable(
                final(self).consumed(),
                final(self).options().0,
                final(self).options().1,
            ),
            r matches Some(Err(_)) ==> !is_viable(
                final(self).fed(),
                final(self).options().0,
                final(self).options().1,
            ) || (final(self).input_ended() && !is_complete_input(
                final(self).fed(),
                final(self).options().0,
                final(self).options().1,
            )),
            !final(self).is_errored() ==> final(self).depth() == nesting_depth(
                final(self).consumed(),
            ),
            !final(self).is_errored() ==> (read_text(
                final(self).consumed(),
                final(self).options().0,
                final(self).options().1,
            ) matches Some(g) && (final(self).values_announced() == g.done || (
            final(self).values_announced() == g.done + 1 && number_ended(
                g,
                final(self).fed().skip(final(self).consumed().len() as int),
                final(self).input_ended(),
            )))),
            final(self).wf(),
            final(self).fed() == old(self).fed(),
            final(self).consumed().len() >= old(self).consumed().len(),
            final(self).input_ended() == old(self).input_ended(),
            final(self).options() == old(self).options(),
            old(self).is_errored() ==> r is None && *final(self) == *old(self),
            r matches Some(Err(_)) ==> final(self).is_errored(),
            !(r matches Some(Err(_))) ==> final(self).is_errored() == old(self).is_errored(),
            r matches Some(Ok(ParseEvent::Number { value, .. })) ==> is_number_lexeme(value@),
            old(self).options().2 == NonScalarValueMode::Roots ==> (r matches Some(Ok(e))
                ==> is_root_event(e)),
            r matches Some(Err(e)) ==> e.line == line_of(final(self).consumed()) && (e.column
                == column_of(final(self).consumed()) || (e.source == ErrorSource::SyntaxError(
                SyntaxError::UnexpectedEndOfInput) && e.column == column_of(final(self).consumed())
                + 1)),
            !old(self).is_errored() && r is None ==> final(self).consumed() == final(self).fed(),
            r matches Some(Ok(ParseEvent::Number { value, .. })) ==> ends_with(
                final(self).consumed(),
                value@,
            ),
            r matches Some(Ok(ParseEvent::Null { .. })) ==> ends_with(
                final(self).consumed(),
                literal_text(Literal::Null),
            ),
            r matches Some(Ok(ParseEvent::Boolean { value, .. })) ==> ends_with(
                final(self).consumed(),
                literal_text(if value {
                    Literal::True
                } else {
                    Literal::False
                }),
            ),
            r matches Some(Ok(e)) && !(e is String) ==> !final(self).string_in_progress(),
            r matches Some(Err(_)) ==> !final(self).string_in_progress(),
            r matches Some(Ok(ParseEvent::ObjectBegin { .. })) ==> ends_with_char(
                final(self).consumed(),
                '{',
            ),
            r matches Some(Ok(ParseEvent::ArrayStart { .. })) ==> ends_with_char(
                final(self).consumed(),
                '[',
            ),
            r matches Some(Ok(ParseEvent::ObjectEnd { .. })) ==> ends_with_char(
                final(self).consumed(),
                '}',
            ),
            r matches Some(Ok(ParseEvent::ArrayEnd { .. })) ==> ends_with_char(
                final(self).consumed(),
                ']',
            ),
            r matches Some(Ok(ParseEvent::Number { value, .. })) ==> value@ == number_token(
                final(self).consumed(),
                final(self).options().0,
                final(self).options().1,
            ),
            old(self).options().2 == NonScalarValueMode::Roots ==> {
                &&& r is None ==> final(self).values_announced() == old(self).values_announced()
                    || final(self).depth() > 0
                &&& r matches Some(Ok(e)) ==> (!(e is ObjectEnd || e is ArrayEnd) ==> final(
                    self).values_announced() == old(self).values_announced() + if announces_value(
                    r,
                ) {
                    1int
                } else {
                    0int
                })
                &&& r matches Some(Ok(ParseEvent::String { is_initial, is_final, .. }))
                    ==> is_initial == !old(self).string_in_progress() && final(
                    self).string_in_progress() == !is_final
                &&& r matches Some(Ok(ParseEvent::String { fragment, is_initial, .. }))
                    ==> final(self).string_so_far() == (if is_initial {
                    Seq::<char>::empty()
                } else {
                    old(self).string_so_far()
                }) + fragment@
                &&& (r matches Some(Ok(ParseEvent::String { is_final, .. })) && is_final
                    ==> final(self).last_string_text() == final(self).string_so_far()
                    && decode_string_body(final(self).last_string_body()) == Some(
                    final(self).last_string_text(),
                ) && ends_with(
                    final(self).consumed(),
                    quote() + final(self).last_string_body() + quote(),
                ))
            },
            old(self).options().2 != NonScalarValueMode::Roots ==> {
                &&& r matches Some(Ok(ParseEvent::String { is_initial, is_final, .. }))
                    ==> is_initial == !old(self).string_in_progress() && final(
                    self).string_in_progress() == !is_final
                &&& old(self).string_in_progress() ==> (r matches Some(Ok(e)) ==> e is String
                    && path_view(event_path(e)) == old(self).current_value_path())
                &&& r matches Some(Ok(ParseEvent::String { is_final, .. })) ==> (!is_final
                    ==> final(self).consumed() == final(self).fed())
                &&& final(self).values_announced() == old(self).values_announced() + if announces_value(
                    r,
                ) {
                    1int
                } else {
                    0int
                }
                &&& r matches Some(Ok(e)) ==> (!(e is ObjectBegin || e is ArrayStart) ==> path_view(
                    event_path(e),
                ) == text_path(final(self).consumed(), final(self).options().0, final(self).options().1))
                &&& r matches Some(Ok(e)) ==> ((e is ObjectBegin || e is ArrayStart) ==> path_view(
                    event_path(e),
                ) == text_path(
                    final(self).consumed(),
                    final(self).options().0,
                    final(self).options().1,
                ).drop_last())
                &&& r matches Some(Ok(e)) ==> (!(e is ObjectBegin || e is ArrayStart
                    || e is ObjectEnd || e is ArrayEnd) ==> final(self).at_current_slot(
                    path_view(event_path(e)),
                ))
                &&& r matches Some(Ok(e)) ==> ((e is ObjectBegin || e is ArrayStart) ==> path_view(
                    event_path(e),
                ) == final(self).container_path())
                &&& r matches Some(Ok(e)) ==> ((e is ObjectEnd || e is ArrayEnd) ==> path_view(
                    event_path(e),
                ) == old(self).container_path())
                &&& r is None ==> final(self).string_in_progress() == old(
                    self).string_in_progress()
                &&& r is None && old(self).string_in_progress() ==> final(self).string_so_far()
                    == old(self).string_so_far()
                &&& (r matches Some(Ok(e)) && (e is ObjectBegin || e is ArrayStart) ==> final(
                    self).depth() == old(self).depth() + 1)
                &&& (r matches Some(Ok(e)) && (e is ObjectEnd || e is ArrayEnd) ==> final(
                    self).depth() + 1 == old(self).depth())
                &&& (r is None || (r matches Some(Ok(e)) && !(e is ObjectBegin || e is ArrayStart
                    || e is ObjectEnd || e is ArrayEnd)) ==> final(self).depth() == old(
                    self).depth())
                &&& (r matches Some(Ok(e)) && (e is ObjectBegin || e is ArrayStart || e is ObjectEnd
                    || e is ArrayEnd) ==> brackets_seen(final(self).consumed()) == brackets_seen(
                    old(self).consumed(),
                ) + 1)
                &&& (r is None || (r matches Some(Ok(e)) && !(e is ObjectBegin || e is ArrayStart
                    || e is ObjectEnd || e is ArrayEnd)) ==> brackets_seen(final(self).consumed())
                    == brackets_seen(old(self).consumed()))
                &&& r matches Some(Ok(ParseEvent::String { fragment, is_initial, .. }))
                    ==> final(self).string_so_far() == (if is_initial {
                    Seq::<char>::empty()
                } else {
                    old(self).string_so_far()
                }) + fragment@
                &&& (r matches Some(Ok(ParseEvent::String { is_final, .. })) && is_final
                    ==> final(self).last_string_text() == final(self).string_so_far()
                    && decode_string_body(final(self).last_string_body()) == Some(
                    final(self).last_string_text(),
                ) && ends_with(
                    final(self).consumed(),
                    quote() + final(self).last_string_body() + quote(),
                ))
            },
    {
        if self.parse_state == ParseState::Error {
            return None;
        }
        let r = match self.next_event_internal() {
            None => None,
            Some(Ok(event)) => Some(Ok(event)),
            Some(Err(err)) => {
                proof {
                    self.lemma_error_due_input();
                }
                self.parse_state = ParseState::Error;
                self.lex_state = LexState::Error;
                self.string_open = false;
                Some(Err(err))
            },
        };
        proof {
            if !self.is_errored() {
                self.lemma_text_path();
                assert(self.fed().skip(self.consumed@.len() as int) =~= self.source@);
            }
        }
        r
    }

    /// In a digit-loop number state: reads the run of digits that follows.
    fn copy_digits_after_push(&mut self) -> (n: usize)
        requires
            old(self).wf_nest(),
            old(self).wf_core(),
            old(self).lex_state == LexState::DecimalInteger || old(self).lex_state
                == LexState::DecimalFraction || old(self).lex_state
                == LexState::DecimalExponentInteger,
        ensures
            old(self).wf_grammar() && !old(self).is_errored() ==> final(self).wf_grammar(),
            final(self).wf_nest(),
            final(self).same_literal_ghosts(old(self)),
            final(self).wf_core(),
            final(self).same_grammar_state(old(self)),
            final(self).fed() == old(self).fed(),
            final(self).pos >= old(self).pos,
            final(self).lex_state == old(self).lex_state,
            n <= old(self).source@.len(),
            final(self).pos == old(self).pos + n,
            final(self).consumed@ == old(self).consumed@ + old(self).source@.take(n as int),
            final(self).source@ == old(self).source@.skip(n as int),
            final(self).buffer@ == old(self).buffer@ + old(self).source@.take(n as int),
            forall|i: int| 0 <= i < n ==> is_digit(#[trigger] old(self).source@[i]),
            n < old(self).source@.len() ==> !is_digit(old(self).source@[n as int]),
    {
        let ghost before = self.buffer@;
        let ghost src = self.source@;
        let ghost cons_before = self.consumed@;
        let ghost g1 = self.reading();
        let n = self.copy_run(CopyClass::Digits);
        proof {
            let ds = src.take(n as int);
            assert forall|i: int| 0 <= i < ds.len() implies is_digit(ds[i]) by {
                assert(ds[i] == src[i]);
                assert(class_accepts(CopyClass::Digits, src[i]));
            }
            lemma_num_run_digits(before, ds);
            lemma_ends_with_append(cons_before, before, ds);
            assert forall|i: int|
                0 <= i < self.frames.frames().len() && #[trigger] self.frames.frames()[i] is Array
                implies self.frames.frames()[i]->next_index <= self.pos by {}
            if old(self).wf_grammar() && !old(self).is_errored() {
                assert forall|i: int| 0 <= i < ds.len() implies read_step(
                    g1,
                    #[trigger] ds[i],
                    self.allow_unicode_whitespace,
                    self.multiple_values,
                ) == Some(g1) by {
                    assert(ds[i] == src[i]);
                    assert(class_accepts(CopyClass::Digits, src[i]));
                }
                lemma_read_stays(
                    cons_before,
                    ds,
                    g1,
                    self.allow_unicode_whitespace,
                    self.multiple_values,
                );
                assert forall|i: int| 0 <= i < ds.len() implies num_step(
                    g1.scan->Number_0,
                    #[trigger] ds[i],
                ) == g1.scan->Number_0 by {
                    assert(ds[i] == src[i]);
                    assert(class_accepts(CopyClass::Digits, src[i]));
                }
                lemma_number_token_run(
                    cons_before,
                    ds,
                    g1,
                    self.allow_unicode_whitespace,
                    self.multiple_values,
                );
            }
        }
        n
    }
}

impl ClosedStreamingParser {
    /// The parser inside.
    pub closed spec fn parser(&self) -> StreamingParser {
        self.parser
    }

    /// The parser inside.
    pub(crate) fn into_parser(self) -> (p: StreamingParser)
        ensures
            p == self.parser(),
    {
        self.parser
    }

    /// The next event, until the input is exhausted or an error has been
    /// returned.
    pub fn next(&mut self) -> (r: Option<Result<ParseEvent, ParserError>>)
        requires
            old(self).parser().wf(),
        ensures
            !old(self).parser().is_errored() && r is None && final(self).parser().input_ended()
                ==> is_complete_input(
                final(self).parser().fed(),
                final(self).parser().options().0,
                final(self).parser().options().1,
            ),
            !final(self).parser().is_errored() ==> is_viable(
                final(self).parser().consumed(),
                final(self).parser().options().0,
                final(self).parser().options().1,
            ),
            r matches Some(Err(_)) ==> !is_viable(
                final(self).parser().fed(),
                final(self).parser().options().0,
                final(self).parser().options().1,
            ) || (final(self).parser().input_ended() && !is_complete_input(
                final(self).parser().fed(),
                final(self).parser().options().0,
                final(self).parser().options().1,
            )),
            final(self).parser().wf(),
            !final(self).parser().is_errored() ==> (read_text(
                final(self).parser().consumed(),
                final(self).parser().options().0,
                final(self).parser().options().1,
            ) matches Some(g) && (final(self).parser().values_announced() == g.done || (final(self).parser().values_announced() == g.done + 1 && number_ended(
                g,
                final(self).parser().fed().skip(final(self).parser().consumed().len() as int),
                final(self).parser().input_ended(),
            )))),
            final(self).parser().input_ended() == old(self).parser().input_ended(),
            final(self).parser().fed() == old(self).parser().fed(),
            final(self).parser().options() == old(self).parser().options(),
            old(self).parser().is_errored() ==> r is None,
            r matches Some(Err(_)) ==> final(self).parser().is_errored(),
            !(r matches Some(Err(_))) ==> final(self).parser().is_errored() == old(self).parser().is_errored(),
            r matches Some(Err(_)) ==> !final(self).parser().string_in_progress(),
            r matches Some(Ok(e)) && !(e is String) ==> !final(self).parser().string_in_progress(),
            r matches Some(Ok(ParseEvent::Number { value, .. })) ==> ends_with(
                final(self).parser().consumed(),
                value@,
            ),
            r matches Some(Ok(ParseEvent::Null { .. })) ==> ends_with(
                final(self).parser().consumed(),
                literal_text(Literal::Null),
            ),
            r matches Some(Ok(ParseEvent::Boolean { value, .. })) ==> ends_with(
                final(self).parser().consumed(),
                literal_text(if value {
                    Literal::True
                } else {
                    Literal::False
                }),
            ),
            r matches Some(Ok(ParseEvent::ObjectBegin { .. })) ==> ends_with_char(
                final(self).parser().consumed(),
                '{',
            ),
            r matches Some(Ok(ParseEvent::ArrayStart { .. })) ==> ends_with_char(
                final(self).parser().consumed(),
                '[',
            ),
            r matches Some(Ok(ParseEvent::ObjectEnd { .. })) ==> ends_with_char(
                final(self).parser().consumed(),
                '}',
            ),
            r matches Some(Ok(ParseEvent::ArrayEnd { .. })) ==> ends_with_char(
                final(self).parser().consumed(),
                ']',
            ),
            r matches Some(Ok(ParseEvent::Number { value, .. })) ==> is_number_lexeme(value@),
            old(self).parser().options().2 == NonScalarValueMode::Roots ==> (r matches Some(
                Ok(e),
            ) ==> is_root_event(e)),
            r matches Some(Err(e)) ==> e.line == line_of(final(self).parser().consumed()) && (
            e.column == column_of(final(self).parser().consumed()) || (e.source
                == ErrorSource::SyntaxError(SyntaxError::UnexpectedEndOfInput) && e.column
                == column_of(final(self).parser().consumed()) + 1)),
            !old(self).parser().is_errored() && r is None ==> final(self).parser().consumed()
                == final(self).parser().fed(),
            r matches Some(Ok(ParseEvent::Number { value, .. })) ==> value@ == number_token(
                final(self).parser().consumed(),
                final(self).parser().options().0,
                final(self).parser().options().1,
            ),
            old(self).parser().options().2 == NonScalarValueMode::Roots ==> {
                &&& r is None ==> final(self).parser().values_announced() == old(self).parser().values_announced()
                    || final(self).parser().depth() > 0
                &&& r matches Some(Ok(e)) ==> (!(e is ObjectEnd || e is ArrayEnd) ==> final(
                    self).parser().values_announced() == old(self).parser().values_announced() + if announces_value(
                    r,
                ) {
                    1int
                } else {
                    0int
                })
                &&& r matches Some(Ok(ParseEvent::String { is_initial, is_final, .. }))
                    ==> is_initial == !old(self).parser().string_in_progress() && final(
                    self).parser().string_in_progress() == !is_final
                &&& r matches Some(Ok(ParseEvent::String { fragment, is_initial, .. }))
                    ==> final(self).parser().string_so_far() == (if is_initial {
                    Seq::<char>::empty()
                } else {
                    old(self).parser().string_so_far()
                }) + fragment@
                &&& (r matches Some(Ok(ParseEvent::String { is_final, .. })) && is_final
                    ==> final(self).parser().last_string_text() == final(self).parser().string_so_far()
                    && decode_string_body(final(self).parser().last_string_body()) == Some(
                    final(self).parser().last_string_text(),
                ) && ends_with(
                    final(self).parser().consumed(),
                    quote() + final(self).parser().last_string_body() + quote(),
                ))
            },
            old(self).parser().options().2 != NonScalarValueMode::Roots ==> {
                &&& r matches Some(Ok(ParseEvent::String { is_initial, is_final, .. }))
                    ==> is_initial == !old(self).parser().string_in_progress() && final(self).parser().string_in_progress() == !is_final
                &&& old(self).parser().string_in_progress() ==> (r matches Some(Ok(e)) ==> e is String
                    && path_view(event_path(e)) == old(self).parser().current_value_path())
                &&& r matches Some(Ok(ParseEvent::String { is_final, .. })) ==> (!is_final
                    ==> final(self).parser().consumed() == final(self).parser().fed())
                &&& final(self).parser().values_announced() == old(self).parser().values_announced()
                    + if announces_value(r) {
                    1int
                } else {
                    0int
                }
                &&& r matches Some(Ok(e)) ==> (!(e is ObjectBegin || e is ArrayStart) ==> path_view(
                    event_path(e),
                ) == text_path(
                    final(self).parser().consumed(),
                    final(self).parser().options().0,
                    final(self).parser().options().1,
                ))
                &&& r matches Some(Ok(e)) ==> ((e is ObjectBegin || e is ArrayStart) ==> path_view(
                    event_path(e),
                ) == text_path(
                    final(self).parser().consumed(),
                    final(self).parser().options().0,
                    final(self).parser().options().1,
                ).drop_last())
                &&& r matches Some(Ok(e)) ==> (!(e is ObjectBegin || e is ArrayStart
                    || e is ObjectEnd || e is ArrayEnd) ==> final(self).parser().at_current_slot(
                    path_view(event_path(e)),
                ))
                &&& r matches Some(Ok(e)) ==> ((e is ObjectBegin || e is ArrayStart) ==> path_view(
                    event_path(e),
                ) == final(self).parser().container_path())
                &&& r matches Some(Ok(e)) ==> ((e is ObjectEnd || e is ArrayEnd) ==> path_view(
                    event_path(e),
                ) == old(self).parser().container_path())
                &&& r is None ==> final(self).parser().string_in_progress() == old(
                    self).parser().string_in_progress()
                &&& r is None && old(self).parser().string_in_progress() ==> final(
                    self).parser().string_so_far() == old(self).parser().string_so_far()
                &&& (r matches Some(Ok(e)) && (e is ObjectBegin || e is ArrayStart) ==> final(
                    self).parser().depth() == old(self).parser().depth() + 1)
                &&& (r matches Some(Ok(e)) && (e is ObjectEnd || e is ArrayEnd) ==> final(
                    self).parser().depth() + 1 == old(self).parser().depth())
                &&& (r is None || (r matches Some(Ok(e)) && !(e is ObjectBegin || e is ArrayStart
                    || e is ObjectEnd || e is ArrayEnd)) ==> final(self).parser().depth() == old(
                    self).parser().depth())
                &&& (r matches Some(Ok(e)) && (e is ObjectBegin || e is ArrayStart || e is ObjectEnd
                    || e is ArrayEnd) ==> brackets_seen(final(self).parser().consumed())
                    == brackets_seen(old(self).parser().consumed()) + 1)
                &&& (r is None || (r matches Some(Ok(e)) && !(e is ObjectBegin || e is ArrayStart
                    || e is ObjectEnd || e is ArrayEnd)) ==> brackets_seen(
                    final(self).parser().consumed(),
                ) == brackets_seen(old(self).parser().consumed()))
                &&& r matches Some(Ok(ParseEvent::String { fragment, is_initial, .. }))
                    ==> final(self).parser().string_so_far() == (if is_initial {
                    Seq::<char>::empty()
                } else {
                    old(self).parser().string_so_far()
                }) + fragment@
                &&& (r matches Some(Ok(ParseEvent::String { is_final, .. })) && is_final
                    ==> final(self).parser().last_string_text() == final(self).parser().string_so_far() && decode_string_body(
                    final(self).parser().last_string_body(),
                ) == Some(final(self).parser().last_string_text()) && ends_with(
                    final(self).parser().consumed(),
                    quote() + final(self).parser().last_string_body() + quote(),
                ))
            },
    {
        self.parser.next()
    }
}

} // verus!

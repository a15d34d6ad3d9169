//! An adapter over the streaming parser that coalesces the fragments of
//! each string value and attaches the whole string (when it ends) or its
//! growing prefix (with every fragment), as the buffering options ask.
use vstd::prelude::*;
use crate::error::ParserError;
use crate::event::{ParseEvent, PathComponent, path_view, event_path};
use crate::lexical::is_number_lexeme;
use crate::options::{BufferOptions, NonScalarValueMode, ParserOptions, StringBufferMode};
use crate::grammar::{is_complete_input, is_viable, number_token, text_path};
use crate::lexical::{Literal, literal_text};
use crate::parser::{StreamingParser, ends_with, ends_with_char, quote};
use crate::string_decode::decode_string_body;
use crate::text::push_str;

verus! {

/// An event of the buffering adapter: a parse event, with string
/// fragments carrying the buffered value when the options ask for it.
#[derive(Debug, Clone, PartialEq)]
pub enum BufferedEvent {
    Null { path: Vec<PathComponent> },
    Boolean { path: Vec<PathComponent>, value: bool },
    Number { path: Vec<PathComponent>, value: String },
    String {
        path: Vec<PathComponent>,
        fragment: String,
        value: Option<String>,
        is_initial: bool,
        is_final: bool,
    },
    ArrayStart { path: Vec<PathComponent> },
    ArrayEnd { path: Vec<PathComponent> },
    ObjectBegin { path: Vec<PathComponent> },
    ObjectEnd { path: Vec<PathComponent> },
}

/// The value attached to a fragment whose string so far (fragments
/// included) is `so_far`.
pub open spec fn attached_value(mode: StringBufferMode, so_far: Seq<char>, is_final: bool) -> Option<
    Seq<char>,
> {
    match mode {
        StringBufferMode::Off => None,
        StringBufferMode::Values => if is_final {
            Some(so_far)
        } else {
            None
        },
        StringBufferMode::Prefixes => Some(so_far),
    }
}

/// The view of an optional string.
pub open spec fn opt_view(o: Option<String>) -> Option<Seq<char>> {
    match o {
        Some(s) => Some(s@),
        None => None,
    }
}

/// Whether `b` is `e` with the buffered value attached as the options
/// ask, `so_far` being the current string's text before `e`.
pub open spec fn buffered_from(
    mode: StringBufferMode,
    so_far: Seq<char>,
    e: ParseEvent,
    b: BufferedEvent,
) -> bool {
    match e {
        ParseEvent::String { path, fragment, is_initial, is_final } => {
            let text = if is_initial {
                fragment@
            } else {
                so_far + fragment@
            };
            b matches BufferedEvent::String { path: p, fragment: f, value, is_initial: i, is_final: fl }
                && p == path && f == fragment && i == is_initial && fl == is_final && opt_view(value)
                == attached_value(mode, text, is_final)
        },
        ParseEvent::Null { path } => b == BufferedEvent::Null { path },
        ParseEvent::Boolean { path, value } => b == BufferedEvent::Boolean { path, value },
        ParseEvent::Number { path, value } => b == BufferedEvent::Number { path, value },
        ParseEvent::ArrayStart { path } => b == BufferedEvent::ArrayStart { path },
        ParseEvent::ArrayEnd { path } => b == BufferedEvent::ArrayEnd { path },
        ParseEvent::ObjectBegin { path } => b == BufferedEvent::ObjectBegin { path },
        ParseEvent::ObjectEnd { path } => b == BufferedEvent::ObjectEnd { path },
    }
}

/// The path of a buffered event.
pub open spec fn buffered_path(b: BufferedEvent) -> Seq<PathComponent> {
    match b {
        BufferedEvent::Null { path } => path@,
        BufferedEvent::Boolean { path, .. } => path@,
        BufferedEvent::Number { path, .. } => path@,
        BufferedEvent::String { path, .. } => path@,
        BufferedEvent::ArrayStart { path } => path@,
        BufferedEvent::ArrayEnd { path } => path@,
        BufferedEvent::ObjectBegin { path } => path@,
        BufferedEvent::ObjectEnd { path } => path@,
    }
}

/// True for the events that open a container.
pub open spec fn opens_container(b: BufferedEvent) -> bool {
    b is ObjectBegin || b is ArrayStart
}

/// Whether a buffered event completes a value: a scalar, or the last
/// fragment of a string.
pub open spec fn buffered_completes(b: BufferedEvent) -> bool {
    ||| b is Null
    ||| b is Boolean
    ||| b is Number
    ||| (b matches BufferedEvent::String { is_final, .. } && is_final)
}

/// Whether a call of `next` gives an event that completes a value.
pub open spec fn announces(r: Option<Result<BufferedEvent, ParserError>>) -> bool {
    match r {
        Some(Ok(b)) => buffered_completes(b),
        _ => false,
    }
}

/// Where the events of a call of `next` stand, seen from the parser inside
/// before and after the call (when not only root events are kept): each
/// event's path is the path of the slot that the text read leads to (the
/// path of the container just opened for a container start), the fragments
/// of a string value in progress come at the path of that value, and the
/// count of completed values grows by one exactly with an event that
/// completes a value.
pub open spec fn placed(
    before: StreamingParser,
    after: StreamingParser,
    r: Option<Result<BufferedEvent, ParserError>>,
) -> bool {
    let tp = text_path(after.consumed(), after.options().0, after.options().1);
    &&& r matches Some(Ok(b)) ==> (!opens_container(b) ==> path_view(buffered_path(b)) == tp)
    &&& r matches Some(Ok(b)) ==> (opens_container(b) ==> path_view(buffered_path(b))
        == tp.drop_last())
    &&& before.string_in_progress() ==> (r matches Some(Ok(b)) ==> b is String && path_view(
        buffered_path(b),
    ) == before.current_value_path())
    &&& after.values_announced() == before.values_announced() + if announces(r) {
        1int
    } else {
        0int
    }
}

/// What a call of `next` owes, seen from the parser inside before and
/// after the call: no text is left unread without cause, the text read is
/// the beginning of an accepted document, an error comes only when the text
/// fed is not or the input ended on an incomplete one, a `None` at the end
/// of the input means the document was complete, and each event comes with
/// the text that produced it.
pub open spec fn next_owed(
    before: StreamingParser,
    after: StreamingParser,
    r: Option<Result<BufferedEvent, ParserError>>,
) -> bool {
    let uws = after.options().0;
    let m = after.options().1;
    &&& after.options() == before.options()
    &&& after.input_ended() == before.input_ended()
    &&& (!before.is_errored() && r is None ==> after.consumed() == after.fed())
    &&& (!after.is_errored() ==> is_viable(after.consumed(), uws, m))
    &&& (r matches Some(Err(_)) ==> !is_viable(after.fed(), uws, m) || (after.input_ended()
        && !is_complete_input(after.fed(), uws, m)))
    &&& (!before.is_errored() && r is None && after.input_ended() ==> is_complete_input(
        after.fed(),
        uws,
        m,
    ))
    &&& (r matches Some(Ok(BufferedEvent::Number { value, .. })) ==> ends_with(
        after.consumed(),
        value@,
    ) && value@ == number_token(after.consumed(), uws, m))
    &&& (r matches Some(Ok(BufferedEvent::String { is_final, .. })) ==> (!is_final ==> before.is_errored()
        || before.options().2 == NonScalarValueMode::Roots || after.consumed() == after.fed()))
    &&& (r matches Some(Ok(BufferedEvent::Null { .. })) ==> ends_with(
        after.consumed(),
        literal_text(Literal::Null),
    ))
    &&& (r matches Some(Ok(BufferedEvent::Boolean { value, .. })) ==> ends_with(
        after.consumed(),
        literal_text(if value {
            Literal::True
        } else {
            Literal::False
        }),
    ))
    &&& (r matches Some(Ok(BufferedEvent::ObjectBegin { .. })) ==> ends_with_char(
        after.consumed(),
        '{',
    ))
    &&& (r matches Some(Ok(BufferedEvent::ArrayStart { .. })) ==> ends_with_char(
        after.consumed(),
        '[',
    ))
    &&& (r matches Some(Ok(BufferedEvent::ObjectEnd { .. })) ==> ends_with_char(
        after.consumed(),
        '}',
    ))
    &&& (r matches Some(Ok(BufferedEvent::ArrayEnd { .. })) ==> ends_with_char(
        after.consumed(),
        ']',
    ))
}

/// The streaming parser with string buffering.
pub struct JsonModemBuffers {
    parser: StreamingParser,
    opts: BufferOptions,
    /// The text of the current string value so far.
    scratch: String,
}

/// The buffering adapter after the end of the input.
pub struct JsonModemBuffersClosed {
    inner: JsonModemBuffers,
}

impl JsonModemBuffers {
    /// Internal consistency.
    pub closed spec fn wf(&self) -> bool {
        &&& self.parser.wf()
        &&& self.parser.options().2 != NonScalarValueMode::Roots
            && self.parser.string_in_progress() ==> self.scratch@ == self.parser.string_so_far()
    }

    /// The text of the current string value so far.
    pub closed spec fn string_so_far(&self) -> Seq<char> {
        self.scratch@
    }

    /// The string buffering mode.
    pub closed spec fn mode(&self) -> StringBufferMode {
        self.opts.string_buffer_mode
    }

    /// The parser inside.
    pub closed spec fn parser(&self) -> StreamingParser {
        self.parser
    }

    /// A new adapter.
    pub fn new(options: ParserOptions, opts: BufferOptions) -> (r: Self)
        ensures
            !r.parser().input_ended(),
            r.wf(),
            r.mode() == opts.string_buffer_mode,
            r.string_so_far() == Seq::<char>::empty(),
            r.parser().fed() == Seq::<char>::empty(),
    {
        JsonModemBuffers { parser: StreamingParser::new(options), opts, scratch: String::new() }
    }

    /// Feeds a chunk of JSON text.
    pub fn feed(&mut self, chunk: &str)
        requires
            !old(self).parser().input_ended(),
            old(self).wf(),
            old(self).parser().fed().len() + chunk@.len() < usize::MAX - 1,
        ensures
            !final(self).parser().input_ended(),
            final(self).wf(),
            final(self).mode() == old(self).mode(),
            final(self).string_so_far() == old(self).string_so_far(),
            final(self).parser().fed() == old(self).parser().fed() + chunk@,
    {
        self.parser.feed(chunk);
    }

    /// Marks the end of the input.
    pub fn finish(self) -> (r: JsonModemBuffersClosed)
        requires
            self.wf(),
        ensures
            r.inner().wf(),
            r.inner().mode() == self.mode(),
            r.inner().string_so_far() == self.string_so_far(),
    {
        let JsonModemBuffers { parser, opts, scratch } = self;
        let closed = parser.finish();
        JsonModemBuffersClosed {
            inner: JsonModemBuffers { parser: closed.into_parser(), opts, scratch },
        }
    }

    /// Attaches the buffered value to an event.
    fn consume_event(&mut self, event: ParseEvent) -> (r: BufferedEvent)
        ensures
            buffered_from(old(self).mode(), old(self).string_so_far(), event, r),
            final(self).mode() == old(self).mode(),
            final(self).parser == old(self).parser,
            event matches ParseEvent::String { fragment, is_initial, .. } ==> final(self).string_so_far() == (if is_initial {
                fragment@
            } else {
                old(self).string_so_far() + fragment@
            }),
            !(event is String) ==> final(self).string_so_far() == old(self).string_so_far(),
    {
        match event {
            ParseEvent::String { path, fragment, is_initial, is_final } => {
                if is_initial {
                    self.scratch = String::new();
                }
                push_str(&mut self.scratch, fragment.as_str());
                proof {
                    if is_initial {
                        assert(self.scratch@ =~= fragment@);
                    }
                }
                let value = match self.opts.string_buffer_mode {
                    StringBufferMode::Off => None,
                    StringBufferMode::Values => if is_final {
                        Some(self.scratch.clone())
                    } else {
                        None
                    },
                    StringBufferMode::Prefixes => Some(self.scratch.clone()),
                };
                BufferedEvent::String { path, fragment, value, is_initial, is_final }
            },
            ParseEvent::Null { path } => BufferedEvent::Null { path },
            ParseEvent::Boolean { path, value } => BufferedEvent::Boolean { path, value },
            ParseEvent::Number { path, value } => BufferedEvent::Number { path, value },
            ParseEvent::ArrayStart { path } => BufferedEvent::ArrayStart { path },
            ParseEvent::ArrayEnd { path } => BufferedEvent::ArrayEnd { path },
            ParseEvent::ObjectBegin { path } => BufferedEvent::ObjectBegin { path },
            ParseEvent::ObjectEnd { path } => BufferedEvent::ObjectEnd { path },
        }
    }

    /// The next event, with the buffered value attached to string
    /// fragments: in `Values` mode the whole string on its final fragment,
    /// in `Prefixes` mode the text so far on every fragment.
    pub fn next(&mut self) -> (r: Option<Result<BufferedEvent, ParserError>>)
        requires
            old(self).wf(),
        ensures
            final(self).wf(),
            final(self).mode() == old(self).mode(),
            final(self).parser().fed() == old(self).parser().fed(),
            old(self).parser().is_errored() ==> r is None,
            r matches Some(Err(_)) ==> final(self).parser().is_errored(),
            !(r matches Some(Ok(BufferedEvent::String { .. }))) ==> final(self).string_so_far()
                == old(self).string_so_far(),
            r matches Some(Ok(BufferedEvent::String { fragment, is_initial, .. })) ==> final(self).string_so_far() == (if is_initial {
                fragment@
            } else {
                old(self).string_so_far() + fragment@
            }),
            r matches Some(Ok(BufferedEvent::String { value, is_final, .. })) ==> opt_view(value)
                == attached_value(final(self).mode(), final(self).string_so_far(), is_final),
            r matches Some(Ok(BufferedEvent::Number { value, .. })) ==> is_number_lexeme(value@),
            next_owed(old(self).parser(), final(self).parser(), r),
            r matches Some(Ok(b)) ==> exists|e: ParseEvent| #[trigger]
                buffered_from(old(self).mode(), old(self).string_so_far(), e, b),
            old(self).parser().options().2 != NonScalarValueMode::Roots ==> placed(
                old(self).parser(),
                final(self).parser(),
                r,
            ),
            old(self).parser().options().2 != NonScalarValueMode::Roots ==> (r matches Some(
                Ok(BufferedEvent::String { is_final, .. }),
            ) && is_final ==> decode_string_body(final(self).parser().last_string_body()) == Some(
                final(self).string_so_far(),
            ) && ends_with(
                final(self).parser().consumed(),
                quote() + final(self).parser().last_string_body() + quote(),
            )),
    {
        match self.parser.next() {
            Some(Ok(ev)) => {
                let ghost e = ev;
                let b = self.consume_event(ev);
                proof {
                    assert(buffered_from(old(self).mode(), old(self).string_so_far(), e, b));
                    assert(buffered_path(b) == event_path(e));
                }
                Some(Ok(b))
            },
            Some(Err(e)) => Some(Err(e)),
            None => None,
        }
    }
}

impl JsonModemBuffersClosed {
    /// The adapter inside.
    pub closed spec fn inner(&self) -> JsonModemBuffers {
        self.inner
    }

    /// The next event, until the input is exhausted or an error has been
    /// returned.
    pub fn next(&mut self) -> (r: Option<Result<BufferedEvent, ParserError>>)
        requires
            old(self).inner().wf(),
        ensures
            final(self).inner().wf(),
            final(self).inner().mode() == old(self).inner().mode(),
            old(self).inner().parser().is_errored() ==> r is None,
            r matches Some(Err(_)) ==> final(self).inner().parser().is_errored(),
            next_owed(old(self).inner().parser(), final(self).inner().parser(), r),
            r matches Some(Ok(b)) ==> exists|e: ParseEvent| #[trigger]
                buffered_from(old(self).inner().mode(), old(self).inner().string_so_far(), e, b),
            old(self).inner().parser().options().2 != NonScalarValueMode::Roots ==> placed(
                old(self).inner().parser(),
                final(self).inner().parser(),
                r,
            ),
            r matches Some(Ok(BufferedEvent::String { value, is_final, .. })) ==> opt_view(value)
                == attached_value(
                final(self).inner().mode(),
                final(self).inner().string_so_far(),
                is_final,
            ),
            old(self).inner().parser().options().2 != NonScalarValueMode::Roots ==> (r matches Some(
                Ok(BufferedEvent::String { is_final, .. }),
            ) && is_final ==> decode_string_body(final(self).inner().parser().last_string_body())
                == Some(final(self).inner().string_so_far()) && ends_with(
                final(self).inner().parser().consumed(),
                quote() + final(self).inner().parser().last_string_body() + quote(),
            )),
    {
        self.inner.next()
    }
}

} // verus!

//! A byte-level scanner that checks the structure of a JSON document and
//! records, for each string value (not object keys), the byte range of its
//! contents when they can be borrowed as is (no escape inside).
use vstd::prelude::*;
use crate::json_number::{lemma_scan_skips_json_numbers, skips_json_numbers};

verus! {

/// Why the scanner rejected a document.
#[derive(Debug, Clone, Copy, PartialEq, Eq, Structural)]
pub enum ScanError {
    StringNotValidHere,
    ObjectCloseNotValidHere,
    ArrayCloseNotValidHere,
    ColonNotValidHere,
    CommaNotValidHere,
    InvalidByte,
    DocumentEndedEarly,
    InvalidParserState,
    StringEscapeEndedEarly,
    UnicodeEscapeEndedEarly,
    UnicodeEscapeNonHex,
    InvalidStringEscape,
    UnescapedControlByte,
    StringEndedEarly,
    InvalidLiteral,
    InvalidNumber,
    FractionWithoutDigits,
    ExponentWithoutDigits,
    RangeStartTooLarge,
    RangeEndTooLarge,
}

/// The description of a scanner error.
pub open spec fn scan_error_message(e: ScanError) -> Seq<char> {
    match e {
        ScanError::StringNotValidHere => "string was not valid in this position"@,
        ScanError::ObjectCloseNotValidHere => "object close was not valid in this position"@,
        ScanError::ArrayCloseNotValidHere => "array close was not valid in this position"@,
        ScanError::ColonNotValidHere => "colon was not valid in this position"@,
        ScanError::CommaNotValidHere => "comma was not valid in this position"@,
        ScanError::InvalidByte => "invalid byte in JSON input"@,
        ScanError::DocumentEndedEarly => "JSON document ended before a complete value"@,
        ScanError::InvalidParserState => "value ended in an invalid parser state"@,
        ScanError::StringEscapeEndedEarly => "string escape ended early"@,
        ScanError::UnicodeEscapeEndedEarly => "unicode escape ended early"@,
        ScanError::UnicodeEscapeNonHex => "unicode escape contained a non-hex digit"@,
        ScanError::InvalidStringEscape => "invalid string escape"@,
        ScanError::UnescapedControlByte => "unescaped control byte in string"@,
        ScanError::StringEndedEarly => "string ended early"@,
        ScanError::InvalidLiteral => "invalid literal"@,
        ScanError::InvalidNumber => "invalid number"@,
        ScanError::FractionWithoutDigits => "number fraction had no digits"@,
        ScanError::ExponentWithoutDigits => "number exponent had no digits"@,
        ScanError::RangeStartTooLarge => "string range start exceeds u32::MAX"@,
        ScanError::RangeEndTooLarge => "string range end exceeds u32::MAX"@,
    }
}

impl ScanError {
    /// The description of the error.
    pub fn message(&self) -> (r: &'static str)
        ensures
            r@ == scan_error_message(*self),
    {
        match self {
            ScanError::StringNotValidHere => "string was not valid in this position",
            ScanError::ObjectCloseNotValidHere => "object close was not valid in this position",
            ScanError::ArrayCloseNotValidHere => "array close was not valid in this position",
            ScanError::ColonNotValidHere => "colon was not valid in this position",
            ScanError::CommaNotValidHere => "comma was not valid in this position",
            ScanError::InvalidByte => "invalid byte in JSON input",
            ScanError::DocumentEndedEarly => "JSON document ended before a complete value",
            ScanError::InvalidParserState => "value ended in an invalid parser state",
            ScanError::StringEscapeEndedEarly => "string escape ended early",
            ScanError::UnicodeEscapeEndedEarly => "unicode escape ended early",
            ScanError::UnicodeEscapeNonHex => "unicode escape contained a non-hex digit",
            ScanError::InvalidStringEscape => "invalid string escape",
            ScanError::UnescapedControlByte => "unescaped control byte in string",
            ScanError::StringEndedEarly => "string ended early",
            ScanError::InvalidLiteral => "invalid literal",
            ScanError::InvalidNumber => "invalid number",
            ScanError::FractionWithoutDigits => "number fraction had no digits",
            ScanError::ExponentWithoutDigits => "number exponent had no digits",
            ScanError::RangeStartTooLarge => "string range start exceeds u32::MAX",
            ScanError::RangeEndTooLarge => "string range end exceeds u32::MAX",
        }
    }
}

/// What the scanner expects inside an open container.
#[derive(Debug, Clone, Copy, PartialEq, Eq, Structural)]
pub enum ByteScanState {
    ArrayValueOrEnd,
    ArrayValue,
    ArrayAfterValue,
    ObjectKeyOrEnd,
    ObjectKey,
    ObjectAfterKey,
    ObjectValue,
    ObjectAfterValue,
}

/// The JSON whitespace bytes.
pub open spec fn is_ws(b: u8) -> bool {
    b == 0x20 || b == 0x0A || b == 0x0D || b == 0x09
}

/// The first position at or after `i` that is not whitespace.
pub open spec fn ws_end(b: Seq<u8>, i: int) -> int
    decreases b.len() - i,
{
    if 0 <= i < b.len() && is_ws(b[i]) {
        ws_end(b, i + 1)
    } else {
        i
    }
}

/// Skips whitespace from `index`.
pub fn skip_json_whitespace(bytes: &[u8], index: usize) -> (r: usize)
    requires
        index <= bytes@.len(),
    ensures
        r == ws_end(bytes@, index as int),
        index <= r <= bytes@.len(),
{
    let mut i = index;
    while i < bytes.len() && (bytes[i] == 0x20 || bytes[i] == 0x0A || bytes[i] == 0x0D || bytes[i]
        == 0x09)
        invariant
            index <= i <= bytes@.len(),
            ws_end(bytes@, i as int) == ws_end(bytes@, index as int),
        decreases bytes@.len() - i,
    {
        i = i + 1;
    }
    i
}

/// ASCII hexadecimal digits.
pub open spec fn is_hex_byte(b: u8) -> bool {
    (0x30 <= b <= 0x39) || (0x41 <= b <= 0x46) || (0x61 <= b <= 0x66)
}

/// The first problem among the four digits after a `u` at `p`, checked in
/// order from the `k`-th.
pub open spec fn hex_check_from(b: Seq<u8>, p: int, k: int) -> Option<ScanError>
    decreases 5 - k,
{
    if k > 4 || k < 1 {
        None
    } else if p + k >= b.len() {
        Some(ScanError::UnicodeEscapeEndedEarly)
    } else if !is_hex_byte(b[p + k]) {
        Some(ScanError::UnicodeEscapeNonHex)
    } else {
        hex_check_from(b, p, k + 1)
    }
}

/// The escapes made of one character after the backslash.
pub open spec fn is_simple_escape(c: u8) -> bool {
    c == 0x22 || c == 0x5C || c == 0x2F || c == 0x62 || c == 0x66 || c == 0x6E || c == 0x72 || c
        == 0x74
}

/// Reads a string body from `i`: the position of the closing quote, and
/// whether no escape was met (given `borrowed` for what came before).
pub open spec fn string_scan(b: Seq<u8>, i: int, borrowed: bool) -> Result<(int, bool), ScanError>
    decreases b.len() + 6 - i,
{
    if i < 0 || i >= b.len() {
        Err(ScanError::StringEndedEarly)
    } else if b[i] == 0x22 {
        Ok((i, borrowed))
    } else if b[i] == 0x5C {
        if i + 1 >= b.len() {
            Err(ScanError::StringEscapeEndedEarly)
        } else if is_simple_escape(b[i + 1]) {
            string_scan(b, i + 2, false)
        } else if b[i + 1] == 0x75 {
            match hex_check_from(b, i + 1, 1) {
                Some(e) => Err(e),
                None => string_scan(b, i + 6, false),
            }
        } else {
            Err(ScanError::InvalidStringEscape)
        }
    } else if b[i] < 0x20 {
        Err(ScanError::UnescapedControlByte)
    } else {
        string_scan(b, i + 1, borrowed)
    }
}

/// A successful string scan ends at a quote at or after where it started.
pub proof fn lemma_string_scan_bounds(b: Seq<u8>, i: int, borrowed: bool)
    ensures
        string_scan(b, i, borrowed) matches Ok((e, _)) ==> i <= e < b.len() && b[e] == 0x22,
    decreases b.len() + 6 - i,
{
    if 0 <= i < b.len() && b[i] != 0x22 {
        if b[i] == 0x5C {
            if i + 1 < b.len() {
                lemma_string_scan_bounds(b, i + 2, false);
                lemma_string_scan_bounds(b, i + 6, false);
            }
        } else {
            lemma_string_scan_bounds(b, i + 1, borrowed);
        }
    }
}

/// Scans the string whose opening quote is at `quote`: returns the start
/// and end of its contents, the position after the closing quote, and
/// whether it holds no escape.
pub fn scan_json_string(bytes: &[u8], quote: usize) -> (r: Result<(usize, usize, usize, bool), ScanError>)
    requires
        quote < bytes@.len(),
    ensures
        match string_scan(bytes@, quote + 1, true) {
            Ok((end, borrowed)) => r == Ok::<(usize, usize, usize, bool), ScanError>(
                ((quote + 1) as usize, end as usize, (end + 1) as usize, borrowed),
            ),
            Err(e) => r == Err::<(usize, usize, usize, bool), ScanError>(e),
        },
{
    let n = bytes.len();
    let payload_start = quote + 1;
    let mut index = payload_start;
    let mut borrowed = true;
    loop
        invariant
            n == bytes@.len(),
            payload_start == quote + 1,
            quote < n,
            payload_start <= index,
            string_scan(bytes@, payload_start as int, true) == string_scan(
                bytes@,
                index as int,
                borrowed,
            ),
        decreases n + 6 - index,
    {
        proof {
            lemma_string_scan_bounds(bytes@, index as int, borrowed);
        }
        if index >= n {
            return Err(ScanError::StringEndedEarly);
        }
        let byte = bytes[index];
        if byte == 0x22 {
            return Ok((payload_start, index, index + 1, borrowed));
        } else if byte == 0x5C {
            assert(string_scan(bytes@, index as int, borrowed) == string_scan(
                bytes@,
                index as int,
                false,
            ));
            borrowed = false;
            if index + 1 >= n {
                return Err(ScanError::StringEscapeEndedEarly);
            }
            let escape = bytes[index + 1];
            if escape == 0x22 || escape == 0x5C || escape == 0x2F || escape == 0x62 || escape
                == 0x66 || escape == 0x6E || escape == 0x72 || escape == 0x74 {
                index = index + 2;
            } else if escape == 0x75 {
                let mut offset: usize = 1;
                while offset <= 4
                    invariant
                        n == bytes@.len(),
                        index + 1 < n,
                        1 <= offset <= 5,
                        offset > 1 ==> index + offset < n,
                        bytes@[index as int] == 0x5C,
                        bytes@[index + 1] == 0x75,
                        payload_start == quote + 1,
                        string_scan(bytes@, payload_start as int, true) == string_scan(
                            bytes@,
                            index as int,
                            false,
                        ),
                        hex_check_from(bytes@, index + 1, 1) == hex_check_from(
                            bytes@,
                            index + 1,
                            offset as int,
                        ),
                    decreases 5 - offset,
                {
                    if offset >= n - (index + 1) {
                        return Err(ScanError::UnicodeEscapeEndedEarly);
                    }
                    let digit = bytes[index + 1 + offset];
                    if !((0x30 <= digit && digit <= 0x39) || (0x41 <= digit && digit <= 0x46) || (
                    0x61 <= digit && digit <= 0x66)) {
                        return Err(ScanError::UnicodeEscapeNonHex);
                    }
                    offset = offset + 1;
                }
                index = index + 6;
            } else {
                return Err(ScanError::InvalidStringEscape);
            }
        } else if byte < 0x20 {
            return Err(ScanError::UnescapedControlByte);
        } else {
            index = index + 1;
        }
    }
}

/// Whether the bytes at `i` are `lit`.
pub open spec fn matches_at(b: Seq<u8>, i: int, lit: Seq<u8>) -> bool {
    0 <= i && i + lit.len() <= b.len() && b.subrange(i, i + lit.len()) == lit
}

/// The literal words `null`, `true`, `false`.
pub open spec fn null_bytes() -> Seq<u8> {
    seq![0x6Eu8, 0x75u8, 0x6Cu8, 0x6Cu8]
}

pub open spec fn true_bytes() -> Seq<u8> {
    seq![0x74u8, 0x72u8, 0x75u8, 0x65u8]
}

pub open spec fn false_bytes() -> Seq<u8> {
    seq![0x66u8, 0x61u8, 0x6Cu8, 0x73u8, 0x65u8]
}

/// The end of the literal word at `i`.
pub open spec fn literal_scan(b: Seq<u8>, i: int) -> Result<int, ScanError> {
    if matches_at(b, i, null_bytes()) {
        Ok(i + 4)
    } else if matches_at(b, i, true_bytes()) {
        Ok(i + 4)
    } else if matches_at(b, i, false_bytes()) {
        Ok(i + 5)
    } else {
        Err(ScanError::InvalidLiteral)
    }
}

fn bytes_match_at(bytes: &[u8], i: usize, lit: &[u8]) -> (r: bool)
    ensures
        r == matches_at(bytes@, i as int, lit@),
{
    let n = bytes.len();
    if lit.len() > bytes.len() || i > bytes.len() - lit.len() {
        return false;
    }
    let mut k: usize = 0;
    while k < lit.len()
        invariant
            n == bytes@.len(),
            i + lit@.len() <= bytes@.len(),
            k <= lit@.len(),
            forall|j: int| 0 <= j < k ==> bytes@[i + j] == lit@[j],
        decreases lit@.len() - k,
    {
        if bytes[i + k] != lit[k] {
            assert(bytes@.subrange(i as int, i + lit@.len())[k as int] != lit@[k as int]);
            return false;
        }
        k = k + 1;
    }
    assert(bytes@.subrange(i as int, i + lit@.len()) =~= lit@);
    true
}

/// Skips the literal word at `index`.
pub fn skip_literal(bytes: &[u8], index: usize) -> (r: Result<usize, ScanError>)
    ensures
        match literal_scan(bytes@, index as int) {
            Ok(e) => r == Ok::<usize, ScanError>(e as usize),
            Err(e) => r == Err::<usize, ScanError>(e),
        },
{
    let n = bytes.len();
    let null_lit: [u8; 4] = [0x6E, 0x75, 0x6C, 0x6C];
    let true_lit: [u8; 4] = [0x74, 0x72, 0x75, 0x65];
    let false_lit: [u8; 5] = [0x66, 0x61, 0x6C, 0x73, 0x65];
    assert(null_lit@ =~= null_bytes());
    assert(true_lit@ =~= true_bytes());
    assert(false_lit@ =~= false_bytes());
    if bytes_match_at(bytes, index, null_lit.as_slice()) {
        return Ok(index + 4);
    }
    if bytes_match_at(bytes, index, true_lit.as_slice()) {
        return Ok(index + 4);
    }
    if bytes_match_at(bytes, index, false_lit.as_slice()) {
        return Ok(index + 5);
    }
    Err(ScanError::InvalidLiteral)
}

/// ASCII decimal digits.
pub open spec fn is_digit_byte(b: u8) -> bool {
    0x30 <= b <= 0x39
}

/// The first position at or after `i` that is not a digit.
pub open spec fn digits_end(b: Seq<u8>, i: int) -> int
    decreases b.len() - i,
{
    if 0 <= i < b.len() && is_digit_byte(b[i]) {
        digits_end(b, i + 1)
    } else {
        i
    }
}

/// Whether position `i` holds a byte satisfying the test.
pub open spec fn byte_at_is(b: Seq<u8>, i: int, c: u8) -> bool {
    0 <= i < b.len() && b[i] == c
}

/// The end of the number at `i`: an optional minus, `0` or a non-zero
/// digit and more digits, an optional fraction with at least one digit,
/// an optional exponent with an optional sign and at least one digit.
pub open spec fn number_scan(b: Seq<u8>, i: int) -> Result<int, ScanError> {
    let i1 = if byte_at_is(b, i, 0x2D) {
        i + 1
    } else {
        i
    };
    if !(0 <= i1 < b.len() && is_digit_byte(b[i1])) {
        Err(ScanError::InvalidNumber)
    } else {
        let i2 = if b[i1] == 0x30 {
            i1 + 1
        } else {
            digits_end(b, i1 + 1)
        };
        let frac = if byte_at_is(b, i2, 0x2E) {
            let d = digits_end(b, i2 + 1);
            if d == i2 + 1 {
                Err(ScanError::FractionWithoutDigits)
            } else {
                Ok(d)
            }
        } else {
            Ok(i2)
        };
        match frac {
            Err(e) => Err(e),
            Ok(i3) => if byte_at_is(b, i3, 0x65) || byte_at_is(b, i3, 0x45) {
                let j = if byte_at_is(b, i3 + 1, 0x2B) || byte_at_is(b, i3 + 1, 0x2D) {
                    i3 + 2
                } else {
                    i3 + 1
                };
                let d = digits_end(b, j);
                if d == j {
                    Err(ScanError::ExponentWithoutDigits)
                } else {
                    Ok(d)
                }
            } else {
                Ok(i3)
            },
        }
    }
}

/// Skips digits from `index`.
fn skip_digits(bytes: &[u8], index: usize) -> (r: usize)
    requires
        index <= bytes@.len(),
    ensures
        r == digits_end(bytes@, index as int),
        index <= r <= bytes@.len(),
{
    let mut i = index;
    while i < bytes.len() && 0x30 <= bytes[i] && bytes[i] <= 0x39
        invariant
            index <= i <= bytes@.len(),
            digits_end(bytes@, i as int) == digits_end(bytes@, index as int),
        decreases bytes@.len() - i,
    {
        i = i + 1;
    }
    i
}

/// Skips the number at `index`.
pub fn skip_number(bytes: &[u8], index: usize) -> (r: Result<usize, ScanError>)
    ensures
        match number_scan(bytes@, index as int) {
            Ok(e) => r == Ok::<usize, ScanError>(e as usize),
            Err(e) => r == Err::<usize, ScanError>(e),
        },
        skips_json_numbers(bytes@, index as int, r),
{
    let r = skip_number_scan(bytes, index);
    proof {
        lemma_scan_skips_json_numbers(bytes@, index as int, r);
    }
    r
}

/// Skips the number at `index`, as `number_scan` reads it.
fn skip_number_scan(bytes: &[u8], index: usize) -> (r: Result<usize, ScanError>)
    ensures
        match number_scan(bytes@, index as int) {
            Ok(e) => r == Ok::<usize, ScanError>(e as usize),
            Err(e) => r == Err::<usize, ScanError>(e),
        },
{
    let n = bytes.len();
    let mut i = index;
    if i < n && bytes[i] == 0x2D {
        i = i + 1;
    }
    if !(i < n && 0x30 <= bytes[i] && bytes[i] <= 0x39) {
        return Err(ScanError::InvalidNumber);
    }
    if bytes[i] == 0x30 {
        i = i + 1;
    } else {
        i = skip_digits(bytes, i + 1);
    }
    if i < n && bytes[i] == 0x2E {
        let d = skip_digits(bytes, i + 1);
        if d == i + 1 {
            return Err(ScanError::FractionWithoutDigits);
        }
        i = d;
    }
    if i < n && (bytes[i] == 0x65 || bytes[i] == 0x45) {
        let mut j = i + 1;
        if j < n && (bytes[j] == 0x2B || bytes[j] == 0x2D) {
            j = j + 1;
        }
        let d = skip_digits(bytes, j);
        if d == j {
            return Err(ScanError::ExponentWithoutDigits);
        }
        i = d;
    }
    Ok(i)
}


/// Whitespace skipping never moves backwards.
pub proof fn lemma_ws_end(b: Seq<u8>, i: int)
    requires
        0 <= i <= b.len(),
    ensures
        i <= ws_end(b, i) <= b.len(),
    decreases b.len() - i,
{
    if i < b.len() && is_ws(b[i]) {
        lemma_ws_end(b, i + 1);
    }
}

/// Digit skipping never moves backwards.
pub proof fn lemma_digits_end(b: Seq<u8>, i: int)
    ensures
        i <= digits_end(b, i),
        0 <= i <= b.len() ==> digits_end(b, i) <= b.len(),
    decreases b.len() - i,
{
    if 0 <= i < b.len() && is_digit_byte(b[i]) {
        lemma_digits_end(b, i + 1);
    }
}

/// A number or a literal is at least one byte long.
pub proof fn lemma_token_progress(b: Seq<u8>, i: int)
    requires
        0 <= i < b.len(),
    ensures
        number_scan(b, i) matches Ok(e) ==> i < e <= b.len(),
        literal_scan(b, i) matches Ok(e) ==> i < e <= b.len(),
{
    let i1 = if byte_at_is(b, i, 0x2D) {
        i + 1
    } else {
        i
    };
    if 0 <= i1 < b.len() {
        lemma_digits_end(b, i1 + 1);
        let i2 = if b[i1] == 0x30 {
            i1 + 1
        } else {
            digits_end(b, i1 + 1)
        };
        lemma_digits_end(b, i2 + 1);
        let i3 = if byte_at_is(b, i2, 0x2E) {
            digits_end(b, i2 + 1)
        } else {
            i2
        };
        lemma_digits_end(b, i3 + 1);
        lemma_digits_end(b, i3 + 2);
    }
}

/// Whether a value may start in this state.
pub open spec fn can_start(state: Option<ByteScanState>, root_done: bool) -> bool {
    match state {
        None => !root_done,
        Some(s) => s == ByteScanState::ArrayValueOrEnd || s == ByteScanState::ArrayValue || s
            == ByteScanState::ObjectValue,
    }
}

/// Whether a value may start in this state.
pub fn can_start_value(state: Option<ByteScanState>, root_done: bool) -> (r: bool)
    ensures
        r == can_start(state, root_done),
{
    match state {
        None => !root_done,
        Some(s) => match s {
            ByteScanState::ArrayValueOrEnd | ByteScanState::ArrayValue
            | ByteScanState::ObjectValue => true,
            _ => false,
        },
    }
}

/// The state after a complete value: the enclosing container expects what
/// follows a value, or the root is done.
pub open spec fn completed(stack: Seq<ByteScanState>, root_done: bool) -> Result<
    (Seq<ByteScanState>, bool),
    ScanError,
> {
    if stack.len() > 0 {
        let s = stack.last();
        if s == ByteScanState::ArrayValueOrEnd || s == ByteScanState::ArrayValue {
            Ok((stack.update(stack.len() - 1, ByteScanState::ArrayAfterValue), root_done))
        } else if s == ByteScanState::ObjectValue {
            Ok((stack.update(stack.len() - 1, ByteScanState::ObjectAfterValue), root_done))
        } else {
            Err(ScanError::InvalidParserState)
        }
    } else if !root_done {
        Ok((stack, true))
    } else {
        Err(ScanError::InvalidParserState)
    }
}

/// Records that a value has ended.
pub fn complete_value(stack: &mut Vec<ByteScanState>, root_done: &mut bool) -> (r: Result<
    (),
    ScanError,
>)
    ensures
        match completed(old(stack)@, *old(root_done)) {
            Ok((st, rd)) => r is Ok && final(stack)@ == st && *final(root_done) == rd,
            Err(e) => r == Err::<(), ScanError>(e),
        },
{
    let n = stack.len();
    if n > 0 {
        let s = stack[n - 1];
        match s {
            ByteScanState::ArrayValueOrEnd | ByteScanState::ArrayValue => {
                stack.set(n - 1, ByteScanState::ArrayAfterValue);
                Ok(())
            },
            ByteScanState::ObjectValue => {
                stack.set(n - 1, ByteScanState::ObjectAfterValue);
                Ok(())
            },
            _ => Err(ScanError::InvalidParserState),
        }
    } else if !*root_done {
        *root_done = true;
        Ok(())
    } else {
        Err(ScanError::InvalidParserState)
    }
}

/// The four little-endian bytes of `v`.
pub open spec fn le_u32(v: nat) -> Seq<u8> {
    seq![
        (v % 256) as u8,
        ((v / 256) % 256) as u8,
        ((v / 65536) % 256) as u8,
        ((v / 16777216) % 256) as u8,
    ]
}

/// The table row of a string value: its range as two little-endian `u32`s,
/// or two `u32::MAX` when it cannot be borrowed.
pub open spec fn range_row(range: Option<(int, int)>) -> Result<Seq<u8>, ScanError> {
    match range {
        None => Ok(le_u32(0xFFFF_FFFF) + le_u32(0xFFFF_FFFF)),
        Some((start, end)) => if start > 0xFFFF_FFFF {
            Err(ScanError::RangeStartTooLarge)
        } else if end > 0xFFFF_FFFF {
            Err(ScanError::RangeEndTooLarge)
        } else {
            Ok(le_u32(start as nat) + le_u32(end as nat))
        },
    }
}

fn push_le_u32(table: &mut Vec<u8>, v: u32)
    ensures
        final(table)@ == old(table)@ + le_u32(v as nat),
{
    table.push((v % 256) as u8);
    table.push(((v / 256) % 256) as u8);
    table.push(((v / 65536) % 256) as u8);
    table.push(((v / 16777216) % 256) as u8);
    assert(final(table)@ =~= old(table)@ + le_u32(v as nat));
}

/// The view of an optional range.
pub open spec fn range_view(range: Option<(usize, usize)>) -> Option<(int, int)> {
    match range {
        Some((s, e)) => Some((s as int, e as int)),
        None => None,
    }
}

/// Appends the row of a string value to the table.
pub fn append_range_row(table: &mut Vec<u8>, range: Option<(usize, usize)>) -> (r: Result<
    (),
    ScanError,
>)
    ensures
        match range_row(range_view(range)) {
            Ok(row) => r is Ok && final(table)@ == old(table)@ + row,
            Err(e) => r == Err::<(), ScanError>(e) && final(table)@ == old(table)@,
        },
{
    let (start, end): (u32, u32) = match range {
        Some((start, end)) => {
            if start > 0xFFFF_FFFF {
                return Err(ScanError::RangeStartTooLarge);
            }
            if end > 0xFFFF_FFFF {
                return Err(ScanError::RangeEndTooLarge);
            }
            (start as u32, end as u32)
        },
        None => (0xFFFF_FFFF, 0xFFFF_FFFF),
    };
    push_le_u32(table, start);
    push_le_u32(table, end);
    assert(final(table)@ =~= old(table)@ + (le_u32(start as nat) + le_u32(end as nat)));
    Ok(())
}

/// The innermost state, if any.
pub open spec fn top(stack: Seq<ByteScanState>) -> Option<ByteScanState> {
    if stack.len() > 0 {
        Some(stack.last())
    } else {
        None
    }
}

/// The scanner, from position `index` with the open containers `stack`,
/// whether the root value is complete, and the table so far: reads one
/// token after whitespace and continues, or ends.
pub open spec fn scan_from(
    b: Seq<u8>,
    index: int,
    stack: Seq<ByteScanState>,
    root_done: bool,
    table: Seq<u8>,
) -> Result<Seq<u8>, ScanError>
    decreases b.len() - index,
{
    if index < 0 || index > b.len() {
        Err(ScanError::InvalidByte)
    } else {
        proof {
            lemma_ws_end(b, index);
        }
        let i = ws_end(b, index);
        if i >= b.len() {
            if !root_done || stack.len() > 0 {
                Err(ScanError::DocumentEndedEarly)
            } else {
                Ok(table)
            }
        } else {
            let state = top(stack);
            let c = b[i];
            let last = stack.len() - 1;
            if c == 0x7B && can_start(state, root_done) {
                scan_from(b, i + 1, stack.push(ByteScanState::ObjectKeyOrEnd), root_done, table)
            } else if c == 0x5B && can_start(state, root_done) {
                scan_from(b, i + 1, stack.push(ByteScanState::ArrayValueOrEnd), root_done, table)
            } else if c == 0x22 {
                proof {
                    lemma_string_scan_bounds(b, i + 1, true);
                }
                if state == Some(ByteScanState::ObjectKeyOrEnd) || state == Some(
                    ByteScanState::ObjectKey,
                ) {
                    match string_scan(b, i + 1, true) {
                        Err(e) => Err(e),
                        Ok((end, _)) => scan_from(
                            b,
                            end + 1,
                            stack.update(last, ByteScanState::ObjectAfterKey),
                            root_done,
                            table,
                        ),
                    }
                } else if can_start(state, root_done) {
                    match string_scan(b, i + 1, true) {
                        Err(e) => Err(e),
                        Ok((end, borrowed)) => match range_row(
                            if borrowed {
                                Some((i + 1, end))
                            } else {
                                None
                            },
                        ) {
                            Err(e) => Err(e),
                            Ok(row) => match completed(stack, root_done) {
                                Err(e) => Err(e),
                                Ok((st, rd)) => scan_from(b, end + 1, st, rd, table + row),
                            },
                        },
                    }
                } else {
                    Err(ScanError::StringNotValidHere)
                }
            } else if c == 0x7D {
                if state == Some(ByteScanState::ObjectKeyOrEnd) || state == Some(
                    ByteScanState::ObjectAfterValue,
                ) {
                    match completed(stack.drop_last(), root_done) {
                        Err(e) => Err(e),
                        Ok((st, rd)) => scan_from(b, i + 1, st, rd, table),
                    }
                } else {
                    Err(ScanError::ObjectCloseNotValidHere)
                }
            } else if c == 0x5D {
                if state == Some(ByteScanState::ArrayValueOrEnd) || state == Some(
                    ByteScanState::ArrayAfterValue,
                ) {
                    match completed(stack.drop_last(), root_done) {
                        Err(e) => Err(e),
                        Ok((st, rd)) => scan_from(b, i + 1, st, rd, table),
                    }
                } else {
                    Err(ScanError::ArrayCloseNotValidHere)
                }
            } else if c == 0x3A {
                if state == Some(ByteScanState::ObjectAfterKey) {
                    scan_from(b, i + 1, stack.update(last, ByteScanState::ObjectValue), root_done, table)
                } else {
                    Err(ScanError::ColonNotValidHere)
                }
            } else if c == 0x2C {
                if state == Some(ByteScanState::ArrayAfterValue) {
                    scan_from(b, i + 1, stack.update(last, ByteScanState::ArrayValue), root_done, table)
                } else if state == Some(ByteScanState::ObjectAfterValue) {
                    scan_from(b, i + 1, stack.update(last, ByteScanState::ObjectKey), root_done, table)
                } else {
                    Err(ScanError::CommaNotValidHere)
                }
            } else if (c == 0x6E || c == 0x74 || c == 0x66) && can_start(state, root_done) {
                proof {
                    lemma_token_progress(b, i);
                }
                match literal_scan(b, i) {
                    Err(e) => Err(e),
                    Ok(e) => match completed(stack, root_done) {
                        Err(err) => Err(err),
                        Ok((st, rd)) => scan_from(b, e, st, rd, table),
                    },
                }
            } else if (c == 0x2D || is_digit_byte(c)) && can_start(state, root_done) {
                proof {
                    lemma_token_progress(b, i);
                }
                match number_scan(b, i) {
                    Err(e) => Err(e),
                    Ok(e) => match completed(stack, root_done) {
                        Err(err) => Err(err),
                        Ok((st, rd)) => scan_from(b, e, st, rd, table),
                    },
                }
            } else {
                Err(ScanError::InvalidByte)
            }
        }
    }
}

/// What the scanner returns for a whole document.
pub open spec fn string_range_table_of(b: Seq<u8>) -> Result<Seq<u8>, ScanError> {
    scan_from(b, 0, Seq::empty(), false, Seq::empty())
}


/// The packed table of byte ranges of the string values of a JSON
/// document, in document order: for each string value (object keys
/// excluded) its content range as little-endian `(start: u32, end: u32)`,
/// or two `u32::MAX` when the string holds an escape. The document must be
/// a single complete JSON value; otherwise the first problem found is
/// returned.
#[verifier::rlimit(60)]
pub fn scan_string_range_table(bytes: &[u8]) -> (r: Result<Vec<u8>, ScanError>)
    ensures
        match string_range_table_of(bytes@) {
            Ok(t) => r matches Ok(v) && v@ == t,
            Err(e) => r matches Err(x) && x == e,
        },
{
    let n = bytes.len();
    let mut table: Vec<u8> = Vec::new();
    let mut stack: Vec<ByteScanState> = Vec::new();
    let mut root_done = false;
    let mut index: usize = 0;
    while index < n
        invariant
            n == bytes@.len(),
            index <= n,
            string_range_table_of(bytes@) == scan_from(
                bytes@,
                index as int,
                stack@,
                root_done,
                table@,
            ),
        ensures
            string_range_table_of(bytes@) == (if !root_done || stack@.len() > 0 {
                Err::<Seq<u8>, ScanError>(ScanError::DocumentEndedEarly)
            } else {
                Ok::<Seq<u8>, ScanError>(table@)
            }),
        decreases n - index,
    {
        let ghost b = bytes@;
        let ghost old_index = index as int;
        index = skip_json_whitespace(bytes, index);
        if index >= n {
            assert(scan_from(b, old_index, stack@, root_done, table@) == (if !root_done
                || stack@.len() > 0 {
                Err::<Seq<u8>, ScanError>(ScanError::DocumentEndedEarly)
            } else {
                Ok::<Seq<u8>, ScanError>(table@)
            }));
            break ;
        }
        let depth = stack.len();
        let state = if depth > 0 {
            Some(stack[depth - 1])
        } else {
            None
        };
        let c = bytes[index];
        let can = can_start_value(state, root_done);
        proof {
            assert(state == top(stack@));
        }
        if c == 0x7B && can {
            stack.push(ByteScanState::ObjectKeyOrEnd);
            index = index + 1;
        } else if c == 0x5B && can {
            stack.push(ByteScanState::ArrayValueOrEnd);
            index = index + 1;
        } else if c == 0x22 {
            proof {
                lemma_string_scan_bounds(b, index + 1, true);
            }
            if state == Some(ByteScanState::ObjectKeyOrEnd) || state == Some(
                ByteScanState::ObjectKey,
            ) {
                let next = match scan_json_string(bytes, index) {
                    Ok((_, _, next, _)) => next,
                    Err(e) => {
                        return Err(e);
                    },
                };
                stack.set(depth - 1, ByteScanState::ObjectAfterKey);
                index = next;
            } else if can {
                let (start, end, next, borrowed) = match scan_json_string(bytes, index) {
                    Ok(t) => t,
                    Err(e) => {
                        return Err(e);
                    },
                };
                let range = if borrowed {
                    Some((start, end))
                } else {
                    None
                };
                match append_range_row(&mut table, range) {
                    Ok(()) => {},
                    Err(e) => {
                        return Err(e);
                    },
                }
                match complete_value(&mut stack, &mut root_done) {
                    Ok(()) => {},
                    Err(e) => {
                        return Err(e);
                    },
                }
                index = next;
            } else {
                return Err(ScanError::StringNotValidHere);
            }
        } else if c == 0x7D {
            if state == Some(ByteScanState::ObjectKeyOrEnd) || state == Some(
                ByteScanState::ObjectAfterValue,
            ) {
                stack.pop();
                match complete_value(&mut stack, &mut root_done) {
                    Ok(()) => {},
                    Err(e) => {
                        return Err(e);
                    },
                }
                index = index + 1;
            } else {
                return Err(ScanError::ObjectCloseNotValidHere);
            }
        } else if c == 0x5D {
            if state == Some(ByteScanState::ArrayValueOrEnd) || state == Some(
                ByteScanState::ArrayAfterValue,
            ) {
                stack.pop();
                match complete_value(&mut stack, &mut root_done) {
                    Ok(()) => {},
                    Err(e) => {
                        return Err(e);
                    },
                }
                index = index + 1;
            } else {
                return Err(ScanError::ArrayCloseNotValidHere);
            }
        } else if c == 0x3A {
            if state == Some(ByteScanState::ObjectAfterKey) {
                stack.set(depth - 1, ByteScanState::ObjectValue);
                index = index + 1;
            } else {
                return Err(ScanError::ColonNotValidHere);
            }
        } else if c == 0x2C {
            if state == Some(ByteScanState::ArrayAfterValue) {
                stack.set(depth - 1, ByteScanState::ArrayValue);
                index = index + 1;
            } else if state == Some(ByteScanState::ObjectAfterValue) {
                stack.set(depth - 1, ByteScanState::ObjectKey);
                index = index + 1;
            } else {
                return Err(ScanError::CommaNotValidHere);
            }
        } else if (c == 0x6E || c == 0x74 || c == 0x66) && can {
            proof {
                lemma_token_progress(b, index as int);
            }
            index = match skip_literal(bytes, index) {
                Ok(e) => e,
                Err(e) => {
                    return Err(e);
                },
            };
            match complete_value(&mut stack, &mut root_done) {
                Ok(()) => {},
                Err(e) => {
                    return Err(e);
                },
            }
        } else if (c == 0x2D || (0x30 <= c && c <= 0x39)) && can {
            proof {
                lemma_token_progress(b, index as int);
            }
            index = match skip_number(bytes, index) {
                Ok(e) => e,
                Err(e) => {
                    return Err(e);
                },
            };
            match complete_value(&mut stack, &mut root_done) {
                Ok(()) => {},
                Err(e) => {
                    return Err(e);
                },
            }
        } else {
            return Err(ScanError::InvalidByte);
        }
    }
    if !root_done || stack.len() > 0 {
        return Err(ScanError::DocumentEndedEarly);
    }
    Ok(table)
}

} // verus!

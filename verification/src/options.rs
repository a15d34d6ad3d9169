//! Configuration of the streaming parser and of the adapters layered on it.
use vstd::prelude::*;

verus! {

/// Controls emission of container events during parsing.
#[derive(Debug, Clone, Copy, PartialEq, Eq, Structural)]
pub enum NonScalarValueMode {
    /// Do not emit container events beyond the default minimal set.
    Off,
    /// Emit container events for all objects and arrays.
    All,
    /// Emit events only for root values (those with an empty path).
    Roots,
}

impl Default for NonScalarValueMode {
    fn default() -> (r: Self)
        ensures
            r == NonScalarValueMode::Off,
    {
        NonScalarValueMode::Off
    }
}

/// Configuration options for the JSON streaming parser.
///
/// All options default to `false` (and `NonScalarValueMode::Off`).
#[derive(Debug, Clone, Copy)]
pub struct ParserOptions {
    /// Whether to allow any Unicode whitespace between JSON values. By
    /// default only the four JSON whitespace characters are recognized:
    /// space, line feed, carriage return and horizontal tab.
    pub allow_unicode_whitespace: bool,
    /// Whether to parse several whitespace-delimited JSON values from one
    /// input stream (JSON Lines, concatenated values).
    pub allow_multiple_json_values: bool,
    /// Whether and how to emit container events.
    pub non_scalar_values: NonScalarValueMode,
}

impl Default for ParserOptions {
    fn default() -> (r: Self)
        ensures
            !r.allow_unicode_whitespace,
            !r.allow_multiple_json_values,
            r.non_scalar_values == NonScalarValueMode::Off,
    {
        ParserOptions {
            allow_unicode_whitespace: false,
            allow_multiple_json_values: false,
            non_scalar_values: NonScalarValueMode::Off,
        }
    }
}

/// Buffering policy for string values in the buffering adapter.
///
/// - `None`: never attach a buffered value (emit fragments only).
/// - `Values`: attach the full string only when the string ends.
/// - `Prefixes`: attach the growing prefix with every flush.
#[derive(Debug, Clone, Copy, PartialEq, Eq, Structural)]
pub enum StringBufferMode {
    Off,
    Values,
    Prefixes,
}

impl Default for StringBufferMode {
    fn default() -> (r: Self)
        ensures
            r == StringBufferMode::Off,
    {
        StringBufferMode::Off
    }
}

/// Controls emission of container events in the buffering adapter.
#[derive(Debug, Clone, Copy, PartialEq, Eq, Structural)]
pub enum NonScalarMode {
    /// Do not emit container events beyond the default minimal set.
    Off,
    /// Emit container events for all objects and arrays.
    All,
    /// Emit container events only for root values (those with an empty path).
    Roots,
}

impl Default for NonScalarMode {
    fn default() -> (r: Self)
        ensures
            r == NonScalarMode::Off,
    {
        NonScalarMode::Off
    }
}

/// Controls buffering behavior for the buffering adapter.
#[derive(Debug, Clone, Copy, PartialEq, Eq, Structural)]
pub struct BufferOptions {
    pub string_buffer_mode: StringBufferMode,
    pub non_scalar_mode: NonScalarMode,
}

impl Default for BufferOptions {
    fn default() -> (r: Self)
        ensures
            r.string_buffer_mode == StringBufferMode::Off,
            r.non_scalar_mode == NonScalarMode::Off,
    {
        BufferOptions {
            string_buffer_mode: StringBufferMode::Off,
            non_scalar_mode: NonScalarMode::Off,
        }
    }
}

/// Options of the value-building adapter: whether partial values are
/// yielded while a root is still being built.
#[derive(Debug, Clone, Copy)]
pub struct ValuesOptions {
    pub partial: bool,
}

} // verus!

//! Values and errors of the Nanonis TCP protocol, and the legacy connection
//! settings.
//!
//! Floating-point values travel as their IEEE-754 bit patterns: `F32`
//! holds `f32::to_bits` of the value and `F64` holds `f64::to_bits`, which is
//! exactly what goes on the wire.
use vstd::prelude::*;
use vstd::string::*;

verus! {

/// `std::io::Error`, carried as the source of an I/O failure.
#[verifier::external_type_specification]
#[verifier::external_body]
pub struct ExIoError(std::io::Error);

/// Errors of the Nanonis protocol and client.
#[derive(Debug)]
pub enum NanonisError {
    Io { source: std::io::Error, context: String },
    Timeout,
    Protocol(String),
    Type(String),
    CommandMismatch { expected: String, actual: String },
    InvalidCommand(String),
    ServerError { code: i32, message: String },
    InvalidAddress(String),
}

/// A value of the Nanonis protocol. `F32`, `F64` and the float arrays hold
/// bit patterns.
#[derive(Debug, Clone)]
pub enum NanonisValue {
    U16(u16),
    I16(i16),
    U32(u32),
    I32(i32),
    F32(u32),
    F64(u64),
    String(String),
    ArrayU16(Vec<u16>),
    ArrayI16(Vec<i16>),
    ArrayU32(Vec<u32>),
    ArrayI32(Vec<i32>),
    ArrayF32(Vec<u32>),
    ArrayF64(Vec<u64>),
    ArrayString(Vec<String>),
    Array2DF32(Vec<Vec<u32>>),
}

/// A protocol value as the contracts speak of it.
pub enum ValueView {
    U16(u16),
    I16(i16),
    U32(u32),
    I32(i32),
    F32(u32),
    F64(u64),
    Str(Seq<char>),
    ArrayU16(Seq<u16>),
    ArrayI16(Seq<i16>),
    ArrayU32(Seq<u32>),
    ArrayI32(Seq<i32>),
    ArrayF32(Seq<u32>),
    ArrayF64(Seq<u64>),
    ArrayString(Seq<Seq<char>>),
    Array2DF32(Seq<Seq<u32>>),
}

impl View for NanonisValue {
    type V = ValueView;

    open spec fn view(&self) -> ValueView {
        match self {
            NanonisValue::U16(v) => ValueView::U16(*v),
            NanonisValue::I16(v) => ValueView::I16(*v),
            NanonisValue::U32(v) => ValueView::U32(*v),
            NanonisValue::I32(v) => ValueView::I32(*v),
            NanonisValue::F32(v) => ValueView::F32(*v),
            NanonisValue::F64(v) => ValueView::F64(*v),
            NanonisValue::String(s) => ValueView::Str(s@),
            NanonisValue::ArrayU16(a) => ValueView::ArrayU16(a@),
            NanonisValue::ArrayI16(a) => ValueView::ArrayI16(a@),
            NanonisValue::ArrayU32(a) => ValueView::ArrayU32(a@),
            NanonisValue::ArrayI32(a) => ValueView::ArrayI32(a@),
            NanonisValue::ArrayF32(a) => ValueView::ArrayF32(a@),
            NanonisValue::ArrayF64(a) => ValueView::ArrayF64(a@),
            NanonisValue::ArrayString(a) => ValueView::ArrayString(
                a@.map_values(|s: String| s@),
            ),
            NanonisValue::Array2DF32(a) => ValueView::Array2DF32(a@.map_values(|r: Vec<u32>| r@)),
        }
    }
}

/// What the derived `Debug` of a protocol value renders, as a function of
/// the value.
pub uninterp spec fn value_debug(v: ValueView) -> Seq<char>;

/// `format!("{:?}", value)`: the value's derived `Debug` rendering. Stated:
/// the rendering depends on the value alone. Floating-point values are held
/// as bit patterns, so `F32`, `F64` and their arrays render those integers.
#[verifier::external_body]
pub(crate) fn debug_text(value: &NanonisValue) -> (r: String)
    ensures
        r@ == value_debug(value@),
{
    format!("{value:?}")
}

/// `"Expected {what}, got {value:?}"`.
pub open spec fn type_error_text(what: Seq<char>, v: ValueView) -> Seq<char> {
    "Expected "@ + what + ", got "@ + value_debug(v)
}

/// `"Expected {what}, got {value:?}"` as a type error.
fn type_error(what: &str, value: &NanonisValue) -> (e: NanonisError)
    ensures
        e matches NanonisError::Type(m) && m@ == type_error_text(what@, value@),
{
    let mut m = String::from_str("Expected ");
    m.append(what);
    m.append(", got ");
    let d = debug_text(value);
    m.append(d.as_str());
    NanonisError::Type(m)
}

impl NanonisValue {
    /// Extract the bits of an f32 value with type checking.
    pub fn as_f32(&self) -> (r: Result<u32, NanonisError>)
        ensures
            match self@ {
                ValueView::F32(v) => r == Ok::<u32, NanonisError>(v),
                _ => r matches Err(NanonisError::Type(m)) && m@ == type_error_text("f32"@, self@),
            },
    {
        match self {
            NanonisValue::F32(v) => Ok(*v),
            _ => Err(type_error("f32", self)),
        }
    }

    /// Extract the bits of an f64 value with type checking.
    pub fn as_f64(&self) -> (r: Result<u64, NanonisError>)
        ensures
            match self@ {
                ValueView::F64(v) => r == Ok::<u64, NanonisError>(v),
                _ => r matches Err(NanonisError::Type(m)) && m@ == type_error_text("f64"@, self@),
            },
    {
        match self {
            NanonisValue::F64(v) => Ok(*v),
            _ => Err(type_error("f64", self)),
        }
    }

    /// Extract a u32 value with type checking.
    pub fn as_u32(&self) -> (r: Result<u32, NanonisError>)
        ensures
            match self@ {
                ValueView::U32(v) => r == Ok::<u32, NanonisError>(v),
                _ => r matches Err(NanonisError::Type(m)) && m@ == type_error_text("u32"@, self@),
            },
    {
        match self {
            NanonisValue::U32(v) => Ok(*v),
            _ => Err(type_error("u32", self)),
        }
    }

    /// Extract a string array with type checking.
    pub fn as_string_array(&self) -> (r: Result<&[String], NanonisError>)
        ensures
            match self@ {
                ValueView::ArrayString(a) => r is Ok && r->Ok_0@.map_values(|s: String| s@) == a,
                _ => r matches Err(NanonisError::Type(m)) && m@ == type_error_text("string array"@, self@),
            },
    {
        match self {
            NanonisValue::ArrayString(arr) => Ok(arr.as_slice()),
            _ => Err(type_error("string array", self)),
        }
    }

    /// Extract the bits of an f32 array with type checking.
    pub fn as_f32_array(&self) -> (r: Result<&[u32], NanonisError>)
        ensures
            match self@ {
                ValueView::ArrayF32(a) => r is Ok && r->Ok_0@ == a,
                _ => r matches Err(NanonisError::Type(m)) && m@ == type_error_text("f32 array"@, self@),
            },
    {
        match self {
            NanonisValue::ArrayF32(arr) => Ok(arr.as_slice()),
            _ => Err(type_error("f32 array", self)),
        }
    }
}

/// `Duration::from_secs(secs)`.
pub uninterp spec fn secs_duration(secs: u64) -> std::time::Duration;

/// `std::time::Duration::from_secs`: the duration of `secs` whole seconds.
/// What is stated is only that the same seconds give the same duration.
#[verifier::external_body]
pub(crate) fn duration_from_secs(secs: u64) -> (d: std::time::Duration)
    ensures
        d == secs_duration(secs),
{
    std::time::Duration::from_secs(secs)
}

/// Connection configuration
#[derive(Debug, Clone, Copy)]
pub struct ConnectionConfig {
    pub connect_timeout: std::time::Duration,
    pub read_timeout: std::time::Duration,
    pub write_timeout: std::time::Duration,
}

/// Default connect timeout, in seconds.
pub const DEFAULT_CONNECT_TIMEOUT_SECS: u64 = 5;

/// Default read timeout, in seconds.
pub const DEFAULT_READ_TIMEOUT_SECS: u64 = 10;

/// Default write timeout, in seconds.
pub const DEFAULT_WRITE_TIMEOUT_SECS: u64 = 5;

impl Default for ConnectionConfig {
    fn default() -> (r: Self)
        ensures
            r.connect_timeout == secs_duration(5),
            r.read_timeout == secs_duration(10),
            r.write_timeout == secs_duration(5),
    {
        Self {
            connect_timeout: duration_from_secs(DEFAULT_CONNECT_TIMEOUT_SECS),
            read_timeout: duration_from_secs(DEFAULT_READ_TIMEOUT_SECS),
            write_timeout: duration_from_secs(DEFAULT_WRITE_TIMEOUT_SECS),
        }
    }
}

} // verus!

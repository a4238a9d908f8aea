//! The Nanonis TCP protocol: message headers, the encoding of argument
//! values, the decoding of response bodies and the error block that ends a
//! response.
//!
//! A message is a 40-byte header (the command name NUL-padded to 32 bytes,
//! the body size, a response flag and two bytes of padding, all big-endian)
//! followed by the body. Each value in a body is encoded by a type code:
//! `H`/`h` 16-bit, `I`/`i` 32-bit, `f` 32-bit float, `d` 64-bit float,
//! `*x` an array of `x` whose length precedes it (`+*x`: as a u32 right
//! before the elements, `*x`: as the previous value), `+*c` a list of
//! strings, `*+c` a counted list of strings, `*-c` a counted string and `2f`
//! a row-major 2D f32 array.
use crate::lib_old::{debug_text, value_debug, NanonisError, NanonisValue, ValueView};
use crate::nanonis::be::{dec_u16, dec_u32, dec_u64, enc_u16, enc_u32, enc_u64, push_u16, push_u32, push_u64, read_u16, read_u32, read_u64};
use vstd::prelude::*;
use vstd::string::*;
use vstd::utf8::*;

verus! {

// Protocol constants
pub const COMMAND_SIZE: usize = 32;

pub const HEADER_SIZE: usize = 40;

pub const ERROR_INFO_SIZE: usize = 8;

pub const MAX_RETRY_COUNT: usize = 1000;

pub const MAX_RESPONSE_SIZE: usize = 100 * 1024 * 1024;

pub const RESPONSE_FLAG: u16 = 1;

pub const ZERO_BUFFER: u16 = 0;

// ASCII bytes of the type codes.
pub const CODE_H: u8 = 72;

pub const CODE_LOWER_H: u8 = 104;

pub const CODE_I: u8 = 73;

pub const CODE_LOWER_I: u8 = 105;

pub const CODE_F: u8 = 102;

pub const CODE_D: u8 = 100;

pub const CODE_C: u8 = 99;

pub const CODE_STAR: u8 = 42;

pub const CODE_PLUS: u8 = 43;

pub const CODE_MINUS: u8 = 45;

pub const CODE_TWO: u8 = 50;

// ============================================================================
// Type codes
// ============================================================================

/// Whether `b` holds `x` immediately followed by `y`.
pub open spec fn has_pair(b: Seq<u8>, x: u8, y: u8) -> bool {
    exists|i: int| 0 <= i && i + 1 < b.len() && #[trigger] b[i] == x && b[i + 1] == y
}

/// Whether the type code asks for its length as a u32 before the elements.
pub open spec fn prefixed(b: Seq<u8>) -> bool {
    b.len() > 0 && b[0] == CODE_PLUS
}

fn contains_pair(b: &[u8], x: u8, y: u8) -> (r: bool)
    ensures
        r == has_pair(b@, x, y),
{
    let n = b.len();
    let mut i: usize = 0;
    while n > 0 && i < n - 1
        invariant
            n == b@.len(),
            i <= n,
            forall|j: int| 0 <= j < i && j + 1 < n ==> !(#[trigger] b@[j] == x && b@[j + 1] == y),
        decreases n - i,
    {
        if b[i] == x && b[i + 1] == y {
            return true;
        }
        i = i + 1;
    }
    false
}

fn is_code1(b: &[u8], c: u8) -> (r: bool)
    ensures
        r == (b@ == seq![c]),
{
    if b.len() == 1 && b[0] == c {
        proof {
            assert(b@ =~= seq![c]);
        }
        true
    } else {
        false
    }
}

fn is_code2(b: &[u8], c0: u8, c1: u8) -> (r: bool)
    ensures
        r == (b@ == seq![c0, c1]),
{
    if b.len() == 2 && b[0] == c0 && b[1] == c1 {
        proof {
            assert(b@ =~= seq![c0, c1]);
        }
        true
    } else {
        false
    }
}

fn is_code3(b: &[u8], c0: u8, c1: u8, c2: u8) -> (r: bool)
    ensures
        r == (b@ == seq![c0, c1, c2]),
{
    if b.len() == 3 && b[0] == c0 && b[1] == c1 && b[2] == c2 {
        proof {
            assert(b@ =~= seq![c0, c1, c2]);
        }
        true
    } else {
        false
    }
}

fn is_prefixed(b: &[u8]) -> (r: bool)
    ensures
        r == prefixed(b@),
{
    b.len() > 0 && b[0] == CODE_PLUS
}

// ============================================================================
// Headers
// ============================================================================

/// The command field of a header: the command's bytes, cut or NUL-padded to
/// 32 bytes.
pub open spec fn command_field(command: Seq<u8>) -> Seq<u8> {
    Seq::new(32, |i: int| if i < command.len() { command[i] } else { 0u8 })
}

/// The 40 bytes of the header of a command with a body of `body_size` bytes.
pub open spec fn header_bytes(command: Seq<u8>, body_size: u32) -> Seq<u8> {
    command_field(command) + enc_u32(body_size) + enc_u16(RESPONSE_FLAG) + enc_u16(ZERO_BUFFER)
}

struct MessageHeader {
    command: [u8; COMMAND_SIZE],
    body_size: u32,
    send_response: u16,
    _padding: u16,
}

impl MessageHeader {
    fn new(command: &str, body_size: u32) -> (r: Self)
        ensures
            r.command@ == command_field(command.spec_bytes()),
            r.body_size == body_size,
            r.send_response == RESPONSE_FLAG,
            r._padding == ZERO_BUFFER,
    {
        let cmd_str = command.as_bytes();
        let len = if cmd_str.len() < COMMAND_SIZE {
            cmd_str.len()
        } else {
            COMMAND_SIZE
        };
        let mut cmd_bytes = [0u8; COMMAND_SIZE];
        let mut i: usize = 0;
        while i < len
            invariant
                len <= cmd_str@.len(),
                len <= 32,
                i <= len,
                cmd_bytes@.len() == 32,
                forall|j: int| 0 <= j < i ==> cmd_bytes@[j] == cmd_str@[j],
                forall|j: int| i <= j < 32 ==> cmd_bytes@[j] == 0u8,
            decreases len - i,
        {
            cmd_bytes[i] = cmd_str[i];
            i = i + 1;
        }
        proof {
            assert(cmd_bytes@ =~= command_field(command.spec_bytes()));
        }
        MessageHeader {
            command: cmd_bytes,
            body_size,
            send_response: RESPONSE_FLAG,
            _padding: ZERO_BUFFER,
        }
    }

    fn to_bytes(&self) -> (r: Vec<u8>)
        ensures
            r@ == self.command@ + enc_u32(self.body_size) + enc_u16(self.send_response) + enc_u16(
                self._padding,
            ),
    {
        let mut buf: Vec<u8> = Vec::new();
        let mut i: usize = 0;
        while i < COMMAND_SIZE
            invariant
                i <= 32,
                self.command@.len() == 32,
                buf@ == self.command@.take(i as int),
            decreases 32 - i,
        {
            buf.push(self.command[i]);
            proof {
                assert(self.command@.take(i + 1) =~= self.command@.take(i as int).push(
                    self.command@[i as int],
                ));
            }
            i = i + 1;
        }
        proof {
            assert(self.command@.take(32) =~= self.command@);
        }
        push_u32(&mut buf, self.body_size);
        push_u16(&mut buf, self.send_response);
        push_u16(&mut buf, self._padding);
        buf
    }
}

/// Low-level protocol handling
pub struct Protocol;

impl Protocol {
    /// Create command header with proper padding using safe serialization
    pub fn create_command_header(command: &str, body_size: u32) -> (r: Vec<u8>)
        ensures
            r@ == header_bytes(command.spec_bytes(), body_size),
            r@.len() == HEADER_SIZE,
    {
        let header = MessageHeader::new(command, body_size);
        header.to_bytes()
    }
}


// ============================================================================
// Encoding values
// ============================================================================

/// The length prefix a type code asks for: the count as a u32 when the code
/// starts with `+`, nothing otherwise.
pub open spec fn len_prefix(code: Seq<u8>, count: nat) -> Seq<u8> {
    if prefixed(code) {
        enc_u32(count as u32)
    } else {
        Seq::empty()
    }
}

/// The big-endian bytes of each of `a`, in order.
pub open spec fn u32s_bytes(a: Seq<u32>) -> Seq<u8>
    decreases a.len(),
{
    if a.len() == 0 {
        Seq::empty()
    } else {
        u32s_bytes(a.drop_last()) + enc_u32(a.last())
    }
}

/// The big-endian bytes of each of `a`, in order.
pub open spec fn u64s_bytes(a: Seq<u64>) -> Seq<u8>
    decreases a.len(),
{
    if a.len() == 0 {
        Seq::empty()
    } else {
        u64s_bytes(a.drop_last()) + enc_u64(a.last())
    }
}

/// The bits of each of `a`, reinterpreted as unsigned.
pub open spec fn i32s_as_u32s(a: Seq<i32>) -> Seq<u32> {
    a.map_values(|x: i32| x as u32)
}

/// Each string of `ss` as its UTF-8 length (a u32) followed by its UTF-8
/// bytes.
pub open spec fn strings_bytes(ss: Seq<Seq<char>>) -> Seq<u8>
    decreases ss.len(),
{
    if ss.len() == 0 {
        Seq::empty()
    } else {
        strings_bytes(ss.drop_last()) + enc_u32(encode_utf8(ss.last()).len() as u32) + encode_utf8(
            ss.last(),
        )
    }
}

/// The bytes that encode `v` under the type code `code`, or `None` when the
/// value and the code do not go together.
pub open spec fn serialized(v: ValueView, code: Seq<u8>) -> Option<Seq<u8>> {
    match v {
        ValueView::U16(x) => if code == seq![CODE_H] {
            Some(enc_u16(x))
        } else {
            None
        },
        ValueView::I16(x) => if code == seq![CODE_LOWER_H] {
            Some(enc_u16(x as u16))
        } else {
            None
        },
        ValueView::U32(x) => if code == seq![CODE_I] {
            Some(enc_u32(x))
        } else {
            None
        },
        ValueView::I32(x) => if code == seq![CODE_LOWER_I] {
            Some(enc_u32(x as u32))
        } else {
            None
        },
        ValueView::F32(x) => if code == seq![CODE_F] {
            Some(enc_u32(x))
        } else {
            None
        },
        ValueView::F64(x) => if code == seq![CODE_D] {
            Some(enc_u64(x))
        } else {
            None
        },
        ValueView::Str(s) => if has_pair(code, CODE_STAR, CODE_C) {
            Some(len_prefix(code, encode_utf8(s).len()) + encode_utf8(s))
        } else {
            None
        },
        ValueView::ArrayString(ss) => if code == seq![CODE_STAR, CODE_PLUS, CODE_C] {
            Some(strings_bytes(ss))
        } else {
            None
        },
        ValueView::ArrayI32(a) => if has_pair(code, CODE_STAR, CODE_LOWER_I) {
            Some(len_prefix(code, a.len()) + u32s_bytes(i32s_as_u32s(a)))
        } else {
            None
        },
        ValueView::ArrayU32(a) => if has_pair(code, CODE_STAR, CODE_I) {
            Some(len_prefix(code, a.len()) + u32s_bytes(a))
        } else {
            None
        },
        ValueView::ArrayF32(a) => if has_pair(code, CODE_STAR, CODE_F) {
            Some(len_prefix(code, a.len()) + u32s_bytes(a))
        } else {
            None
        },
        ValueView::ArrayF64(a) => if has_pair(code, CODE_STAR, CODE_D) {
            Some(len_prefix(code, a.len()) + u64s_bytes(a))
        } else {
            None
        },
        _ => None,
    }
}

fn push_bytes(buffer: &mut Vec<u8>, bytes: &[u8])
    ensures
        final(buffer)@ == old(buffer)@ + bytes@,
{
    let n = bytes.len();
    let mut i: usize = 0;
    while i < n
        invariant
            n == bytes@.len(),
            i <= n,
            buffer@ == old(buffer)@ + bytes@.take(i as int),
        decreases n - i,
    {
        buffer.push(bytes[i]);
        proof {
            assert(bytes@.take(i + 1) =~= bytes@.take(i as int).push(bytes@[i as int]));
        }
        i = i + 1;
    }
    proof {
        assert(bytes@.take(n as int) =~= bytes@);
    }
}

fn push_len_prefix(buffer: &mut Vec<u8>, code: &[u8], count: usize)
    ensures
        final(buffer)@ == old(buffer)@ + len_prefix(code@, count as nat),
{
    if is_prefixed(code) {
        push_u32(buffer, #[verifier::truncate] (count as u32));
    } else {
        proof {
            assert(buffer@ =~= old(buffer)@ + len_prefix(code@, count as nat));
        }
    }
}

fn push_u32s(buffer: &mut Vec<u8>, a: &[u32])
    ensures
        final(buffer)@ == old(buffer)@ + u32s_bytes(a@),
{
    let n = a.len();
    let mut i: usize = 0;
    while i < n
        invariant
            n == a@.len(),
            i <= n,
            buffer@ == old(buffer)@ + u32s_bytes(a@.take(i as int)),
        decreases n - i,
    {
        proof {
            assert(a@.take(i + 1).drop_last() =~= a@.take(i as int));
        }
        push_u32(buffer, a[i]);
        proof {
            assert(buffer@ =~= old(buffer)@ + u32s_bytes(a@.take(i + 1)));
        }
        i = i + 1;
    }
    proof {
        assert(a@.take(n as int) =~= a@);
    }
}

fn push_i32s(buffer: &mut Vec<u8>, a: &[i32])
    ensures
        final(buffer)@ == old(buffer)@ + u32s_bytes(i32s_as_u32s(a@)),
{
    let n = a.len();
    let mut i: usize = 0;
    while i < n
        invariant
            n == a@.len(),
            i <= n,
            buffer@ == old(buffer)@ + u32s_bytes(i32s_as_u32s(a@.take(i as int))),
        decreases n - i,
    {
        proof {
            assert(i32s_as_u32s(a@.take(i + 1)).drop_last() =~= i32s_as_u32s(a@.take(i as int)));
        }
        push_u32(buffer, #[verifier::truncate] (a[i] as u32));
        proof {
            assert(buffer@ =~= old(buffer)@ + u32s_bytes(i32s_as_u32s(a@.take(i + 1))));
        }
        i = i + 1;
    }
    proof {
        assert(a@.take(n as int) =~= a@);
    }
}

fn push_u64s(buffer: &mut Vec<u8>, a: &[u64])
    ensures
        final(buffer)@ == old(buffer)@ + u64s_bytes(a@),
{
    let n = a.len();
    let mut i: usize = 0;
    while i < n
        invariant
            n == a@.len(),
            i <= n,
            buffer@ == old(buffer)@ + u64s_bytes(a@.take(i as int)),
        decreases n - i,
    {
        proof {
            assert(a@.take(i + 1).drop_last() =~= a@.take(i as int));
        }
        push_u64(buffer, a[i]);
        proof {
            assert(buffer@ =~= old(buffer)@ + u64s_bytes(a@.take(i + 1)));
        }
        i = i + 1;
    }
    proof {
        assert(a@.take(n as int) =~= a@);
    }
}

fn push_strings(buffer: &mut Vec<u8>, ss: &[String])
    ensures
        final(buffer)@ == old(buffer)@ + strings_bytes(ss@.map_values(|s: String| s@)),
{
    let n = ss.len();
    let mut i: usize = 0;
    while i < n
        invariant
            n == ss@.len(),
            i <= n,
            buffer@ == old(buffer)@ + strings_bytes(ss@.map_values(|s: String| s@).take(i as int)),
        decreases n - i,
    {
        let ghost views = ss@.map_values(|s: String| s@);
        proof {
            assert(views.take(i + 1).drop_last() =~= views.take(i as int));
        }
        let bytes = ss[i].as_str().as_bytes();
        push_u32(buffer, #[verifier::truncate] (bytes.len() as u32));
        push_bytes(buffer, bytes);
        proof {
            assert(buffer@ =~= old(buffer)@ + strings_bytes(views.take(i + 1)));
        }
        i = i + 1;
    }
    proof {
        assert(ss@.map_values(|s: String| s@).take(n as int) =~= ss@.map_values(|s: String| s@));
    }
}

/// `"Unsupported type combination: {value:?} with {body_type}"`.
pub open spec fn unsupported_text(v: ValueView, body_type: Seq<char>) -> Seq<char> {
    "Unsupported type combination: "@ + value_debug(v) + " with "@ + body_type
}

/// The message refusing a value that its type code does not take.
fn unsupported_combination(value: &NanonisValue, body_type: &str) -> (r: String)
    ensures
        r@ == unsupported_text(value@, body_type@),
{
    let mut m = String::from_str("Unsupported type combination: ");
    let d = debug_text(value);
    m.append(d.as_str());
    m.append(" with ");
    m.append(body_type);
    m
}

impl Protocol {
    /// Serialize a value according to its type specification, appending its
    /// bytes to `buffer`. A value that the type code does not take is
    /// refused with a type error and nothing is written.
    pub fn serialize_value(value: &NanonisValue, body_type: &str, buffer: &mut Vec<u8>) -> (r:
        Result<(), NanonisError>)
        ensures
            match serialized(value@, body_type.spec_bytes()) {
                Some(bytes) => r is Ok && final(buffer)@ == old(buffer)@ + bytes,
                None => r matches Err(NanonisError::Type(m)) && m@ == unsupported_text(
                    value@,
                    body_type@,
                ) && final(buffer)@ == old(buffer)@,
            },
    {
        let t = body_type.as_bytes();
        match value {
            NanonisValue::U16(v) => {
                if is_code1(t, CODE_H) {
                    push_u16(buffer, *v);
                    return Ok(());
                }
            },
            NanonisValue::I16(v) => {
                if is_code1(t, CODE_LOWER_H) {
                    push_u16(buffer, #[verifier::truncate] (*v as u16));
                    return Ok(());
                }
            },
            NanonisValue::U32(v) => {
                if is_code1(t, CODE_I) {
                    push_u32(buffer, *v);
                    return Ok(());
                }
            },
            NanonisValue::I32(v) => {
                if is_code1(t, CODE_LOWER_I) {
                    push_u32(buffer, #[verifier::truncate] (*v as u32));
                    return Ok(());
                }
            },
            NanonisValue::F32(v) => {
                if is_code1(t, CODE_F) {
                    push_u32(buffer, *v);
                    return Ok(());
                }
            },
            NanonisValue::F64(v) => {
                if is_code1(t, CODE_D) {
                    push_u64(buffer, *v);
                    return Ok(());
                }
            },
            NanonisValue::String(s) => {
                if contains_pair(t, CODE_STAR, CODE_C) {
                    let bytes = s.as_str().as_bytes();
                    push_len_prefix(buffer, t, bytes.len());
                    push_bytes(buffer, bytes);
                    return Ok(());
                }
            },
            NanonisValue::ArrayString(arr) => {
                if is_code3(t, CODE_STAR, CODE_PLUS, CODE_C) {
                    push_strings(buffer, arr.as_slice());
                    return Ok(());
                }
            },
            NanonisValue::ArrayI32(arr) => {
                if contains_pair(t, CODE_STAR, CODE_LOWER_I) {
                    push_len_prefix(buffer, t, arr.len());
                    push_i32s(buffer, arr.as_slice());
                    return Ok(());
                }
            },
            NanonisValue::ArrayU32(arr) => {
                if contains_pair(t, CODE_STAR, CODE_I) {
                    push_len_prefix(buffer, t, arr.len());
                    push_u32s(buffer, arr.as_slice());
                    return Ok(());
                }
            },
            NanonisValue::ArrayF32(arr) => {
                if contains_pair(t, CODE_STAR, CODE_F) {
                    push_len_prefix(buffer, t, arr.len());
                    push_u32s(buffer, arr.as_slice());
                    return Ok(());
                }
            },
            NanonisValue::ArrayF64(arr) => {
                if contains_pair(t, CODE_STAR, CODE_D) {
                    push_len_prefix(buffer, t, arr.len());
                    push_u64s(buffer, arr.as_slice());
                    return Ok(());
                }
            },
            _ => {},
        }
        Err(NanonisError::Type(unsupported_combination(value, body_type)))
    }
}


// ============================================================================
// Decoding responses
// ============================================================================

/// What `String::from_utf8_lossy` makes of `bytes`.
pub uninterp spec fn utf8_lossy(bytes: Seq<u8>) -> Seq<char>;

/// `String::from_utf8_lossy`, owned: the characters that `bytes` encode,
/// with each invalid sequence replaced by U+FFFD. Stated: the result depends
/// on the bytes alone, and valid UTF-8 decodes to exactly its characters.
#[verifier::external_body]
pub(crate) fn string_from_utf8_lossy(bytes: &[u8]) -> (s: String)
    ensures
        s@ == utf8_lossy(bytes@),
        valid_utf8(bytes@) ==> s@ == decode_utf8(bytes@),
{
    String::from_utf8_lossy(bytes).into_owned()
}

/// `std::io::Error::from(std::io::ErrorKind::UnexpectedEof)`: the error a
/// read past the end of the data gives.
#[verifier::external_body]
fn unexpected_eof() -> std::io::Error {
    std::io::Error::from(std::io::ErrorKind::UnexpectedEof)
}

/// Why a response body does not decode.
pub enum ParseFail {
    /// The body ends before the value does.
    Eof,
    /// An array without a `+` prefix is the first value.
    LengthNotSpecified,
    /// An array without a `+` prefix follows a value that is no count.
    LengthNotFound,
    /// `*+c` does not follow a count.
    StringCountNotFound,
    /// `*-c` does not follow a count.
    StringLengthNotFound,
    /// `2f` follows fewer than two values.
    DimensionsNotFound,
    /// The row count before `2f` is no `i` value.
    InvalidRows,
    /// The column count before `2f` is no `i` value.
    InvalidCols,
    /// The type code is none of the known ones.
    Unsupported(Seq<char>),
}

/// Whether `e` is the error that `parse_response` reports for `f`.
pub open spec fn fails_with(e: NanonisError, f: ParseFail) -> bool {
    match f {
        ParseFail::Eof => e is Io,
        ParseFail::LengthNotSpecified => e matches NanonisError::Protocol(m) && m@
            == "Array length not specified"@,
        ParseFail::LengthNotFound => e matches NanonisError::Protocol(m) && m@
            == "Array length not found"@,
        ParseFail::StringCountNotFound => e matches NanonisError::Protocol(m) && m@
            == "String count not found for *+c type"@,
        ParseFail::StringLengthNotFound => e matches NanonisError::Protocol(m) && m@
            == "String length not found for *-c type"@,
        ParseFail::DimensionsNotFound => e matches NanonisError::Protocol(m) && m@
            == "2D array dimensions not found"@,
        ParseFail::InvalidRows => e matches NanonisError::Protocol(m) && m@
            == "Invalid row count for 2D array"@,
        ParseFail::InvalidCols => e matches NanonisError::Protocol(m) && m@
            == "Invalid column count for 2D array"@,
        ParseFail::Unsupported(t) => e matches NanonisError::Type(m) && m@
            == "Unsupported response type: "@ + t,
    }
}

/// `n` u32s stored big-endian from `pos` on.
pub open spec fn u32s_at(resp: Seq<u8>, pos: int, n: nat) -> Seq<u32> {
    Seq::new(n, |k: int| dec_u32(resp.subrange((pos + 4 * k) as int, (pos + 4 * k + 4) as int)))
}

/// `n` u64s stored big-endian from `pos` on.
pub open spec fn u64s_at(resp: Seq<u8>, pos: int, n: nat) -> Seq<u64> {
    Seq::new(n, |k: int| dec_u64(resp.subrange((pos + 8 * k) as int, (pos + 8 * k + 8) as int)))
}

/// The bits of each of `a`, reinterpreted as signed.
pub open spec fn u32s_as_i32s(a: Seq<u32>) -> Seq<i32> {
    a.map_values(|x: u32| x as i32)
}

/// `n` length-prefixed strings from `pos` on, and where they end.
pub open spec fn strings_at(resp: Seq<u8>, pos: nat, n: nat) -> Option<(Seq<Seq<char>>, nat)>
    decreases n,
{
    if n == 0 {
        Some((Seq::empty(), pos))
    } else {
        match strings_at(resp, pos, (n - 1) as nat) {
            None => None,
            Some((ss, p)) => if p + 4 <= resp.len() {
                let l = (dec_u32(resp.subrange(p as int, (p + 4) as int)) as usize) as nat;
                if p + 4 + l <= resp.len() {
                    Some((ss.push(decoded_lossy(resp.subrange((p + 4) as int, (p + 4 + l) as int))), p + 4 + l))
                } else {
                    None
                }
            } else {
                None
            },
        }
    }
}

/// `rows` rows of `cols` f32 bit patterns from `pos` on, and where they end.
pub open spec fn rows_at(resp: Seq<u8>, pos: nat, rows: nat, cols: nat) -> Option<
    (Seq<Seq<u32>>, nat),
>
    decreases rows,
{
    if rows == 0 {
        Some((Seq::empty(), pos))
    } else {
        match rows_at(resp, pos, (rows - 1) as nat, cols) {
            None => None,
            Some((rs, p)) => if p + 4 * cols <= resp.len() {
                Some((rs.push(u32s_at(resp, p as int, cols)), p + 4 * cols))
            } else {
                None
            },
        }
    }
}

/// The count a value stands for, when it is a `U32` or an `I32`.
pub open spec fn count_of(v: ValueView) -> Option<nat> {
    match v {
        ValueView::U32(n) => Some((n as usize) as nat),
        ValueView::I32(n) => Some((n as usize) as nat),
        _ => None,
    }
}

/// The element count of an array under type code `b`, and where its
/// elements begin.
pub open spec fn array_len(resp: Seq<u8>, pos: nat, b: Seq<u8>, prev: Seq<ValueView>) -> Result<
    (nat, nat),
    ParseFail,
> {
    if prefixed(b) {
        if pos + 4 <= resp.len() {
            Ok(((dec_u32(resp.subrange(pos as int, (pos + 4) as int)) as usize) as nat, pos + 4))
        } else {
            Err(ParseFail::Eof)
        }
    } else if prev.len() == 0 {
        Err(ParseFail::LengthNotSpecified)
    } else {
        match count_of(prev.last()) {
            Some(n) => Ok((n, pos)),
            None => Err(ParseFail::LengthNotFound),
        }
    }
}

/// The value of type `t` that starts at `pos`, after the values `prev`, and
/// where it ends.
pub open spec fn parse_value(resp: Seq<u8>, pos: nat, t: Seq<char>, prev: Seq<ValueView>) -> Result<
    (ValueView, nat),
    ParseFail,
> {
    let b = encode_utf8(t);
    let len = resp.len();
    if b == seq![CODE_H] {
        if pos + 2 <= len {
            Ok((ValueView::U16(dec_u16(resp.subrange(pos as int, (pos + 2) as int))), pos + 2))
        } else {
            Err(ParseFail::Eof)
        }
    } else if b == seq![CODE_LOWER_H] {
        if pos + 2 <= len {
            Ok((ValueView::I16(dec_u16(resp.subrange(pos as int, (pos + 2) as int)) as i16), pos + 2))
        } else {
            Err(ParseFail::Eof)
        }
    } else if b == seq![CODE_I] {
        if pos + 4 <= len {
            Ok((ValueView::U32(dec_u32(resp.subrange(pos as int, (pos + 4) as int))), pos + 4))
        } else {
            Err(ParseFail::Eof)
        }
    } else if b == seq![CODE_LOWER_I] {
        if pos + 4 <= len {
            Ok((ValueView::I32(dec_u32(resp.subrange(pos as int, (pos + 4) as int)) as i32), pos + 4))
        } else {
            Err(ParseFail::Eof)
        }
    } else if b == seq![CODE_F] {
        if pos + 4 <= len {
            Ok((ValueView::F32(dec_u32(resp.subrange(pos as int, (pos + 4) as int))), pos + 4))
        } else {
            Err(ParseFail::Eof)
        }
    } else if b == seq![CODE_D] {
        if pos + 8 <= len {
            Ok((ValueView::F64(dec_u64(resp.subrange(pos as int, (pos + 8) as int))), pos + 8))
        } else {
            Err(ParseFail::Eof)
        }
    } else if has_pair(b, CODE_STAR, CODE_F) {
        match array_len(resp, pos, b, prev) {
            Err(f) => Err(f),
            Ok((n, p)) => if p + 4 * n <= len {
                Ok((ValueView::ArrayF32(u32s_at(resp, p as int, n)), p + 4 * n))
            } else {
                Err(ParseFail::Eof)
            },
        }
    } else if has_pair(b, CODE_STAR, CODE_D) {
        match array_len(resp, pos, b, prev) {
            Err(f) => Err(f),
            Ok((n, p)) => if p + 8 * n <= len {
                Ok((ValueView::ArrayF64(u64s_at(resp, p as int, n)), p + 8 * n))
            } else {
                Err(ParseFail::Eof)
            },
        }
    } else if has_pair(b, CODE_STAR, CODE_LOWER_I) {
        match array_len(resp, pos, b, prev) {
            Err(f) => Err(f),
            Ok((n, p)) => if p + 4 * n <= len {
                Ok((ValueView::ArrayI32(u32s_as_i32s(u32s_at(resp, p as int, n))), p + 4 * n))
            } else {
                Err(ParseFail::Eof)
            },
        }
    } else if b == seq![CODE_PLUS, CODE_STAR, CODE_C] {
        if pos + 8 <= len {
            let count = (dec_u32(resp.subrange((pos + 4) as int, (pos + 8) as int)) as usize) as nat;
            match strings_at(resp, pos + 8, count) {
                Some((ss, p)) => Ok((ValueView::ArrayString(ss), p)),
                None => Err(ParseFail::Eof),
            }
        } else {
            Err(ParseFail::Eof)
        }
    } else if b == seq![CODE_STAR, CODE_PLUS, CODE_C] {
        match if prev.len() == 0 {
            None
        } else {
            count_of(prev.last())
        } {
            None => Err(ParseFail::StringCountNotFound),
            Some(n) => match strings_at(resp, pos, n) {
                Some((ss, p)) => Ok((ValueView::ArrayString(ss), p)),
                None => Err(ParseFail::Eof),
            },
        }
    } else if b == seq![CODE_STAR, CODE_MINUS, CODE_C] {
        match if prev.len() == 0 {
            None
        } else {
            count_of(prev.last())
        } {
            None => Err(ParseFail::StringLengthNotFound),
            Some(n) => if pos + n <= len {
                Ok((ValueView::Str(decoded_lossy(resp.subrange(pos as int, (pos + n) as int))), pos + n))
            } else {
                Err(ParseFail::Eof)
            },
        }
    } else if b == seq![CODE_TWO, CODE_F] {
        if prev.len() < 2 {
            Err(ParseFail::DimensionsNotFound)
        } else {
            match prev[prev.len() - 2] {
                ValueView::I32(r) => match prev[prev.len() - 1] {
                    ValueView::I32(c) => match rows_at(
                        resp,
                        pos,
                        (r as usize) as nat,
                        (c as usize) as nat,
                    ) {
                        Some((rs, p)) => Ok((ValueView::Array2DF32(rs), p)),
                        None => Err(ParseFail::Eof),
                    },
                    _ => Err(ParseFail::InvalidCols),
                },
                _ => Err(ParseFail::InvalidRows),
            }
        }
    } else {
        Err(ParseFail::Unsupported(t))
    }
}

/// The values of types `types` that `resp` begins with, and where they end.
pub open spec fn parse_all(resp: Seq<u8>, types: Seq<Seq<char>>) -> Result<
    (Seq<ValueView>, nat),
    ParseFail,
>
    decreases types.len(),
{
    if types.len() == 0 {
        Ok((Seq::empty(), 0))
    } else {
        match parse_all(resp, types.drop_last()) {
            Err(f) => Err(f),
            Ok((vs, pos)) => match parse_value(resp, pos, types.last(), vs) {
                Err(f) => Err(f),
                Ok((v, p)) => Ok((vs.push(v), p)),
            },
        }
    }
}

/// The views of `vs`.
pub open spec fn views(vs: Seq<NanonisValue>) -> Seq<ValueView> {
    vs.map_values(|v: NanonisValue| v@)
}

/// The characters of each type code.
pub open spec fn type_codes(types: Seq<&str>) -> Seq<Seq<char>> {
    types.map_values(|t: &str| t@)
}

proof fn lemma_strings_fail_stays(resp: Seq<u8>, pos: nat, k: nat, n: nat)
    requires
        k <= n,
        strings_at(resp, pos, k) is None,
    ensures
        strings_at(resp, pos, n) is None,
    decreases n - k,
{
    if k < n {
        lemma_strings_fail_stays(resp, pos, k + 1, n);
    }
}

proof fn lemma_rows_fail_stays(resp: Seq<u8>, pos: nat, k: nat, n: nat, cols: nat)
    requires
        k <= n,
        rows_at(resp, pos, k, cols) is None,
    ensures
        rows_at(resp, pos, n, cols) is None,
    decreases n - k,
{
    if k < n {
        lemma_rows_fail_stays(resp, pos, k + 1, n, cols);
    }
}

fn eof_error() -> (e: NanonisError)
    ensures
        e is Io,
{
    NanonisError::Io { source: unexpected_eof(), context: String::from_str("Failed to read response data") }
}

fn protocol_error(msg: &str) -> (e: NanonisError)
    ensures
        e matches NanonisError::Protocol(m) && m@ == msg@,
{
    NanonisError::Protocol(String::from_str(msg))
}

/// The u32 stored big-endian at `pos`, if the data reaches that far.
fn u32_at(resp: &[u8], pos: usize) -> (r: Option<u32>)
    ensures
        pos + 4 <= resp@.len() ==> r == Some(dec_u32(resp@.subrange(pos as int, pos + 4))),
        pos + 4 > resp@.len() ==> r is None,
        r is Some ==> pos + 4 <= resp@.len() <= usize::MAX,
{
    if pos <= resp.len() && resp.len() - pos >= 4 {
        let s = vstd::slice::slice_subrange(resp, pos, pos + 4);
        Some(read_u32(s))
    } else {
        None
    }
}

fn u16_at(resp: &[u8], pos: usize) -> (r: Option<u16>)
    ensures
        pos + 2 <= resp@.len() ==> r == Some(dec_u16(resp@.subrange(pos as int, pos + 2))),
        pos + 2 > resp@.len() ==> r is None,
        r is Some ==> pos + 2 <= resp@.len() <= usize::MAX,
{
    if pos <= resp.len() && resp.len() - pos >= 2 {
        let s = vstd::slice::slice_subrange(resp, pos, pos + 2);
        Some(read_u16(s))
    } else {
        None
    }
}

fn u64_at(resp: &[u8], pos: usize) -> (r: Option<u64>)
    ensures
        pos + 8 <= resp@.len() ==> r == Some(dec_u64(resp@.subrange(pos as int, pos + 8))),
        pos + 8 > resp@.len() ==> r is None,
        r is Some ==> pos + 8 <= resp@.len() <= usize::MAX,
{
    if pos <= resp.len() && resp.len() - pos >= 8 {
        let s = vstd::slice::slice_subrange(resp, pos, pos + 8);
        Some(read_u64(s))
    } else {
        None
    }
}

/// `n` u32s from `pos` on, and where they end, if the data reaches that far.
fn u32s_from(resp: &[u8], pos: usize, n: usize) -> (r: Option<(Vec<u32>, usize)>)
    requires
        pos <= resp@.len(),
    ensures
        pos + 4 * n <= resp@.len() ==> (r matches Some((a, p)) && a@ == u32s_at(
            resp@,
            pos as int,
            n as nat,
        ) && p == pos + 4 * n),
        pos + 4 * n > resp@.len() ==> r is None,
{
    let mut out: Vec<u32> = Vec::new();
    let mut p = pos;
    let mut k: usize = 0;
    while k < n
        invariant
            pos <= resp@.len(),
            k <= n,
            p == pos + 4 * k,
            p <= resp@.len(),
            out@ == u32s_at(resp@, pos as int, k as nat),
        decreases n - k,
    {
        match u32_at(resp, p) {
            None => {
                return None;
            },
            Some(x) => {
                out.push(x);
                proof {
                    assert(out@ =~= u32s_at(resp@, pos as int, (k + 1) as nat));
                }
                p = p + 4;
                k = k + 1;
            },
        }
    }
    Some((out, p))
}

/// `n` u64s from `pos` on, and where they end, if the data reaches that far.
fn u64s_from(resp: &[u8], pos: usize, n: usize) -> (r: Option<(Vec<u64>, usize)>)
    requires
        pos <= resp@.len(),
    ensures
        pos + 8 * n <= resp@.len() ==> (r matches Some((a, p)) && a@ == u64s_at(
            resp@,
            pos as int,
            n as nat,
        ) && p == pos + 8 * n),
        pos + 8 * n > resp@.len() ==> r is None,
{
    let mut out: Vec<u64> = Vec::new();
    let mut p = pos;
    let mut k: usize = 0;
    while k < n
        invariant
            pos <= resp@.len(),
            k <= n,
            p == pos + 8 * k,
            p <= resp@.len(),
            out@ == u64s_at(resp@, pos as int, k as nat),
        decreases n - k,
    {
        match u64_at(resp, p) {
            None => {
                return None;
            },
            Some(x) => {
                out.push(x);
                proof {
                    assert(out@ =~= u64s_at(resp@, pos as int, (k + 1) as nat));
                }
                p = p + 8;
                k = k + 1;
            },
        }
    }
    Some((out, p))
}

fn as_i32s(a: Vec<u32>) -> (r: Vec<i32>)
    ensures
        r@ == u32s_as_i32s(a@),
{
    let mut out: Vec<i32> = Vec::new();
    let n = a.len();
    let mut k: usize = 0;
    while k < n
        invariant
            n == a@.len(),
            k <= n,
            out@ == u32s_as_i32s(a@.take(k as int)),
        decreases n - k,
    {
        out.push(#[verifier::truncate] (a[k] as i32));
        proof {
            assert(out@ =~= u32s_as_i32s(a@.take(k + 1)));
        }
        k = k + 1;
    }
    proof {
        assert(a@.take(n as int) =~= a@);
    }
    out
}

/// `n` length-prefixed strings from `pos` on, and where they end.
fn strings_from(resp: &[u8], pos: usize, n: usize) -> (r: Option<(Vec<String>, usize)>)
    requires
        pos <= resp@.len(),
    ensures
        match strings_at(resp@, pos as nat, n as nat) {
            Some((ss, p)) => r matches Some((v, q)) && v@.map_values(|s: String| s@) == ss && q
                == p,
            None => r is None,
        },
{
    let mut out: Vec<String> = Vec::new();
    let mut p = pos;
    let mut k: usize = 0;
    while k < n
        invariant
            pos <= resp@.len(),
            k <= n,
            p <= resp@.len(),
            strings_at(resp@, pos as nat, k as nat) == Some(
                (out@.map_values(|s: String| s@), p as nat),
            ),
        decreases n - k,
    {
        match u32_at(resp, p) {
            None => {
                proof {
                    lemma_strings_fail_stays(resp@, pos as nat, (k + 1) as nat, n as nat);
                }
                return None;
            },
            Some(l32) => {
                let l = l32 as usize;
                if resp.len() - (p + 4) < l {
                    proof {
                        lemma_strings_fail_stays(resp@, pos as nat, (k + 1) as nat, n as nat);
                    }
                    return None;
                }
                let bytes = vstd::slice::slice_subrange(resp, p + 4, p + 4 + l);
                let s = string_from_utf8_lossy(bytes);
                let ghost before = out@.map_values(|s: String| s@);
                out.push(s);
                proof {
                    assert(out@.map_values(|s: String| s@) =~= before.push(s@));
                }
                p = p + 4 + l;
                k = k + 1;
            },
        }
    }
    Some((out, p))
}

/// `rows` rows of `cols` f32 bit patterns from `pos` on, and where they end.
fn rows_from(resp: &[u8], pos: usize, rows: usize, cols: usize) -> (r: Option<
    (Vec<Vec<u32>>, usize),
>)
    requires
        pos <= resp@.len(),
    ensures
        match rows_at(resp@, pos as nat, rows as nat, cols as nat) {
            Some((rs, p)) => r matches Some((v, q)) && v@.map_values(|r: Vec<u32>| r@) == rs && q
                == p,
            None => r is None,
        },
{
    let mut out: Vec<Vec<u32>> = Vec::new();
    let mut p = pos;
    let mut k: usize = 0;
    while k < rows
        invariant
            pos <= resp@.len(),
            k <= rows,
            p <= resp@.len(),
            rows_at(resp@, pos as nat, k as nat, cols as nat) == Some(
                (out@.map_values(|r: Vec<u32>| r@), p as nat),
            ),
        decreases rows - k,
    {
        match u32s_from(resp, p, cols) {
            None => {
                proof {
                    lemma_rows_fail_stays(resp@, pos as nat, (k + 1) as nat, rows as nat, cols as nat);
                }
                return None;
            },
            Some((row, q)) => {
                let ghost before = out@.map_values(|r: Vec<u32>| r@);
                out.push(row);
                proof {
                    assert(out@.map_values(|r: Vec<u32>| r@) =~= before.push(
                        u32s_at(resp@, p as int, cols as nat),
                    ));
                }
                p = q;
                k = k + 1;
            },
        }
    }
    Some((out, p))
}

/// The count that `prev`'s last value stands for.
fn last_count(prev: &Vec<NanonisValue>) -> (r: Option<usize>)
    ensures
        prev@.len() == 0 ==> r is None,
        prev@.len() > 0 ==> match count_of(views(prev@).last()) {
            Some(n) => r == Some(n as usize),
            None => r is None,
        },
{
    if prev.len() == 0 {
        return None;
    }
    match &prev[prev.len() - 1] {
        NanonisValue::U32(n) => Some(*n as usize),
        NanonisValue::I32(n) => Some(#[verifier::truncate] (*n as usize)),
        _ => None,
    }
}

/// The element count of an array under type code `b`, and where its
/// elements begin.
fn array_len_of(resp: &[u8], pos: usize, b: &[u8], prev: &Vec<NanonisValue>) -> (r: Result<
    (usize, usize),
    NanonisError,
>)
    requires
        pos <= resp@.len(),
    ensures
        match array_len(resp@, pos as nat, b@, views(prev@)) {
            Ok((n, p)) => r matches Ok((m, q)) && m == n && q == p,
            Err(f) => r is Err && fails_with(r->Err_0, f),
        },
{
    if is_prefixed(b) {
        match u32_at(resp, pos) {
            Some(n) => Ok((n as usize, pos + 4)),
            None => Err(eof_error()),
        }
    } else if prev.len() == 0 {
        Err(protocol_error("Array length not specified"))
    } else {
        match last_count(prev) {
            Some(n) => Ok((n, pos)),
            None => Err(protocol_error("Array length not found")),
        }
    }
}

fn parse_value_at(resp: &[u8], pos: usize, t: &str, prev: &Vec<NanonisValue>) -> (r: Result<
    (NanonisValue, usize),
    NanonisError,
>)
    requires
        pos <= resp@.len(),
    ensures
        match parse_value(resp@, pos as nat, t@, views(prev@)) {
            Ok((v, p)) => r matches Ok((w, q)) && w@ == v && q == p,
            Err(f) => r is Err && fails_with(r->Err_0, f),
        },
{
    let b = t.as_bytes();
    if is_code1(b, CODE_H) {
        match u16_at(resp, pos) {
            Some(x) => Ok((NanonisValue::U16(x), pos + 2)),
            None => Err(eof_error()),
        }
    } else if is_code1(b, CODE_LOWER_H) {
        match u16_at(resp, pos) {
            Some(x) => Ok((NanonisValue::I16(#[verifier::truncate] (x as i16)), pos + 2)),
            None => Err(eof_error()),
        }
    } else if is_code1(b, CODE_I) {
        match u32_at(resp, pos) {
            Some(x) => Ok((NanonisValue::U32(x), pos + 4)),
            None => Err(eof_error()),
        }
    } else if is_code1(b, CODE_LOWER_I) {
        match u32_at(resp, pos) {
            Some(x) => Ok((NanonisValue::I32(#[verifier::truncate] (x as i32)), pos + 4)),
            None => Err(eof_error()),
        }
    } else if is_code1(b, CODE_F) {
        match u32_at(resp, pos) {
            Some(x) => Ok((NanonisValue::F32(x), pos + 4)),
            None => Err(eof_error()),
        }
    } else if is_code1(b, CODE_D) {
        match u64_at(resp, pos) {
            Some(x) => Ok((NanonisValue::F64(x), pos + 8)),
            None => Err(eof_error()),
        }
    } else if contains_pair(b, CODE_STAR, CODE_F) {
        let (n, p) = array_len_of(resp, pos, b, prev)?;
        match u32s_from(resp, p, n) {
            Some((a, q)) => Ok((NanonisValue::ArrayF32(a), q)),
            None => Err(eof_error()),
        }
    } else if contains_pair(b, CODE_STAR, CODE_D) {
        let (n, p) = array_len_of(resp, pos, b, prev)?;
        match u64s_from(resp, p, n) {
            Some((a, q)) => Ok((NanonisValue::ArrayF64(a), q)),
            None => Err(eof_error()),
        }
    } else if contains_pair(b, CODE_STAR, CODE_LOWER_I) {
        let (n, p) = array_len_of(resp, pos, b, prev)?;
        match u32s_from(resp, p, n) {
            Some((a, q)) => Ok((NanonisValue::ArrayI32(as_i32s(a)), q)),
            None => Err(eof_error()),
        }
    } else if is_code3(b, CODE_PLUS, CODE_STAR, CODE_C) {
        if resp.len() - pos < 8 {
            return Err(eof_error());
        }
        match u32_at(resp, pos + 4) {
            Some(count) => {
                match strings_from(resp, pos + 8, count as usize) {
                    Some((ss, q)) => Ok((NanonisValue::ArrayString(ss), q)),
                    None => Err(eof_error()),
                }
            },
            None => Err(eof_error()),
        }
    } else if is_code3(b, CODE_STAR, CODE_PLUS, CODE_C) {
        match last_count(prev) {
            None => Err(protocol_error("String count not found for *+c type")),
            Some(n) => match strings_from(resp, pos, n) {
                Some((ss, q)) => Ok((NanonisValue::ArrayString(ss), q)),
                None => Err(eof_error()),
            },
        }
    } else if is_code3(b, CODE_STAR, CODE_MINUS, CODE_C) {
        match last_count(prev) {
            None => Err(protocol_error("String length not found for *-c type")),
            Some(n) => {
                if resp.len() - pos < n {
                    return Err(eof_error());
                }
                let bytes = vstd::slice::slice_subrange(resp, pos, pos + n);
                Ok((NanonisValue::String(string_from_utf8_lossy(bytes)), pos + n))
            },
        }
    } else if is_code2(b, CODE_TWO, CODE_F) {
        let k = prev.len();
        if k < 2 {
            return Err(protocol_error("2D array dimensions not found"));
        }
        match &prev[k - 2] {
            NanonisValue::I32(rows) => match &prev[k - 1] {
                NanonisValue::I32(cols) => match rows_from(
                    resp,
                    pos,
                    #[verifier::truncate] (*rows as usize),
                    #[verifier::truncate] (*cols as usize),
                ) {
                    Some((rs, q)) => Ok((NanonisValue::Array2DF32(rs), q)),
                    None => Err(eof_error()),
                },
                _ => Err(protocol_error("Invalid column count for 2D array")),
            },
            _ => Err(protocol_error("Invalid row count for 2D array")),
        }
    } else {
        let mut m = String::from_str("Unsupported response type: ");
        m.append(t);
        Err(NanonisError::Type(m))
    }
}

impl Protocol {
    fn parse_with_cursor(response: &[u8], response_types: &[&str]) -> (r: Result<
        (Vec<NanonisValue>, usize),
        NanonisError,
    >)
        ensures
            match parse_all(response@, type_codes(response_types@)) {
                Ok((vs, p)) => r matches Ok((ws, q)) && views(ws@) == vs && q == p,
                Err(f) => r is Err && fails_with(r->Err_0, f),
            },
    {
        let mut result: Vec<NanonisValue> = Vec::new();
        let mut pos: usize = 0;
        let n = response_types.len();
        let mut i: usize = 0;
        proof {
            assert(type_codes(response_types@).take(0) =~= Seq::<Seq<char>>::empty());
            assert(views(result@) =~= Seq::<ValueView>::empty());
        }
        while i < n
            invariant
                n == response_types@.len(),
                i <= n,
                pos <= response@.len(),
                parse_all(response@, type_codes(response_types@).take(i as int)) == Ok::<
                    (Seq<ValueView>, nat),
                    ParseFail,
                >((views(result@), pos as nat)),
            decreases n - i,
        {
            let ghost types = type_codes(response_types@);
            proof {
                assert(types.take(i + 1).drop_last() =~= types.take(i as int));
                assert(types.take(i + 1).last() == response_types@[i as int]@);
            }
            let (v, p) = match parse_value_at(response, pos, response_types[i], &result) {
                Ok(x) => x,
                Err(e) => {
                    proof {
                        lemma_parse_fail_stays(response@, types, (i + 1) as nat);
                    }
                    return Err(e);
                },
            };
            proof {
                lemma_parse_value_end(response@, pos as nat, response_types@[i as int]@, views(result@));
            }
            let ghost before = views(result@);
            result.push(v);
            proof {
                assert(views(result@) =~= before.push(v@));
            }
            pos = p;
            i = i + 1;
        }
        proof {
            assert(type_codes(response_types@).take(n as int) =~= type_codes(response_types@));
        }
        Ok((result, pos))
    }

    /// Parse response data according to type specifications
    pub fn parse_response(response: &[u8], response_types: &[&str]) -> (r: Result<
        Vec<NanonisValue>,
        NanonisError,
    >)
        ensures
            match parse_all(response@, type_codes(response_types@)) {
                Ok((vs, _)) => r is Ok && views(r->Ok_0@) == vs,
                Err(f) => r is Err && fails_with(r->Err_0, f),
            },
    {
        match Self::parse_with_cursor(response, response_types) {
            Ok((vs, _)) => Ok(vs),
            Err(e) => Err(e),
        }
    }
}

proof fn lemma_parse_fail_stays(resp: Seq<u8>, types: Seq<Seq<char>>, k: nat)
    requires
        k <= types.len(),
        parse_all(resp, types.take(k as int)) is Err,
    ensures
        parse_all(resp, types) == parse_all(resp, types.take(k as int)),
    decreases types.len() - k,
{
    if k < types.len() {
        assert(types.take(k + 1 as int).drop_last() =~= types.take(k as int));
        lemma_parse_fail_stays(resp, types, k + 1);
    } else {
        assert(types.take(k as int) =~= types);
    }
}

proof fn lemma_strings_end(resp: Seq<u8>, pos: nat, n: nat)
    requires
        pos <= resp.len(),
    ensures
        strings_at(resp, pos, n) matches Some((_, p)) ==> pos <= p <= resp.len(),
    decreases n,
{
    if n > 0 {
        lemma_strings_end(resp, pos, (n - 1) as nat);
    }
}

proof fn lemma_rows_end(resp: Seq<u8>, pos: nat, n: nat, cols: nat)
    requires
        pos <= resp.len(),
    ensures
        rows_at(resp, pos, n, cols) matches Some((_, p)) ==> pos <= p <= resp.len(),
    decreases n,
{
    if n > 0 {
        lemma_rows_end(resp, pos, (n - 1) as nat, cols);
    }
}

/// A value that parses ends within the data.
proof fn lemma_parse_value_end(resp: Seq<u8>, pos: nat, t: Seq<char>, prev: Seq<ValueView>)
    requires
        pos <= resp.len(),
    ensures
        parse_value(resp, pos, t, prev) matches Ok((_, p)) ==> pos <= p <= resp.len(),
{
    lemma_strings_end(resp, pos, (dec_u32(resp.subrange((pos + 4) as int, (pos + 8) as int)) as usize) as nat);
    if pos + 8 <= resp.len() {
        lemma_strings_end(resp, pos + 8, (dec_u32(resp.subrange((pos + 4) as int, (pos + 8) as int)) as usize) as nat);
    }
    if prev.len() > 0 {
        match count_of(prev.last()) {
            Some(n) => lemma_strings_end(resp, pos, n),
            None => {},
        }
    }
    if prev.len() >= 2 {
        match prev[prev.len() - 2] {
            ValueView::I32(r) => match prev[prev.len() - 1] {
                ValueView::I32(c) => lemma_rows_end(resp, pos, (r as usize) as nat, (c as usize) as nat),
                _ => {},
            },
            _ => {},
        }
    }
}


// ============================================================================
// Text helpers: trimming
// ============================================================================

/// Whether `c` has the Unicode `White_Space` property, which is what
/// `char::is_whitespace` and `str::trim` go by.
pub open spec fn is_white_space(c: char) -> bool {
    let u = c as u32;
    (0x9 <= u && u <= 0xD) || u == 0x20 || u == 0x85 || u == 0xA0 || u == 0x1680 || (0x2000 <= u
        && u <= 0x200A) || u == 0x2028 || u == 0x2029 || u == 0x202F || u == 0x205F || u == 0x3000
}

/// `s` without its leading white space.
pub open spec fn trim_start(s: Seq<char>) -> Seq<char>
    decreases s.len(),
{
    if s.len() > 0 && is_white_space(s[0]) {
        trim_start(s.drop_first())
    } else {
        s
    }
}

/// `s` without its trailing white space.
pub open spec fn trim_end(s: Seq<char>) -> Seq<char>
    decreases s.len(),
{
    if s.len() > 0 && is_white_space(s.last()) {
        trim_end(s.drop_last())
    } else {
        s
    }
}

/// `s` without leading or trailing white space, as `str::trim` gives it.
pub open spec fn trim(s: Seq<char>) -> Seq<char> {
    trim_end(trim_start(s))
}

/// `s` without its trailing copies of `c`, as `str::trim_end_matches(c)`
/// gives it.
pub open spec fn trim_end_char(s: Seq<char>, c: char) -> Seq<char>
    decreases s.len(),
{
    if s.len() > 0 && s.last() == c {
        trim_end_char(s.drop_last(), c)
    } else {
        s
    }
}

fn white_space(c: char) -> (r: bool)
    ensures
        r == is_white_space(c),
{
    let u = c as u32;
    (0x9 <= u && u <= 0xD) || u == 0x20 || u == 0x85 || u == 0xA0 || u == 0x1680 || (0x2000 <= u
        && u <= 0x200A) || u == 0x2028 || u == 0x2029 || u == 0x202F || u == 0x205F || u == 0x3000
}

/// `s` trimmed of white space at both ends.
pub fn trim_str(s: &str) -> (r: String)
    ensures
        r@ == trim(s@),
{
    let n = s.unicode_len();
    let mut start: usize = 0;
    proof {
        assert(s@.subrange(0, n as int) =~= s@);
    }
    while start < n && white_space(s.get_char(start))
        invariant
            n == s@.len(),
            start <= n,
            trim_start(s@) == trim_start(s@.subrange(start as int, n as int)),
        decreases n - start,
    {
        proof {
            assert(s@.subrange(start as int, n as int).drop_first() =~= s@.subrange(
                start + 1,
                n as int,
            ));
        }
        start = start + 1;
    }
    proof {
        assert(trim_start(s@.subrange(start as int, n as int)) == s@.subrange(start as int, n as int));
    }
    let mut end: usize = n;
    while end > start && white_space(s.get_char(end - 1))
        invariant
            n == s@.len(),
            start <= end <= n,
            trim_end(s@.subrange(start as int, n as int)) == trim_end(
                s@.subrange(start as int, end as int),
            ),
        decreases end,
    {
        proof {
            assert(s@.subrange(start as int, end as int).drop_last() =~= s@.subrange(
                start as int,
                end - 1,
            ));
        }
        end = end - 1;
    }
    let t = s.substring_char(start, end);
    String::from_str(t)
}

/// `s` without its trailing copies of `c`.
fn trim_end_matches_char(s: &str, c: char) -> (r: String)
    ensures
        r@ == trim_end_char(s@, c),
{
    let n = s.unicode_len();
    let mut end: usize = n;
    proof {
        assert(s@.subrange(0, n as int) =~= s@);
    }
    while end > 0 && s.get_char(end - 1) == c
        invariant
            n == s@.len(),
            end <= n,
            trim_end_char(s@, c) == trim_end_char(s@.subrange(0, end as int), c),
        decreases end,
    {
        proof {
            assert(s@.subrange(0, end as int).drop_last() =~= s@.subrange(0, end - 1));
        }
        end = end - 1;
    }
    proof {
        if end == n {
            assert(s@.subrange(0, n as int) =~= s@);
        }
    }
    let t = s.substring_char(0, end);
    String::from_str(t)
}

/// `std::str::from_utf8`, with its error dropped: the characters of `bytes`
/// when they are valid UTF-8, `None` otherwise.
#[verifier::external_body]
pub(crate) fn str_from_utf8(bytes: &[u8]) -> (r: Option<&str>)
    ensures
        r.is_some() == valid_utf8(bytes@),
        r matches Some(s) ==> s@ == decode_utf8(bytes@),
{
    std::str::from_utf8(bytes).ok()
}

// ============================================================================
// Response headers and the error block
// ============================================================================

/// The characters that `bytes` decode to, lossily where they are not
/// valid UTF-8.
pub open spec fn decoded_lossy(bytes: Seq<u8>) -> Seq<char> {
    if valid_utf8(bytes) {
        decode_utf8(bytes)
    } else {
        utf8_lossy(bytes)
    }
}

/// The command name a response header carries: its first 32 bytes, decoded,
/// without trailing NULs and then without trailing `'0'` characters.
pub open spec fn received_command(header: Seq<u8>) -> Seq<char> {
    trim_end_char(trim_end_char(decoded_lossy(header.subrange(0, 32)), '\0'), '0')
}

/// What the error block at `cursor` reports.
pub enum ErrorInfo {
    /// No block, an empty message, or a message of white space only.
    Clean,
    /// The message is longer than the data.
    Truncated,
    /// The message is not UTF-8.
    InvalidUtf8,
    /// The controller reported this status and (trimmed) message.
    Server(i32, Seq<char>),
}

/// What the error block that starts at `cursor` in `body` reports.
pub open spec fn error_info(body: Seq<u8>, cursor: nat) -> ErrorInfo {
    if cursor > body.len() || body.len() - cursor < 8 {
        ErrorInfo::Clean
    } else {
        let status = dec_u32(body.subrange(cursor as int, cursor + 4int)) as i32;
        let size = ((dec_u32(body.subrange(cursor + 4int, cursor + 8int)) as i32) as usize) as nat;
        if size > 0 {
            if cursor + 8 + size > body.len() {
                ErrorInfo::Truncated
            } else {
                let m = body.subrange(cursor + 8int, cursor + 8int + size);
                if !valid_utf8(m) {
                    ErrorInfo::InvalidUtf8
                } else if trim(decode_utf8(m)).len() > 0 {
                    ErrorInfo::Server(status, trim(decode_utf8(m)))
                } else {
                    ErrorInfo::Clean
                }
            }
        } else {
            ErrorInfo::Clean
        }
    }
}

/// Whether `r` is what `parse_error_info` returns for `info`.
pub open spec fn reports(r: Result<(), NanonisError>, info: ErrorInfo) -> bool {
    match info {
        ErrorInfo::Clean => r is Ok,
        ErrorInfo::Truncated => r matches Err(NanonisError::Protocol(m)) && m@
            == "Error message truncated"@,
        ErrorInfo::InvalidUtf8 => r matches Err(NanonisError::Protocol(m)) && m@
            == "Invalid UTF-8 in error message"@,
        ErrorInfo::Server(code, msg) => r matches Err(NanonisError::ServerError { code: c, message })
            && c == code && message@ == msg,
    }
}

impl Protocol {
    /// Parse error information from the end of a response body using safe
    /// slice operations
    pub fn parse_error_info(body: &[u8], data_end_cursor: usize) -> (r: Result<(), NanonisError>)
        ensures
            reports(r, error_info(body@, data_end_cursor as nat)),
    {
        let n = body.len();
        if data_end_cursor > n || n - data_end_cursor < ERROR_INFO_SIZE {
            return Ok(());
        }
        let c = data_end_cursor;
        let status = match u32_at(body, c) {
            Some(x) => #[verifier::truncate] (x as i32),
            None => {
                return Ok(());
            },
        };
        let size = match u32_at(body, c + 4) {
            Some(x) => #[verifier::truncate] ((#[verifier::truncate] (x as i32)) as usize),
            None => {
                return Ok(());
            },
        };
        if size > 0 {
            if n - (c + 8) < size {
                return Err(protocol_error("Error message truncated"));
            }
            let message_slice = vstd::slice::slice_subrange(body, c + 8, c + 8 + size);
            match str_from_utf8(message_slice) {
                None => {
                    return Err(protocol_error("Invalid UTF-8 in error message"));
                },
                Some(error_msg) => {
                    let trimmed = trim_str(error_msg);
                    if trimmed.as_str().unicode_len() > 0 {
                        return Err(NanonisError::ServerError { code: status, message: trimmed });
                    }
                },
            }
        }
        Ok(())
    }

    /// Validate command response header: the body size it announces when it
    /// answers `expected_command`, a command mismatch otherwise.
    pub fn validate_response_header(header: &[u8; HEADER_SIZE], expected_command: &str) -> (r:
        Result<u32, NanonisError>)
        ensures
            received_command(header@) == expected_command@ ==> r == Ok::<u32, NanonisError>(
                dec_u32(header@.subrange(32, 36)),
            ),
            received_command(header@) != expected_command@ ==> (r matches Err(
                NanonisError::CommandMismatch { expected, actual },
            ) && expected@ == expected_command@ && actual@ == received_command(header@)),
    {
        let h = header.as_slice();
        let size_bytes = vstd::slice::slice_subrange(h, 32, 36);
        let response_body_size = read_u32(size_bytes);
        let command_bytes = vstd::slice::slice_subrange(h, 0, COMMAND_SIZE);
        let decoded = string_from_utf8_lossy(command_bytes);
        let without_nuls = trim_end_matches_char(decoded.as_str(), '\0');
        let received = trim_end_matches_char(without_nuls.as_str(), '0');
        let expected = String::from_str(expected_command);
        proof {
            assert(size_bytes@ =~= header@.subrange(32, 36));
            assert(command_bytes@ =~= header@.subrange(0, 32));
        }
        if received == expected {
            Ok(response_body_size)
        } else {
            Err(NanonisError::CommandMismatch { expected, actual: received })
        }
    }

    /// Parse response with error checking: the values, unless the error
    /// block after them reports an error.
    pub fn parse_response_with_error_check(response: &[u8], response_types: &[&str]) -> (r: Result<
        Vec<NanonisValue>,
        NanonisError,
    >)
        ensures
            match parse_all(response@, type_codes(response_types@)) {
                Ok((vs, cursor)) => match error_info(response@, cursor) {
                    ErrorInfo::Clean => r is Ok && views(r->Ok_0@) == vs,
                    info => r is Err && reports(Err(r->Err_0), info),
                },
                Err(f) => r is Err && fails_with(r->Err_0, f),
            },
    {
        let (values, cursor) = Self::parse_with_cursor(response, response_types)?;
        match Self::parse_error_info(response, cursor) {
            Ok(()) => Ok(values),
            Err(e) => Err(e),
        }
    }

    /// Check a response body size before reading it: sizes above
    /// `MAX_RESPONSE_SIZE` are refused.
    pub fn check_response_size(size: usize) -> (r: Result<(), NanonisError>)
        ensures
            size <= MAX_RESPONSE_SIZE ==> r is Ok,
            size > MAX_RESPONSE_SIZE ==> (r matches Err(NanonisError::Protocol(m)) && m@
                == "Response size "@ + crate::text::decimal_text(size as nat) + " exceeds maximum "@
                + crate::text::decimal_text(MAX_RESPONSE_SIZE as nat)),
    {
        if size > MAX_RESPONSE_SIZE {
            let mut m = String::from_str("Response size ");
            crate::text::append_decimal(&mut m, size as u64);
            m.append(" exceeds maximum ");
            crate::text::append_decimal(&mut m, MAX_RESPONSE_SIZE as u64);
            return Err(NanonisError::Protocol(m));
        }
        Ok(())
    }
}


// ============================================================================
// Laws: what a parse gives back of a serialization
// ============================================================================

/// Whether a value written under type code `t` reads back as itself under
/// the same code: the scalar codes, and the `+`-prefixed numeric arrays
/// whose length fits the u32 prefix.
pub open spec fn roundtrips(v: ValueView, t: Seq<char>) -> bool {
    let b = encode_utf8(t);
    match v {
        ValueView::U16(_) => b == seq![CODE_H],
        ValueView::I16(_) => b == seq![CODE_LOWER_H],
        ValueView::U32(_) => b == seq![CODE_I],
        ValueView::I32(_) => b == seq![CODE_LOWER_I],
        ValueView::F32(_) => b == seq![CODE_F],
        ValueView::F64(_) => b == seq![CODE_D],
        ValueView::ArrayI32(a) => b == seq![CODE_PLUS, CODE_STAR, CODE_LOWER_I] && a.len()
            <= u32::MAX,
        ValueView::ArrayF32(a) => b == seq![CODE_PLUS, CODE_STAR, CODE_F] && a.len() <= u32::MAX,
        ValueView::ArrayF64(a) => b == seq![CODE_PLUS, CODE_STAR, CODE_D] && a.len() <= u32::MAX,
        _ => false,
    }
}

/// The body that serializing each of `vs` under the matching code of `ts`,
/// in order, writes.
pub open spec fn serialized_all(vs: Seq<ValueView>, ts: Seq<Seq<char>>) -> Seq<u8>
    decreases vs.len(),
{
    if vs.len() == 0 || ts.len() == 0 {
        Seq::empty()
    } else {
        serialized_all(vs.drop_last(), ts.drop_last()) + match serialized(
            vs.last(),
            encode_utf8(ts.last()),
        ) {
            Some(b) => b,
            None => Seq::empty(),
        }
    }
}

proof fn lemma_u32s_layout(a: Seq<u32>)
    ensures
        u32s_bytes(a).len() == 4 * a.len(),
        forall|k: int|
            0 <= k < a.len() ==> #[trigger] u32s_bytes(a).subrange(4 * k, 4 * k + 4) == enc_u32(a[k]),
    decreases a.len(),
{
    if a.len() > 0 {
        let d = a.drop_last();
        lemma_u32s_layout(d);
        let bd = u32s_bytes(d);
        let b = u32s_bytes(a);
        assert(b == bd + enc_u32(a.last()));
        assert forall|k: int| 0 <= k < a.len() implies #[trigger] b.subrange(4 * k, 4 * k + 4)
            == enc_u32(a[k]) by {
            if k < d.len() {
                assert(b.subrange(4 * k, 4 * k + 4) =~= bd.subrange(4 * k, 4 * k + 4));
                assert(d[k] == a[k]);
            } else {
                assert(b.subrange(4 * k, 4 * k + 4) =~= enc_u32(a.last()));
            }
        }
    }
}

proof fn lemma_u64s_layout(a: Seq<u64>)
    ensures
        u64s_bytes(a).len() == 8 * a.len(),
        forall|k: int|
            0 <= k < a.len() ==> #[trigger] u64s_bytes(a).subrange(8 * k, 8 * k + 8) == enc_u64(a[k]),
    decreases a.len(),
{
    if a.len() > 0 {
        let d = a.drop_last();
        lemma_u64s_layout(d);
        let bd = u64s_bytes(d);
        let b = u64s_bytes(a);
        assert(b == bd + enc_u64(a.last()));
        crate::nanonis::be::lemma_u64_roundtrip(a.last());
        assert forall|k: int| 0 <= k < a.len() implies #[trigger] b.subrange(8 * k, 8 * k + 8)
            == enc_u64(a[k]) by {
            if k < d.len() {
                assert(b.subrange(8 * k, 8 * k + 8) =~= bd.subrange(8 * k, 8 * k + 8));
                assert(d[k] == a[k]);
            } else {
                assert(b.subrange(8 * k, 8 * k + 8) =~= enc_u64(a.last()));
            }
        }
    }
}

proof fn lemma_u32s_read_back(resp: Seq<u8>, p: int, a: Seq<u32>)
    requires
        0 <= p,
        p + 4 * a.len() <= resp.len(),
        resp.subrange(p, p + 4 * a.len()) == u32s_bytes(a),
    ensures
        u32s_at(resp, p, a.len()) == a,
{
    lemma_u32s_layout(a);
    assert forall|k: int| 0 <= k < a.len() implies #[trigger] u32s_at(resp, p, a.len())[k] == a[k] by {
        assert(resp.subrange(p + 4 * k, p + 4 * k + 4) =~= u32s_bytes(a).subrange(4 * k, 4 * k + 4));
        crate::nanonis::be::lemma_u32_roundtrip(a[k]);
    }
    assert(u32s_at(resp, p, a.len()) =~= a);
}

proof fn lemma_u64s_read_back(resp: Seq<u8>, p: int, a: Seq<u64>)
    requires
        0 <= p,
        p + 8 * a.len() <= resp.len(),
        resp.subrange(p, p + 8 * a.len()) == u64s_bytes(a),
    ensures
        u64s_at(resp, p, a.len()) == a,
{
    lemma_u64s_layout(a);
    assert forall|k: int| 0 <= k < a.len() implies #[trigger] u64s_at(resp, p, a.len())[k] == a[k] by {
        assert(resp.subrange(p + 8 * k, p + 8 * k + 8) =~= u64s_bytes(a).subrange(8 * k, 8 * k + 8));
        crate::nanonis::be::lemma_u64_roundtrip(a[k]);
    }
    assert(u64s_at(resp, p, a.len()) =~= a);
}

proof fn lemma_i16_bits(x: i16)
    ensures
        (x as u16) as i16 == x,
{
    assert((x as u16) as i16 == x) by (bit_vector);
}

proof fn lemma_i32_bits(x: i32)
    ensures
        (x as u32) as i32 == x,
{
    assert((x as u32) as i32 == x) by (bit_vector);
}

proof fn lemma_i32s_bits(a: Seq<i32>)
    ensures
        u32s_as_i32s(i32s_as_u32s(a)) == a,
{
    assert forall|k: int| 0 <= k < a.len() implies #[trigger] u32s_as_i32s(i32s_as_u32s(a))[k]
        == a[k] by {
        lemma_i32_bits(a[k]);
    }
    assert(u32s_as_i32s(i32s_as_u32s(a)) =~= a);
}

proof fn lemma_no_pair3(b: Seq<u8>, c0: u8, c1: u8, c2: u8, x: u8, y: u8)
    requires
        b == seq![c0, c1, c2],
        !(c0 == x && c1 == y),
        !(c1 == x && c2 == y),
    ensures
        !has_pair(b, x, y),
{
    if has_pair(b, x, y) {
        let i = choose|i: int| 0 <= i && i + 1 < b.len() && #[trigger] b[i] == x && b[i + 1] == y;
        assert(i == 0 || i == 1);
    }
}

proof fn lemma_pair3(b: Seq<u8>, c0: u8, c1: u8, c2: u8)
    requires
        b == seq![c0, c1, c2],
    ensures
        has_pair(b, c1, c2),
{
    assert(b[1] == c1 && b[2] == c2);
}

/// The common premise of the read-back lemmas: `v` round-trips under `t`
/// and its bytes stand at `pos` in `resp`.
pub open spec fn serialized_at(resp: Seq<u8>, pos: nat, v: ValueView, t: Seq<char>) -> bool {
    &&& roundtrips(v, t)
    &&& serialized(v, encode_utf8(t)) matches Some(bytes) && pos + bytes.len() <= resp.len()
        && resp.subrange(pos as int, pos as int + bytes.len()) == bytes
}

/// What reading `v` back under `t` at `pos` gives when `v` was serialized
/// there.
pub open spec fn reads_back(resp: Seq<u8>, pos: nat, v: ValueView, t: Seq<char>, prev: Seq<
    ValueView,
>) -> bool {
    parse_value(resp, pos, t, prev) == Ok::<(ValueView, nat), ParseFail>(
        (v, pos + serialized(v, encode_utf8(t))->Some_0.len()),
    )
}

#[verifier::spinoff_prover]
proof fn lemma_read_back_scalar(resp: Seq<u8>, pos: nat, v: ValueView, t: Seq<char>, prev: Seq<
    ValueView,
>)
    requires
        serialized_at(resp, pos, v, t),
        v is U16 || v is I16 || v is U32 || v is I32 || v is F32 || v is F64,
    ensures
        reads_back(resp, pos, v, t, prev),
{
    match v {
        ValueView::U16(x) => {
            crate::nanonis::be::lemma_u16_roundtrip(x);
        },
        ValueView::I16(x) => {
            crate::nanonis::be::lemma_u16_roundtrip(x as u16);
            lemma_i16_bits(x);
        },
        ValueView::U32(x) => {
            crate::nanonis::be::lemma_u32_roundtrip(x);
        },
        ValueView::I32(x) => {
            crate::nanonis::be::lemma_u32_roundtrip(x as u32);
            lemma_i32_bits(x);
        },
        ValueView::F32(x) => {
            crate::nanonis::be::lemma_u32_roundtrip(x);
        },
        ValueView::F64(x) => {
            crate::nanonis::be::lemma_u64_roundtrip(x);
        },
        _ => {},
    }
}

#[verifier::spinoff_prover]
proof fn lemma_read_back_i32s(resp: Seq<u8>, pos: nat, a: Seq<i32>, t: Seq<char>, prev: Seq<
    ValueView,
>)
    requires
        serialized_at(resp, pos, ValueView::ArrayI32(a), t),
    ensures
        reads_back(resp, pos, ValueView::ArrayI32(a), t, prev),
{
    let b = encode_utf8(t);
    let bytes = serialized(ValueView::ArrayI32(a), b)->Some_0;
    lemma_no_pair3(b, CODE_PLUS, CODE_STAR, CODE_LOWER_I, CODE_STAR, CODE_F);
    lemma_no_pair3(b, CODE_PLUS, CODE_STAR, CODE_LOWER_I, CODE_STAR, CODE_D);
    lemma_pair3(b, CODE_PLUS, CODE_STAR, CODE_LOWER_I);
    let n = a.len();
    crate::nanonis::be::lemma_u32_roundtrip(n as u32);
    let u = i32s_as_u32s(a);
    let body = u32s_bytes(u);
    lemma_u32s_layout(u);
    assert(bytes =~= enc_u32(n as u32) + body);
    assert(resp.subrange(pos as int, pos as int + 4) =~= bytes.subrange(0, 4));
    assert(resp.subrange(pos as int + 4, pos as int + 4 + 4 * (n as int)) =~= bytes.subrange(
        4,
        4 + 4 * (n as int),
    ));
    assert(bytes.subrange(4, 4 + 4 * (n as int)) =~= body);
    lemma_u32s_read_back(resp, pos as int + 4, u);
    lemma_i32s_bits(a);
}

#[verifier::spinoff_prover]
proof fn lemma_read_back_f32s(resp: Seq<u8>, pos: nat, a: Seq<u32>, t: Seq<char>, prev: Seq<
    ValueView,
>)
    requires
        serialized_at(resp, pos, ValueView::ArrayF32(a), t),
    ensures
        reads_back(resp, pos, ValueView::ArrayF32(a), t, prev),
{
    let b = encode_utf8(t);
    let bytes = serialized(ValueView::ArrayF32(a), b)->Some_0;
    lemma_pair3(b, CODE_PLUS, CODE_STAR, CODE_F);
    let n = a.len();
    crate::nanonis::be::lemma_u32_roundtrip(n as u32);
    let body = u32s_bytes(a);
    lemma_u32s_layout(a);
    assert(bytes =~= enc_u32(n as u32) + body);
    assert(resp.subrange(pos as int, pos as int + 4) =~= bytes.subrange(0, 4));
    assert(resp.subrange(pos as int + 4, pos as int + 4 + 4 * (n as int)) =~= bytes.subrange(
        4,
        4 + 4 * (n as int),
    ));
    assert(bytes.subrange(4, 4 + 4 * (n as int)) =~= body);
    lemma_u32s_read_back(resp, pos as int + 4, a);
}

#[verifier::spinoff_prover]
proof fn lemma_read_back_f64s(resp: Seq<u8>, pos: nat, a: Seq<u64>, t: Seq<char>, prev: Seq<
    ValueView,
>)
    requires
        serialized_at(resp, pos, ValueView::ArrayF64(a), t),
    ensures
        reads_back(resp, pos, ValueView::ArrayF64(a), t, prev),
{
    let b = encode_utf8(t);
    let bytes = serialized(ValueView::ArrayF64(a), b)->Some_0;
    lemma_no_pair3(b, CODE_PLUS, CODE_STAR, CODE_D, CODE_STAR, CODE_F);
    lemma_pair3(b, CODE_PLUS, CODE_STAR, CODE_D);
    let n = a.len();
    crate::nanonis::be::lemma_u32_roundtrip(n as u32);
    let body = u64s_bytes(a);
    lemma_u64s_layout(a);
    assert(bytes =~= enc_u32(n as u32) + body);
    assert(resp.subrange(pos as int, pos as int + 4) =~= bytes.subrange(0, 4));
    assert(resp.subrange(pos as int + 4, pos as int + 4 + 8 * (n as int)) =~= bytes.subrange(
        4,
        4 + 8 * (n as int),
    ));
    assert(bytes.subrange(4, 4 + 8 * (n as int)) =~= body);
    lemma_u64s_read_back(resp, pos as int + 4, a);
}

/// A value that round-trips, serialized at `pos`, parses back as itself
/// and ends where its bytes end.
proof fn lemma_parse_value_of_serialized(
    resp: Seq<u8>,
    pos: nat,
    v: ValueView,
    t: Seq<char>,
    prev: Seq<ValueView>,
)
    requires
        serialized_at(resp, pos, v, t),
    ensures
        reads_back(resp, pos, v, t, prev),
{
    match v {
        ValueView::ArrayI32(a) => lemma_read_back_i32s(resp, pos, a, t, prev),
        ValueView::ArrayF32(a) => lemma_read_back_f32s(resp, pos, a, t, prev),
        ValueView::ArrayF64(a) => lemma_read_back_f64s(resp, pos, a, t, prev),
        _ => lemma_read_back_scalar(resp, pos, v, t, prev),
    }
}

/// Serializing values under codes that round-trip and parsing the body
/// (whatever follows it) under the same codes gives the values back, and
/// the parse ends where the serialized values end.
#[verifier::spinoff_prover]
#[verifier::rlimit(60)]
pub proof fn law_parse_reads_back_what_serialize_wrote(
    vs: Seq<ValueView>,
    ts: Seq<Seq<char>>,
    extra: Seq<u8>,
)
    requires
        vs.len() == ts.len(),
        forall|i: int| 0 <= i < vs.len() ==> roundtrips(#[trigger] vs[i], ts[i]),
    ensures
        parse_all(serialized_all(vs, ts) + extra, ts) == Ok::<(Seq<ValueView>, nat), ParseFail>(
            (vs, serialized_all(vs, ts).len()),
        ),
    decreases vs.len(),
{
    if vs.len() > 0 {
        let dv = vs.drop_last();
        let dt = ts.drop_last();
        let head = serialized_all(dv, dt);
        let v = vs.last();
        let t = ts.last();
        assert(roundtrips(vs[vs.len() - 1], ts[vs.len() - 1]));
        let bytes = serialized(v, encode_utf8(t))->Some_0;
        assert forall|i: int| 0 <= i < dv.len() implies roundtrips(#[trigger] dv[i], dt[i]) by {
            assert(dv[i] == vs[i]);
            assert(dt[i] == ts[i]);
        }
        law_parse_reads_back_what_serialize_wrote(dv, dt, bytes + extra);
        let resp = serialized_all(vs, ts) + extra;
        assert(resp =~= head + (bytes + extra));
        assert(resp.subrange(head.len() as int, head.len() as int + bytes.len()) =~= bytes);
        lemma_parse_value_of_serialized(resp, head.len(), v, t, dv);
        assert(vs =~= dv.push(v));
    } else {
        assert(vs =~= Seq::<ValueView>::empty());
    }
}


/// The body that serializing each of `vs` under the matching code of `ts`
/// writes, up to the shorter of the two, or `None` when some value and its
/// code do not go together.
pub open spec fn request_body(vs: Seq<ValueView>, ts: Seq<Seq<char>>) -> Option<Seq<u8>>
    decreases vs.len() + ts.len(),
{
    if vs.len() == 0 || ts.len() == 0 {
        Some(Seq::empty())
    } else if vs.len() > ts.len() {
        request_body(vs.take(ts.len() as int), ts)
    } else if ts.len() > vs.len() {
        request_body(vs, ts.take(vs.len() as int))
    } else {
        match request_body(vs.drop_last(), ts.drop_last()) {
            None => None,
            Some(head) => match serialized(vs.last(), encode_utf8(ts.last())) {
                None => None,
                Some(b) => Some(head + b),
            },
        }
    }
}

pub proof fn lemma_request_body_fail_stays(vs: Seq<ValueView>, ts: Seq<Seq<char>>, k: nat)
    requires
        k <= vs.len(),
        k <= ts.len(),
        request_body(vs.take(k as int), ts.take(k as int)) is None,
    ensures
        request_body(vs, ts) is None,
    decreases vs.len() + ts.len() - 2 * k,
{
    let m = if vs.len() < ts.len() {
        vs.len()
    } else {
        ts.len()
    };
    if k < m {
        assert(vs.take(k + 1 as int).drop_last() =~= vs.take(k as int));
        assert(ts.take(k + 1 as int).drop_last() =~= ts.take(k as int));
        lemma_request_body_fail_stays(vs, ts, k + 1);
    } else {
        lemma_request_body_prefix_none(vs, ts, k);
    }
}

proof fn lemma_request_body_prefix_none(vs: Seq<ValueView>, ts: Seq<Seq<char>>, k: nat)
    requires
        k <= vs.len(),
        k <= ts.len(),
        k == vs.len() || k == ts.len(),
        request_body(vs.take(k as int), ts.take(k as int)) is None,
    ensures
        request_body(vs, ts) is None,
{
    lemma_request_body_prefix(vs, ts, k);
}

/// Whether pair `k` is the first whose value its code does not take.
pub open spec fn first_refused(vs: Seq<ValueView>, ts: Seq<Seq<char>>, k: int) -> bool {
    &&& 0 <= k < vs.len()
    &&& k < ts.len()
    &&& serialized(vs[k], encode_utf8(ts[k])) is None
    &&& forall|j: int| 0 <= j < k ==> (#[trigger] serialized(vs[j], encode_utf8(ts[j]))) is Some
}


/// The body of the first `min` pairs is the body of the whole lists.
pub proof fn lemma_request_body_prefix(vs: Seq<ValueView>, ts: Seq<Seq<char>>, k: nat)
    requires
        k <= vs.len(),
        k <= ts.len(),
        k == vs.len() || k == ts.len(),
    ensures
        request_body(vs, ts) == request_body(vs.take(k as int), ts.take(k as int)),
{
    if k == vs.len() && k == ts.len() {
        assert(vs.take(k as int) =~= vs);
        assert(ts.take(k as int) =~= ts);
    } else if k == vs.len() {
        assert(vs.take(k as int) =~= vs);
        if vs.len() == 0 {
        } else {
            assert(ts.take(vs.len() as int) == ts.take(k as int));
            assert(request_body(vs.take(k as int), ts.take(k as int)) == request_body(
                vs,
                ts.take(k as int),
            ));
        }
    } else {
        assert(ts.take(k as int) =~= ts);
        if ts.len() == 0 {
        } else {
            assert(vs.take(ts.len() as int) == vs.take(k as int));
        }
    }
}


/// `c` repeated `n` times.
pub open spec fn repeated(c: char, n: nat) -> Seq<char> {
    Seq::new(n, |i: int| c)
}

proof fn lemma_trim_end_char_repeated(s: Seq<char>, c: char, n: nat)
    requires
        s.len() == 0 || s.last() != c,
    ensures
        trim_end_char(s + repeated(c, n), c) == s,
    decreases n,
{
    if n > 0 {
        assert((s + repeated(c, n)).drop_last() =~= s + repeated(c, (n - 1) as nat));
        lemma_trim_end_char_repeated(s, c, (n - 1) as nat);
    } else {
        assert(s + repeated(c, 0) =~= s);
    }
}

proof fn lemma_encode_concat(a: Seq<char>, b: Seq<char>)
    ensures
        encode_utf8(a + b) == encode_utf8(a) + encode_utf8(b),
    decreases a.len(),
{
    if a.len() > 0 {
        assert((a + b).drop_first() =~= a.drop_first() + b);
        lemma_encode_concat(a.drop_first(), b);
        assert(encode_utf8(a + b) =~= encode_utf8(a) + encode_utf8(b));
    } else {
        assert(a + b =~= b);
        assert(encode_utf8(a) + encode_utf8(b) =~= encode_utf8(b));
    }
}

proof fn lemma_encode_nuls(n: nat)
    ensures
        encode_utf8(repeated('\0', n)) == Seq::new(n, |i: int| 0u8),
    decreases n,
{
    if n > 0 {
        assert(repeated('\0', n).drop_first() =~= repeated('\0', (n - 1) as nat));
        lemma_encode_nuls((n - 1) as nat);
        assert(('\0' as u32) == 0u32);
        assert(0u32 & 0x7F == 0) by (bit_vector);
        assert(encode_scalar('\0' as u32) =~= seq![0u8]);
        assert(encode_utf8(repeated('\0', n)) =~= Seq::new(n, |i: int| 0u8));
    }
}

/// The header of a command whose name encodes to at most 32 bytes of UTF-8
/// and ends in neither a NUL nor a `'0'` (all Nanonis commands, such as
/// `Bias.Get`) names the command and the body size it was built with: a
/// response that echoes that header is accepted, with that body size.
pub proof fn law_echoed_header_is_accepted(command: Seq<char>, body_size: u32)
    requires
        encode_utf8(command).len() <= 32,
        command.len() > 0 ==> command.last() != '\0' && command.last() != '0',
    ensures
        received_command(header_bytes(encode_utf8(command), body_size)) == command,
        dec_u32(header_bytes(encode_utf8(command), body_size).subrange(32, 36)) == body_size,
{
    let b = encode_utf8(command);
    let pad = (32 - b.len()) as nat;
    let padded = command + repeated('\0', pad);
    lemma_encode_concat(command, repeated('\0', pad));
    lemma_encode_nuls(pad);
    let h = header_bytes(b, body_size);
    assert(h.subrange(0, 32) =~= encode_utf8(padded)) by {
        assert forall|i: int| 0 <= i < 32 implies #[trigger] h.subrange(0, 32)[i] == encode_utf8(
            padded,
        )[i] by {
            if i < b.len() {
                assert(encode_utf8(padded)[i] == b[i]);
            } else {
                assert(encode_utf8(padded)[i] == Seq::new(pad, |j: int| 0u8)[i - b.len()]);
            }
        }
    }
    encode_utf8_valid_utf8(padded);
    encode_utf8_decode_utf8(padded);
    assert(decoded_lossy(h.subrange(0, 32)) == padded);
    lemma_trim_end_char_repeated(command, '\0', pad);
    assert(trim_end_char(command, '0') == command) by {
        if command.len() > 0 {
            assert(command.last() != '0');
        }
    }
    assert(h.subrange(32, 36) =~= enc_u32(body_size));
    crate::nanonis::be::lemma_u32_roundtrip(body_size);
}

} // verus!

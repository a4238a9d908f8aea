//! Typed scan frames: one grabbed scan image as flat row-major pixels with
//! its channel, dimensions and scan direction, and its encoding as an npy
//! array for a classifier.
//!
//! Pixels are `f32` values, held here as their bit patterns; the npy
//! payload is exactly those bits, little-endian.
use crate::spm_error::SpmError;
use crate::text::{append_decimal, decimal_text, lemma_decimal_digits};
use vstd::prelude::*;
use vstd::string::*;

verus! {

/// Physical placement of a frame in the scan field, as the instrument
/// reports it, each value as its bit pattern: the centre (`f64`), the width
/// and height in metres and the angle in degrees (`f32`).
#[derive(Debug, Clone, Copy)]
pub struct FrameGeometry {
    pub center_x: u64,
    pub center_y: u64,
    pub width_m: u32,
    pub height_m: u32,
    pub angle_deg: u32,
}

/// One grabbed scan image.
#[derive(Debug, Clone)]
pub struct Frame {
    /// Channel name from the scan buffer (e.g. "Z", "Current").
    pub channel_name: String,
    /// Row-major pixels, `rows * cols` long.
    pub data: Vec<u32>,
    pub rows: usize,
    pub cols: usize,
    /// `true` if grabbed from an upward scan.
    pub direction_up: bool,
    /// Physical geometry, when the frame came off an instrument.
    pub geometry: Option<FrameGeometry>,
}

/// The rows one after another.
pub open spec fn flatten(rows: Seq<Seq<u32>>) -> Seq<u32>
    decreases rows.len(),
{
    if rows.len() == 0 {
        Seq::empty()
    } else {
        flatten(rows.drop_last()) + rows.last()
    }
}

pub open spec fn row_views(rows: Seq<Vec<u32>>) -> Seq<Seq<u32>> {
    rows.map_values(|r: Vec<u32>| r@)
}

/// The position of the first row whose length is not `n`, or -1.
pub open spec fn first_ragged(rows: Seq<Seq<u32>>, n: nat) -> int
    decreases rows.len(),
{
    if rows.len() == 0 {
        -1
    } else if first_ragged(rows.drop_last(), n) >= 0 {
        first_ragged(rows.drop_last(), n)
    } else if rows.last().len() != n {
        rows.len() - 1
    } else {
        -1
    }
}

/// The number of columns: the length of the first row, 0 without rows.
pub open spec fn cols_of(rows: Seq<Seq<u32>>) -> nat {
    if rows.len() > 0 {
        rows[0].len()
    } else {
        0
    }
}

/// `"Frame::from_rows: row {bad} has {len} columns, expected {expected}"`.
pub open spec fn ragged_text(bad: nat, len: nat, expected: nat) -> Seq<char> {
    "Frame::from_rows: row "@ + decimal_text(bad) + " has "@ + decimal_text(len)
        + " columns, expected "@ + decimal_text(expected)
}

proof fn lemma_first_ragged_step(rows: Seq<Seq<u32>>, n: nat, i: nat)
    requires
        i < rows.len(),
        first_ragged(rows.take(i as int), n) < 0,
    ensures
        rows[i as int].len() != n ==> first_ragged(rows.take(i + 1 as int), n) == i,
        rows[i as int].len() == n ==> first_ragged(rows.take(i + 1 as int), n) < 0,
{
    assert(rows.take(i + 1 as int).drop_last() =~= rows.take(i as int));
}

proof fn lemma_first_ragged_extend(rows: Seq<Seq<u32>>, n: nat, k: nat)
    requires
        k <= rows.len(),
        first_ragged(rows.take(k as int), n) >= 0,
    ensures
        first_ragged(rows, n) == first_ragged(rows.take(k as int), n),
    decreases rows.len() - k,
{
    if k < rows.len() {
        assert(rows.take(k + 1 as int).drop_last() =~= rows.take(k as int));
        lemma_first_ragged_extend(rows, n, k + 1);
    } else {
        assert(rows.take(k as int) =~= rows);
    }
}

impl Frame {
    /// Build a frame from nested rows, flattening them, with the scan
    /// direction up and no geometry. Rows of unequal lengths are refused,
    /// naming the first row whose length differs from the first row's.
    pub fn from_rows(channel_name: String, rows: Vec<Vec<u32>>) -> (r: Result<Frame, SpmError>)
        ensures
            ({
                let rs = row_views(rows@);
                let bad = first_ragged(rs, cols_of(rs));
                &&& bad >= 0 ==> (r matches Err(SpmError::Routine(m)) && m@ == ragged_text(
                    bad as nat,
                    rs[bad].len(),
                    cols_of(rs),
                ))
                &&& bad < 0 ==> (r matches Ok(f) && f.channel_name@ == channel_name@ && f.data@
                    == flatten(rs) && f.rows == rs.len() && f.cols == cols_of(rs)
                    && f.direction_up && f.geometry is None)
            }),
    {
        let ghost rs = row_views(rows@);
        let n_rows = rows.len();
        let n_cols = if n_rows > 0 {
            rows[0].len()
        } else {
            0
        };
        proof {
            if n_rows > 0 {
                assert(rs[0] == rows@[0]@);
            }
            assert(rs.take(0) =~= Seq::<Seq<u32>>::empty());
        }
        let mut i: usize = 0;
        let mut data: Vec<u32> = Vec::new();
        while i < n_rows
            invariant
                n_rows == rows@.len(),
                rs == row_views(rows@),
                n_cols == cols_of(rs),
                i <= n_rows,
                first_ragged(rs.take(i as int), n_cols as nat) < 0,
                data@ == flatten(rs.take(i as int)),
            decreases n_rows - i,
        {
            let row = &rows[i];
            proof {
                assert(rs[i as int] == row@);
                lemma_first_ragged_step(rs, n_cols as nat, i as nat);
            }
            if row.len() != n_cols {
                proof {
                    lemma_first_ragged_extend(rs, n_cols as nat, (i + 1) as nat);
                }
                let mut m = String::from_str("Frame::from_rows: row ");
                append_decimal(&mut m, i as u64);
                m.append(" has ");
                append_decimal(&mut m, row.len() as u64);
                m.append(" columns, expected ");
                append_decimal(&mut m, n_cols as u64);
                return Err(SpmError::Routine(m));
            }
            let ghost before = data@;
            let mut j: usize = 0;
            while j < row.len()
                invariant
                    j <= row@.len(),
                    data@ == before + row@.take(j as int),
                decreases row@.len() - j,
            {
                data.push(row[j]);
                proof {
                    assert(row@.take(j + 1 as int) =~= row@.take(j as int).push(row@[j as int]));
                    assert(data@ =~= before + row@.take(j + 1 as int));
                }
                j = j + 1;
            }
            proof {
                assert(row@.take(j as int) =~= row@);
                assert(rs.take(i + 1 as int).drop_last() =~= rs.take(i as int));
                assert(rs.take(i + 1 as int).last() == row@);
            }
            i = i + 1;
        }
        proof {
            assert(rs.take(n_rows as int) =~= rs);
        }
        Ok(Frame {
            channel_name,
            data,
            rows: n_rows,
            cols: n_cols,
            direction_up: true,
            geometry: None,
        })
    }

    pub fn with_direction(self, up: bool) -> (r: Frame)
        ensures
            r == (Frame { direction_up: up, ..self }),
    {
        Frame { direction_up: up, ..self }
    }

    pub fn with_geometry(self, geometry: FrameGeometry) -> (r: Frame)
        ensures
            r == (Frame { geometry: Some(geometry), ..self }),
    {
        Frame { geometry: Some(geometry), ..self }
    }

    /// One row of pixels.
    pub fn row(&self, i: usize) -> (r: &[u32])
        requires
            i < usize::MAX,
            (i + 1) * self.cols <= self.data@.len(),
        ensures
            r@ == self.data@.subrange(i * self.cols, (i + 1) * self.cols),
    {
        let _len = self.data.len();
        proof {
            assert(i * self.cols <= (i + 1) * self.cols) by (nonlinear_arith);
        }
        vstd::slice::slice_subrange(self.data.as_slice(), i * self.cols, (i + 1) * self.cols)
    }

    /// Pixel at (row, col).
    pub fn at(&self, row: usize, col: usize) -> (r: u32)
        requires
            row * self.cols + col < self.data@.len(),
        ensures
            r == self.data@[row * self.cols + col],
    {
        let _len = self.data.len();
        proof {
            assert(row * self.cols <= row * self.cols + col);
        }
        self.data[row * self.cols + col]
    }

    /// The frame as npy v1.0 bytes: a `rows` by `cols` array.
    pub fn npy_bytes(&self) -> (r: Vec<u8>)
        ensures
            r@ == npy_of(self.data@, seq![self.rows, self.cols]),
    {
        let shape = [self.rows, self.cols];
        proof {
            lemma_two_dims_short(self.rows, self.cols);
            assert(shape@ =~= seq![self.rows, self.cols]);
        }
        npy_f32(self.data.as_slice(), &shape)
    }
}

/// A frame built from rows of one length gives back each row, and holds
/// every pixel of them.
pub proof fn law_rows_come_back(rows: Seq<Seq<u32>>, n: nat, i: int)
    requires
        forall|k: int| 0 <= k < rows.len() ==> (#[trigger] rows[k]).len() == n,
        0 <= i < rows.len(),
    ensures
        flatten(rows).len() == rows.len() * n,
        flatten(rows).subrange(i * n, (i + 1) * n) == rows[i],
    decreases rows.len(),
{
    let prev = rows.drop_last();
    assert forall|k: int| 0 <= k < prev.len() implies (#[trigger] prev[k]).len() == n by {
        assert(prev[k] == rows[k]);
    }
    lemma_flat_len(prev, n);
    let m = prev.len();
    assert(rows.len() * n == m * n + n) by (nonlinear_arith)
        requires
            rows.len() == m + 1,
    ;
    if i < m {
        law_rows_come_back(prev, n, i);
        assert((i + 1) * n <= m * n) by (nonlinear_arith)
            requires
                i + 1 <= m,
        ;
        assert(0 <= i * n <= (i + 1) * n) by (nonlinear_arith)
            requires
                i >= 0,
        ;
        assert(flatten(rows).subrange(i * n, (i + 1) * n) =~= flatten(prev).subrange(
            i * n,
            (i + 1) * n,
        ));
    } else {
        assert(i * n == m * n);
        assert((i + 1) * n == m * n + n) by (nonlinear_arith)
            requires
                i == m,
        ;
        assert(flatten(rows).subrange(i * n, (i + 1) * n) =~= rows.last());
    }
}

proof fn lemma_flat_len(rows: Seq<Seq<u32>>, n: nat)
    requires
        forall|k: int| 0 <= k < rows.len() ==> (#[trigger] rows[k]).len() == n,
    ensures
        flatten(rows).len() == rows.len() * n,
    decreases rows.len(),
{
    if rows.len() > 0 {
        let prev = rows.drop_last();
        assert forall|k: int| 0 <= k < prev.len() implies (#[trigger] prev[k]).len() == n by {
            assert(prev[k] == rows[k]);
        }
        lemma_flat_len(prev, n);
        assert(rows.len() * n == prev.len() * n + n) by (nonlinear_arith)
            requires
                rows.len() == prev.len() + 1,
        ;
    }
}

// ============================================================================
// npy
// ============================================================================

/// The npy magic string and version 1.0.
pub open spec fn npy_magic() -> Seq<u8> {
    seq![0x93u8, 0x4eu8, 0x55u8, 0x4du8, 0x50u8, 0x59u8, 0x01u8, 0x00u8]
}

/// The dimensions joined by `", "`.
pub open spec fn joined_dims(shape: Seq<usize>) -> Seq<char>
    decreases shape.len(),
{
    if shape.len() == 0 {
        Seq::empty()
    } else if shape.len() == 1 {
        decimal_text(shape[0] as nat)
    } else {
        joined_dims(shape.drop_last()) + ", "@ + decimal_text(shape.last() as nat)
    }
}

/// A shape as a Python tuple: `(n,)` for one dimension, `(a, b, ...)`
/// otherwise.
pub open spec fn shape_text(shape: Seq<usize>) -> Seq<char> {
    if shape.len() == 1 {
        "("@ + decimal_text(shape[0] as nat) + ",)"@
    } else {
        "("@ + joined_dims(shape) + ")"@
    }
}

/// The header dictionary: little-endian `f32`, C order, the shape.
pub open spec fn npy_dict(shape: Seq<usize>) -> Seq<char> {
    "{'descr': '<f4', 'fortran_order': False, 'shape': "@ + shape_text(shape) + ", }"@
}

/// How many spaces bring `unpadded` bytes up to a multiple of 64.
pub open spec fn pad_to_64(unpadded: nat) -> nat {
    ((unpadded + 63) / 64 * 64 - unpadded) as nat
}

/// The header: the dictionary, spaces, and a newline, so that the magic,
/// version, length field and header together are a multiple of 64 bytes.
pub open spec fn npy_header(shape: Seq<usize>) -> Seq<char> {
    let d = npy_dict(shape);
    d + Seq::new(pad_to_64(10 + d.len() + 1), |i: int| ' ') + seq!['\n']
}

/// The two bytes of the low 16 bits of `n`, least significant first.
pub open spec fn le16(n: nat) -> Seq<u8> {
    seq![(n % 256) as u8, (n / 256 % 256) as u8]
}

/// The four bytes of `v`, least significant first.
pub open spec fn le32(v: u32) -> Seq<u8> {
    seq![(v % 256) as u8, (v / 256 % 256) as u8, (v / 0x1_0000 % 256) as u8, (v / 0x100_0000) as u8]
}

/// Each value's four bytes, least significant first, one after another.
pub open spec fn le32s(data: Seq<u32>) -> Seq<u8>
    decreases data.len(),
{
    if data.len() == 0 {
        Seq::empty()
    } else {
        le32s(data.drop_last()) + le32(data.last())
    }
}

/// The ASCII bytes of `t`.
pub open spec fn ascii_bytes(t: Seq<char>) -> Seq<u8> {
    t.map_values(|c: char| c as u8)
}

/// An npy v1.0 file of `f32` values (given as their bits) in the given
/// shape: magic, version, header length, header, then the values.
pub open spec fn npy_of(data: Seq<u32>, shape: Seq<usize>) -> Seq<u8> {
    let h = npy_header(shape);
    npy_magic() + le16(h.len()) + ascii_bytes(h) + le32s(data)
}

fn push_le32(out: &mut Vec<u8>, v: u32)
    ensures
        final(out)@ == old(out)@ + le32(v),
{
    out.push((v % 256) as u8);
    out.push((v / 256 % 256) as u8);
    out.push((v / 0x1_0000 % 256) as u8);
    out.push((v / 0x100_0000) as u8);
    proof {
        assert(final(out)@ =~= old(out)@ + le32(v));
    }
}

fn shape_string(shape: &[usize]) -> (r: String)
    ensures
        r@ == shape_text(shape@),
{
    let mut s = String::from_str("(");
    if shape.len() == 1 {
        append_decimal(&mut s, shape[0] as u64);
        s.append(",)");
        return s;
    }
    let ghost start = s@;
    let mut i: usize = 0;
    proof {
        assert(shape@.take(0) =~= Seq::<usize>::empty());
    }
    while i < shape.len()
        invariant
            shape@.len() != 1,
            start == "("@,
            i <= shape@.len(),
            s@ == start + joined_dims(shape@.take(i as int)),
        decreases shape@.len() - i,
    {
        proof {
            assert(shape@.take(i + 1).drop_last() =~= shape@.take(i as int));
            assert(shape@.take(i + 1).last() == shape@[i as int]);
        }
        if i > 0 {
            s.append(", ");
        }
        append_decimal(&mut s, shape[i] as u64);
        proof {
            if i == 0 {
                assert(joined_dims(shape@.take(1)) == decimal_text(shape@[0] as nat));
                assert(s@ =~= start + joined_dims(shape@.take(i + 1)));
            } else {
                assert(s@ =~= start + joined_dims(shape@.take(i + 1)));
            }
        }
        i = i + 1;
    }
    s.append(")");
    proof {
        assert(shape@.take(i as int) =~= shape@);
    }
    s
}

/// A `usize` has at most twenty decimal digits.
proof fn lemma_decimal_len(n: nat, k: nat, bound: nat)
    requires
        n < bound,
        bound == pow10(k),
    ensures
        decimal_text(n).len() <= k + 1,
    decreases k,
{
    if n >= 10 && k > 0 {
        lemma_decimal_len(n / 10, (k - 1) as nat, pow10((k - 1) as nat));
    }
}

/// Ten to the `k`.
pub open spec fn pow10(k: nat) -> nat
    decreases k,
{
    if k == 0 {
        1
    } else {
        10 * pow10((k - 1) as nat)
    }
}

proof fn lemma_usize_short(n: usize)
    ensures
        decimal_text(n as nat).len() <= 21,
{
    assert(pow10(20) == 100000000000000000000nat) by {
        reveal_with_fuel(pow10, 21);
    }
    lemma_decimal_len(n as nat, 20, pow10(20));
}

/// The header of a two-dimensional array is short.
proof fn lemma_two_dims_short(rows: usize, cols: usize)
    ensures
        npy_dict(seq![rows, cols]).len() + 75 <= usize::MAX,
{
    reveal_strlit("{'descr': '<f4', 'fortran_order': False, 'shape': ");
    reveal_strlit(", }");
    reveal_strlit("(");
    reveal_strlit(")");
    reveal_strlit(", ");
    lemma_usize_short(rows);
    lemma_usize_short(cols);
    let sh = seq![rows, cols];
    assert(sh.drop_last() =~= seq![rows]);
    assert(joined_dims(sh.drop_last()) == decimal_text(rows as nat));
}

/// Whether every character of `t` is ASCII.
pub open spec fn all_ascii(t: Seq<char>) -> bool {
    forall|i: int| 0 <= i < t.len() ==> '\0' <= #[trigger] t[i] <= '\u{7f}'
}

proof fn lemma_decimal_ascii(n: nat)
    ensures
        all_ascii(decimal_text(n)),
{
    lemma_decimal_digits(n);
    let d = decimal_text(n);
    assert forall|i: int| 0 <= i < d.len() implies '\0' <= #[trigger] d[i] <= '\u{7f}' by {
        assert('0' <= d[i] <= '9');
    }
}

proof fn lemma_concat_ascii(a: Seq<char>, b: Seq<char>)
    requires
        all_ascii(a),
        all_ascii(b),
    ensures
        all_ascii(a + b),
{
    assert forall|i: int| 0 <= i < (a + b).len() implies '\0' <= #[trigger] (a + b)[i] <= '\u{7f}' by {
        if i < a.len() {
            assert((a + b)[i] == a[i]);
        } else {
            assert((a + b)[i] == b[i - a.len()]);
        }
    }
}

proof fn lemma_joined_ascii(shape: Seq<usize>)
    ensures
        all_ascii(joined_dims(shape)),
    decreases shape.len(),
{
    reveal_strlit(", ");
    if shape.len() == 1 {
        lemma_decimal_ascii(shape[0] as nat);
    } else if shape.len() > 1 {
        lemma_joined_ascii(shape.drop_last());
        lemma_decimal_ascii(shape.last() as nat);
        lemma_concat_ascii(joined_dims(shape.drop_last()), ", "@);
        lemma_concat_ascii(joined_dims(shape.drop_last()) + ", "@, decimal_text(shape.last() as nat));
    }
}

proof fn lemma_header_ascii(shape: Seq<usize>)
    ensures
        all_ascii(npy_header(shape)),
{
    reveal_strlit("{'descr': '<f4', 'fortran_order': False, 'shape': ");
    reveal_strlit(", }");
    reveal_strlit("(");
    reveal_strlit(",)");
    reveal_strlit(")");
    let st = shape_text(shape);
    if shape.len() == 1 {
        lemma_decimal_ascii(shape[0] as nat);
        lemma_concat_ascii("("@, decimal_text(shape[0] as nat));
        lemma_concat_ascii("("@ + decimal_text(shape[0] as nat), ",)"@);
    } else {
        lemma_joined_ascii(shape);
        lemma_concat_ascii("("@, joined_dims(shape));
        lemma_concat_ascii("("@ + joined_dims(shape), ")"@);
    }
    let prefix = "{'descr': '<f4', 'fortran_order': False, 'shape': "@;
    lemma_concat_ascii(prefix, st);
    lemma_concat_ascii(prefix + st, ", }"@);
    let d = npy_dict(shape);
    let sp = Seq::new(pad_to_64(10 + d.len() + 1), |i: int| ' ');
    lemma_concat_ascii(d, sp);
    lemma_concat_ascii(d + sp, seq!['\n']);
}

/// Encode `f32` values, given as their bits, as an npy v1.0 array of the
/// given shape (little-endian, C order).
pub fn npy_f32(data: &[u32], shape: &[usize]) -> (r: Vec<u8>)
    requires
        npy_dict(shape@).len() + 75 <= usize::MAX,
    ensures
        r@ == npy_of(data@, shape@),
{
    let mut header = String::from_str("{'descr': '<f4', 'fortran_order': False, 'shape': ");
    let st = shape_string(shape);
    header.append(st.as_str());
    header.append(", }");
    let ghost dict = header@;
    proof {
        assert(dict == npy_dict(shape@));
    }
    let dict_len = header.as_str().unicode_len();
    let unpadded = 10 + dict_len + 1;
    let padded = (unpadded + 63) / 64 * 64;
    let pad = padded - unpadded;
    let mut k: usize = 0;
    while k < pad
        invariant
            k <= pad,
            header@ == dict + Seq::new(k as nat, |i: int| ' '),
        decreases pad - k,
    {
        header.append(" ");
        proof {
            reveal_strlit(" ");
            assert(header@ =~= dict + Seq::new((k + 1) as nat, |i: int| ' '));
        }
        k = k + 1;
    }
    header.append("\n");
    let hs = header.as_str();
    proof {
        reveal_strlit("\n");
        assert(hs@ =~= npy_header(shape@));
        lemma_header_ascii(shape@);
        assert(is_ascii(hs));
        vstd::string::is_ascii_spec_bytes(hs);
    }
    let bytes = hs.as_bytes();
    proof {
        assert(bytes@ =~= ascii_bytes(npy_header(shape@)));
    }
    let hlen = bytes.len();
    let mut out: Vec<u8> = Vec::new();
    out.push(0x93u8);
    out.push(0x4eu8);
    out.push(0x55u8);
    out.push(0x4du8);
    out.push(0x50u8);
    out.push(0x59u8);
    out.push(0x01u8);
    out.push(0x00u8);
    out.push((hlen % 256) as u8);
    out.push((hlen / 256 % 256) as u8);
    proof {
        assert(out@ =~= npy_magic() + le16(npy_header(shape@).len()));
    }
    let ghost head = out@;
    let mut i: usize = 0;
    while i < hlen
        invariant
            hlen == bytes@.len(),
            i <= hlen,
            out@ == head + bytes@.take(i as int),
        decreases hlen - i,
    {
        out.push(bytes[i]);
        proof {
            assert(out@ =~= head + bytes@.take(i + 1));
        }
        i = i + 1;
    }
    proof {
        assert(bytes@.take(hlen as int) =~= bytes@);
    }
    let ghost with_header = out@;
    let mut j: usize = 0;
    proof {
        assert(data@.take(0) =~= Seq::<u32>::empty());
    }
    while j < data.len()
        invariant
            j <= data@.len(),
            out@ == with_header + le32s(data@.take(j as int)),
        decreases data@.len() - j,
    {
        push_le32(&mut out, data[j]);
        proof {
            assert(data@.take(j + 1).drop_last() =~= data@.take(j as int));
            assert(out@ =~= with_header + le32s(data@.take(j + 1)));
        }
        j = j + 1;
    }
    proof {
        assert(data@.take(j as int) =~= data@);
    }
    out
}

/// The npy header is laid out as the format asks: magic, version, length
/// field and header together fill a multiple of 64 bytes, and the header
/// ends with a newline; the values follow, four bytes each.
pub proof fn law_npy_layout(data: Seq<u32>, shape: Seq<usize>)
    ensures
        (10 + npy_header(shape).len()) % 64 == 0,
        npy_header(shape).last() == '\n',
        npy_of(data, shape).len() == 10 + npy_header(shape).len() + 4 * data.len(),
{
    let d = npy_dict(shape);
    let u = 10 + d.len() + 1;
    assert((u + 63) / 64 * 64 >= u) by (nonlinear_arith);
    assert(((u + 63) / 64 * 64) % 64 == 0) by (nonlinear_arith);
    lemma_le32s_len(data);
}

proof fn lemma_le32s_len(data: Seq<u32>)
    ensures
        le32s(data).len() == 4 * data.len(),
    decreases data.len(),
{
    if data.len() > 0 {
        lemma_le32s_len(data.drop_last());
    }
}

/// The number that four bytes stand for, read least significant first, as
/// `u32::from_le_bytes` reads them.
pub open spec fn le_value(b: Seq<u8>) -> int {
    b[0] as int + 256 * (b[1] as int) + 65536 * (b[2] as int) + 16777216 * (b[3] as int)
}

proof fn lemma_le32s_at(data: Seq<u32>, i: int)
    requires
        0 <= i < data.len(),
    ensures
        le32s(data).subrange(4 * i, 4 * i + 4) == le32(data[i]),
    decreases data.len(),
{
    lemma_le32s_len(data.drop_last());
    if i < data.len() - 1 {
        lemma_le32s_at(data.drop_last(), i);
        assert(le32s(data).subrange(4 * i, 4 * i + 4) =~= le32s(data.drop_last()).subrange(4 * i, 4 * i + 4));
    } else {
        assert(le32s(data).subrange(4 * i, 4 * i + 4) =~= le32(data.last()));
    }
}

/// Each value is written little-endian: reading its four bytes back least
/// significant first gives the value.
pub proof fn law_le32_reads_back(v: u32)
    ensures
        le32(v).len() == 4,
        le_value(le32(v)) == v,
{
    let b0: u32 = v % 256;
    let b1: u32 = v / 256 % 256;
    let b2: u32 = v / 0x1_0000 % 256;
    let b3: u32 = v / 0x100_0000;
    assert(b0 + 256 * b1 + 65536 * b2 + 16777216 * b3 == v) by (bit_vector)
        requires
            b0 == v % 256,
            b1 == v / 256 % 256,
            b2 == v / 0x1_0000 % 256,
            b3 == v / 0x100_0000,
    ;
    assert(b3 < 256) by (bit_vector)
        requires
            b3 == v / 0x100_0000,
    ;
    assert(le32(v)[0] == b0 && le32(v)[1] == b1 && le32(v)[2] == b2 && le32(v)[3] == b3);
}

/// The payload of an npy file is the values in order, each little-endian:
/// the four bytes of value `i` after the header read back as `data[i]`.
pub proof fn law_npy_payload_reads_back(data: Seq<u32>, shape: Seq<usize>, i: int)
    requires
        0 <= i < data.len(),
    ensures
        ({
            let start = 10 + npy_header(shape).len() + 4 * i;
            le_value(npy_of(data, shape).subrange(start, start + 4)) == data[i]
        }),
{
    let pre = npy_magic() + le16(npy_header(shape).len()) + ascii_bytes(npy_header(shape));
    law_npy_layout(data, shape);
    lemma_le32s_at(data, i);
    lemma_le32s_len(data);
    law_le32_reads_back(data[i]);
    let start = 10 + npy_header(shape).len() + 4 * i;
    assert(pre.len() == 10 + npy_header(shape).len());
    assert(npy_of(data, shape).subrange(start, start + 4) =~= le32s(data).subrange(4 * i, 4 * i + 4));
}

} // verus!

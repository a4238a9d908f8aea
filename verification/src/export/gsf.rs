//! The layout of Gwyddion Simple Field (`.gsf`) files: a text header, one to
//! four NUL bytes that align the data to a multiple of four bytes from the
//! start of the file, then `XRes * YRes` little-endian `f32` samples.
//!
//! The header is the magic line, then `key = value` lines. Reading it here
//! finds the resolution, the units and the title; the physical extents and
//! offsets are handed back as the text they were written in, for the caller
//! to read as floating point, as are the samples.
use crate::multi_pass::{find_eq, first_eq, lemma_first_eq_extend, lemma_first_eq_in_range};
use crate::nanonis::protocol::{is_white_space, str_from_utf8, trim, trim_end, trim_start, trim_str};
use crate::text::{
    append_decimal, decimal_text, joined, lemma_decimal_digits, lemma_joined_push, lemma_lines_of_joined,
    lemma_parse_decimal, lines, lines_of, one_line, parse_usize, strip_cr, texts, usize_from_text,
};
use vstd::prelude::*;
use vstd::string::*;
use vstd::utf8::*;

verus! {

/// The magic first line.
pub const MAGIC: &'static str = "Gwyddion Simple Field 1.0";

/// The NULs after a header of `header_len` bytes: one to four, never zero.
pub open spec fn padding_of(header_len: nat) -> nat {
    (4 - header_len % 4) as nat
}

/// Where the samples start, given the position of the first NUL: past the
/// one to four NULs that a header of that length is followed by.
pub open spec fn start_of(nul: nat) -> nat {
    nul + padding_of(nul)
}

/// How many NULs follow a header of `header_len` bytes: one to four, never
/// zero, so that a header already aligned to four still gets a full block.
pub fn padding_len(header_len: usize) -> (r: usize)
    ensures
        r == padding_of(header_len as nat),
        1 <= r <= 4,
        (header_len + r) % 4 == 0,
{
    4 - (header_len % 4)
}

/// The offset the samples start at: past the NULs that follow a header
/// ending at `nul`, the next multiple of four after it.
pub fn data_start(nul: usize) -> (r: usize)
    requires
        nul + 4 <= usize::MAX,
    ensures
        r == start_of(nul as nat),
        r % 4 == 0,
        nul < r <= nul + 4,
{
    nul + padding_len(nul)
}

/// `"truncated: need {need} data bytes from offset {start}, file has {have}"`.
pub open spec fn truncated_text(need: nat, start: nat, have: nat) -> Seq<char> {
    "truncated: need "@ + decimal_text(need) + " data bytes from offset "@ + decimal_text(start)
        + ", file has "@ + decimal_text(have)
}

/// The byte range of the samples of an `nx` by `ny` field in a file of
/// `file_len` bytes whose first NUL is at `nul`, or the message naming what
/// is missing.
pub fn data_range(file_len: usize, nul: usize, nx: usize, ny: usize) -> (r: Result<(usize, usize), String>)
    requires
        nul + 4 <= usize::MAX,
        nx * ny * 4 <= usize::MAX,
    ensures
        ({
            let start = start_of(nul as nat);
            let need = (nx * ny * 4) as nat;
            &&& file_len >= start + need ==> r == Ok::<(usize, usize), String>(
                (start as usize, (start + need) as usize),
            )
            &&& file_len < start + need ==> (r matches Err(m) && m@ == truncated_text(
                need,
                start,
                if file_len >= start {
                    (file_len - start) as nat
                } else {
                    0
                },
            ))
        }),
{
    let start = data_start(nul);
    let need = nx * ny * 4;
    if file_len < start || file_len - start < need {
        let have = if file_len >= start {
            file_len - start
        } else {
            0
        };
        let mut m = String::from_str("truncated: need ");
        append_decimal(&mut m, need as u64);
        m.append(" data bytes from offset ");
        append_decimal(&mut m, start as u64);
        m.append(", file has ");
        append_decimal(&mut m, have as u64);
        return Err(m);
    }
    Ok((start, start + need))
}

/// The position of the first NUL byte of `b`, or -1.
pub open spec fn first_nul(b: Seq<u8>) -> int
    decreases b.len(),
{
    if b.len() == 0 {
        -1
    } else if first_nul(b.drop_last()) >= 0 {
        first_nul(b.drop_last())
    } else if b.last() == 0 {
        b.len() - 1
    } else {
        -1
    }
}

proof fn lemma_first_nul_step(b: Seq<u8>, i: nat)
    requires
        i < b.len(),
        first_nul(b.take(i as int)) < 0,
    ensures
        b[i as int] == 0 ==> first_nul(b.take(i + 1 as int)) == i,
        b[i as int] != 0 ==> first_nul(b.take(i + 1 as int)) < 0,
{
    assert(b.take(i + 1 as int).drop_last() =~= b.take(i as int));
}

proof fn lemma_first_nul_extend(b: Seq<u8>, k: nat)
    requires
        k <= b.len(),
        first_nul(b.take(k as int)) >= 0,
    ensures
        first_nul(b) == first_nul(b.take(k as int)),
    decreases b.len() - k,
{
    if k < b.len() {
        assert(b.take(k + 1 as int).drop_last() =~= b.take(k as int));
        lemma_first_nul_extend(b, k + 1);
    } else {
        assert(b.take(k as int) =~= b);
    }
}

proof fn lemma_first_nul_range(b: Seq<u8>)
    ensures
        -1 <= first_nul(b) < b.len(),
    decreases b.len(),
{
    if b.len() > 0 {
        lemma_first_nul_range(b.drop_last());
    }
}

/// Whether `b` holds no NUL byte.
pub open spec fn nul_free(b: Seq<u8>) -> bool {
    forall|i: int| 0 <= i < b.len() ==> b[i] != 0
}

/// `n` NUL bytes.
pub open spec fn nuls(n: nat) -> Seq<u8> {
    Seq::new(n, |i: int| 0u8)
}

proof fn lemma_nul_free_has_no_first_nul(b: Seq<u8>)
    requires
        nul_free(b),
    ensures
        first_nul(b) < 0,
    decreases b.len(),
{
    if b.len() > 0 {
        lemma_nul_free_has_no_first_nul(b.drop_last());
    }
}

/// The reader finds the samples where the writer put them, whatever the
/// header's length: in a file made of a header without NULs, the one to
/// four NULs that pad it, and the samples, the first NUL ends the header
/// and the samples are exactly the bytes from `start_of` that NUL on.
pub proof fn law_reader_finds_the_samples_the_writer_wrote(header: Seq<u8>, samples: Seq<u8>)
    requires
        nul_free(header),
    ensures
        ({
            let file = header + nuls(padding_of(header.len())) + samples;
            &&& first_nul(file) == header.len()
            &&& start_of(first_nul(file) as nat) == header.len() + padding_of(header.len())
            &&& start_of(first_nul(file) as nat) % 4 == 0
            &&& file.subrange(
                start_of(header.len()) as int,
                (start_of(header.len()) + samples.len()) as int,
            ) == samples
        }),
{
    let pad = padding_of(header.len());
    let file = header + nuls(pad) + samples;
    let h = header.len();
    assert(file.take(h as int) =~= header);
    lemma_nul_free_has_no_first_nul(header);
    assert(file[h as int] == 0u8);
    lemma_first_nul_step(file, h);
    lemma_first_nul_extend(file, h + 1);
    assert(file.subrange(start_of(h) as int, (start_of(h) + samples.len()) as int) =~= samples);
}

/// The position of the first NUL byte of `b`.
fn find_nul(b: &[u8]) -> (r: Option<usize>)
    ensures
        r matches Some(i) ==> i as int == first_nul(b@),
        r is None ==> first_nul(b@) < 0,
{
    let n = b.len();
    let mut i: usize = 0;
    proof {
        assert(b@.take(0) =~= Seq::<u8>::empty());
    }
    while i < n
        invariant
            n == b@.len(),
            i <= n,
            first_nul(b@.take(i as int)) < 0,
        decreases n - i,
    {
        proof {
            lemma_first_nul_step(b@, i as nat);
        }
        if b[i] == 0 {
            proof {
                lemma_first_nul_extend(b@, (i + 1) as nat);
            }
            return Some(i);
        }
        i = i + 1;
    }
    proof {
        assert(b@.take(n as int) =~= b@);
    }
    None
}

/// What a header says.
pub ghost struct HeaderModel {
    pub nul: nat,
    pub nx: Option<usize>,
    pub ny: Option<usize>,
    pub xy_units: Seq<char>,
    pub z_units: Seq<char>,
    pub title: Option<Seq<char>>,
    pub numbers: Seq<(Seq<char>, Seq<char>)>,
    pub error: Option<Seq<char>>,
}

/// What the header of a file says, as far as it is read here.
pub struct GsfHeader {
    /// The position of the first NUL byte, where the header ends.
    pub nul: usize,
    /// `XRes`: columns.
    pub nx: Option<usize>,
    /// `YRes`: rows.
    pub ny: Option<usize>,
    /// `XYUnits`, empty when not given.
    pub xy_units: String,
    /// `ZUnits`, empty when not given.
    pub z_units: String,
    /// `Title`.
    pub title: Option<String>,
    /// The values of `XReal`, `YReal`, `XOffset` and `YOffset` in the order
    /// the header gives them, each with its key, as written.
    pub numbers: Vec<(String, String)>,
    /// `"bad XRes"` or `"bad YRes"` when a resolution does not read as a
    /// number; the header is not read past that line.
    pub error: Option<String>,
}

pub open spec fn pair_texts(v: Seq<(String, String)>) -> Seq<(Seq<char>, Seq<char>)> {
    v.map_values(|p: (String, String)| (p.0@, p.1@))
}

pub open spec fn text_opt(o: Option<String>) -> Option<Seq<char>> {
    match o {
        Some(s) => Some(s@),
        None => None,
    }
}

impl GsfHeader {
    pub open spec fn model(&self) -> HeaderModel {
        HeaderModel {
            nul: self.nul as nat,
            nx: self.nx,
            ny: self.ny,
            xy_units: self.xy_units@,
            z_units: self.z_units@,
            title: text_opt(self.title),
            numbers: pair_texts(self.numbers@),
            error: text_opt(self.error),
        }
    }
}

/// A header with nothing read yet.
pub open spec fn fresh_header(nul: nat) -> HeaderModel {
    HeaderModel {
        nul: nul,
        nx: None,
        ny: None,
        xy_units: Seq::empty(),
        z_units: Seq::empty(),
        title: None,
        numbers: Seq::empty(),
        error: None,
    }
}

/// What a `key` given `value` changes. A key not listed changes nothing.
pub open spec fn apply_entry(h: HeaderModel, key: Seq<char>, value: Seq<char>) -> HeaderModel {
    if key == "XRes"@ {
        match usize_from_text(value) {
            Some(v) => HeaderModel { nx: Some(v), ..h },
            None => HeaderModel { error: Some("bad XRes"@), ..h },
        }
    } else if key == "YRes"@ {
        match usize_from_text(value) {
            Some(v) => HeaderModel { ny: Some(v), ..h },
            None => HeaderModel { error: Some("bad YRes"@), ..h },
        }
    } else if key == "XReal"@ || key == "YReal"@ || key == "XOffset"@ || key == "YOffset"@ {
        HeaderModel { numbers: h.numbers.push((key, value)), ..h }
    } else if key == "XYUnits"@ {
        HeaderModel { xy_units: value, ..h }
    } else if key == "ZUnits"@ {
        HeaderModel { z_units: value, ..h }
    } else if key == "Title"@ {
        HeaderModel { title: Some(value), ..h }
    } else {
        h
    }
}

/// What one `key = value` line changes: the key and the value are the
/// text before and after the first `=`, trimmed. A line without `=`
/// changes nothing, and nothing changes once a resolution has failed to
/// read.
pub open spec fn read_entry(h: HeaderModel, line: Seq<char>) -> HeaderModel {
    let eq = first_eq(line);
    if h.error is Some || eq < 0 {
        h
    } else {
        apply_entry(h, trim(line.take(eq)), trim(line.subrange(eq + 1, line.len() as int)))
    }
}

/// The lines read in turn.
pub open spec fn read_entries(h: HeaderModel, ls: Seq<Seq<char>>) -> HeaderModel
    decreases ls.len(),
{
    if ls.len() == 0 {
        h
    } else {
        read_entry(read_entries(h, ls.drop_last()), ls.last())
    }
}

/// What a header's text says, or that it lacks the magic first line.
pub open spec fn header_text_of(text: Seq<char>, nul: nat) -> Result<HeaderModel, Seq<char>> {
    let ls = lines_of(text);
    if ls.len() == 0 || ls[0] != MAGIC@ {
        Err("missing the GSF magic line"@)
    } else {
        Ok(read_entries(fresh_header(nul), ls.drop_first()))
    }
}

/// What a file's bytes say in their header, or why they are no GSF file:
/// the header is the text before the first NUL, it must be UTF-8, and its
/// first line must be the magic line.
pub open spec fn header_of(b: Seq<u8>) -> Result<HeaderModel, Seq<char>> {
    let nul = first_nul(b);
    if nul < 0 {
        Err("no NUL padding found; not a GSF file"@)
    } else if !valid_utf8(b.take(nul)) {
        Err("header is not UTF-8"@)
    } else {
        header_text_of(decode_utf8(b.take(nul)), nul as nat)
    }
}

fn read_line_into(h: &mut GsfHeader, line: &str)
    ensures
        final(h).model() == read_entry(old(h).model(), line@),
        final(h).nul == old(h).nul,
{
    if h.error.is_some() {
        return ;
    }
    let eq = match find_eq(line) {
        None => {
            return ;
        },
        Some(eq) => eq,
    };
    proof {
        lemma_first_eq_in_range(line@);
    }
    let n = line.unicode_len();
    let key = trim_str(line.substring_char(0, eq));
    let value = trim_str(line.substring_char(eq + 1, n));
    proof {
        assert(line@.subrange(0, eq as int) =~= line@.take(eq as int));
    }
    if key == String::from_str("XRes") {
        match parse_usize(value.as_str()) {
            Some(v) => {
                h.nx = Some(v);
            },
            None => {
                h.error = Some(String::from_str("bad XRes"));
            },
        }
    } else if key == String::from_str("YRes") {
        match parse_usize(value.as_str()) {
            Some(v) => {
                h.ny = Some(v);
            },
            None => {
                h.error = Some(String::from_str("bad YRes"));
            },
        }
    } else if key == String::from_str("XReal") || key == String::from_str("YReal") || key
        == String::from_str("XOffset") || key == String::from_str("YOffset") {
        let ghost old_numbers = h.numbers@;
        let ghost kv = key@;
        let ghost vv = value@;
        h.numbers.push((key, value));
        proof {
            assert(pair_texts(h.numbers@) =~= pair_texts(old_numbers).push((kv, vv)));
        }
    } else if key == String::from_str("XYUnits") {
        h.xy_units = value;
    } else if key == String::from_str("ZUnits") {
        h.z_units = value;
    } else if key == String::from_str("Title") {
        h.title = Some(value);
    }
}

/// Reads the header of a GSF file: the text before the first NUL byte,
/// which must be UTF-8 and start with the magic line, then `key = value`
/// lines.
pub fn read_header(b: &[u8]) -> (r: Result<GsfHeader, String>)
    ensures
        match header_of(b@) {
            Ok(m) => r matches Ok(h) && h.model() == m,
            Err(e) => r matches Err(m) && m@ == e,
        },
{
    let nul = match find_nul(b) {
        None => {
            return Err(String::from_str("no NUL padding found; not a GSF file"));
        },
        Some(nul) => nul,
    };
    proof {
        lemma_first_nul_range(b@);
    }
    let head = vstd::slice::slice_subrange(b, 0, nul);
    proof {
        assert(head@ =~= b@.take(nul as int));
    }
    match str_from_utf8(head) {
        None => Err(String::from_str("header is not UTF-8")),
        Some(text) => read_header_text(text, nul),
    }
}

/// Reads a header's text, which ends where the NULs start, at `nul`: the
/// magic line, then `key = value` lines.
pub fn read_header_text(text: &str, nul: usize) -> (r: Result<GsfHeader, String>)
    ensures
        match header_text_of(text@, nul as nat) {
            Ok(m) => r matches Ok(h) && h.model() == m,
            Err(e) => r matches Err(m) && m@ == e,
        },
{
    let ls = lines(text);
    if ls.len() == 0 || !(ls[0] == String::from_str(MAGIC)) {
        proof {
            if ls@.len() > 0 {
                assert(texts(ls@)[0] == ls@[0]@);
            }
        }
        return Err(String::from_str("missing the GSF magic line"));
    }
    proof {
        assert(texts(ls@)[0] == ls@[0]@);
    }
    let mut h = GsfHeader {
        nul: nul,
        nx: None,
        ny: None,
        xy_units: String::new(),
        z_units: String::new(),
        title: None,
        numbers: Vec::new(),
        error: None,
    };
    let ghost rest = texts(ls@).drop_first();
    proof {
        assert(pair_texts(h.numbers@) =~= Seq::<(Seq<char>, Seq<char>)>::empty());
        assert(h.model() == fresh_header(nul as nat));
        assert(rest.take(0) =~= Seq::<Seq<char>>::empty());
    }
    let mut i: usize = 1;
    while i < ls.len()
        invariant
            1 <= i <= ls@.len(),
            rest == texts(ls@).drop_first(),
            h.model() == read_entries(fresh_header(nul as nat), rest.take(i - 1)),
            h.nul == nul,
        decreases ls@.len() - i,
    {
        proof {
            assert(rest.take(i as int).drop_last() =~= rest.take(i - 1));
            assert(rest.take(i as int).last() == ls@[i as int]@);
        }
        read_line_into(&mut h, ls[i].as_str());
        i = i + 1;
    }
    proof {
        assert(rest.take(i - 1) =~= rest);
    }
    Ok(h)
}

/// `"header has no {XRes|YRes}"`, where one is missing.
pub open spec fn missing_resolution(h: HeaderModel) -> Option<Seq<char>> {
    if h.nx is None {
        Some("header has no XRes"@)
    } else if h.ny is None {
        Some("header has no YRes"@)
    } else {
        None
    }
}

impl GsfHeader {
    /// The resolution, columns then rows, or which of them the header
    /// lacks.
    pub fn resolution(&self) -> (r: Result<(usize, usize), String>)
        ensures
            match missing_resolution(self.model()) {
                Some(e) => r matches Err(m) && m@ == e,
                None => r == Ok::<(usize, usize), String>((self.nx.unwrap(), self.ny.unwrap())),
            },
    {
        match (self.nx, self.ny) {
            (Some(nx), Some(ny)) => Ok((nx, ny)),
            (None, _) => Err(String::from_str("header has no XRes")),
            (_, None) => Err(String::from_str("header has no YRes")),
        }
    }
}

/// Why a field cannot be written: it has no rows or no columns.
pub fn check_size(nx: usize, ny: usize) -> (r: Result<(), String>)
    ensures
        (nx == 0 || ny == 0) ==> (r matches Err(m) && m@ == "refusing to write an empty GSF field"@),
        (nx > 0 && ny > 0) ==> r is Ok,
{
    if ny == 0 || nx == 0 {
        Err(String::from_str("refusing to write an empty GSF field"))
    } else {
        Ok(())
    }
}

/// What the writer puts in a header besides the resolution: the extents
/// and offsets as already written out in text, the units (empty ones are
/// left out) and the title.
pub struct HeaderText {
    pub x_real: String,
    pub y_real: String,
    pub x_offset: String,
    pub y_offset: String,
    pub xy_units: String,
    pub z_units: String,
    pub title: Option<String>,
}

/// A `key = value` line.
pub open spec fn entry(key: Seq<char>, value: Seq<char>) -> Seq<char> {
    key + " = "@ + value
}

/// The lines of the header that the writer writes: the magic line, the
/// resolution, extents and offsets, then the units that are not empty and
/// the title, if there is one.
pub open spec fn header_lines(nx: nat, ny: nat, t: HeaderText) -> Seq<Seq<char>> {
    let base = seq![
        MAGIC@,
        entry("XRes"@, decimal_text(nx)),
        entry("YRes"@, decimal_text(ny)),
        entry("XReal"@, t.x_real@),
        entry("YReal"@, t.y_real@),
        entry("XOffset"@, t.x_offset@),
        entry("YOffset"@, t.y_offset@),
    ];
    let with_xy = if t.xy_units@.len() > 0 {
        base.push(entry("XYUnits"@, t.xy_units@))
    } else {
        base
    };
    let with_z = if t.z_units@.len() > 0 {
        with_xy.push(entry("ZUnits"@, t.z_units@))
    } else {
        with_xy
    };
    match t.title {
        Some(title) => with_z.push(entry("Title"@, title@)),
        None => with_z,
    }
}

fn append_entry(s: &mut String, key: &str, value: &str)
    ensures
        final(s)@ == old(s)@ + entry(key@, value@).push('\n'),
{
    s.append(key);
    s.append(" = ");
    s.append(value);
    s.append("\n");
    proof {
        reveal_strlit("\n");
        assert(final(s)@ =~= old(s)@ + entry(key@, value@).push('\n'));
    }
}

/// The header text of an `nx` by `ny` field: its lines, each followed by
/// `'\n'`. The NULs that follow it are [`padding_len`] long.
pub fn header_text(nx: usize, ny: usize, t: &HeaderText) -> (r: String)
    ensures
        r@ == joined(header_lines(nx as nat, ny as nat, *t)),
{
    let mut s = String::new();
    let ghost mut ls: Seq<Seq<char>> = Seq::empty();
    s.append(MAGIC);
    s.append("\n");
    proof {
        reveal_strlit("\n");
        lemma_joined_push(ls, MAGIC@);
        ls = ls.push(MAGIC@);
        assert(s@ =~= joined(ls));
    }
    let mut dx = String::new();
    append_decimal(&mut dx, nx as u64);
    append_entry(&mut s, "XRes", dx.as_str());
    proof {
        lemma_joined_push(ls, entry("XRes"@, decimal_text(nx as nat)));
        ls = ls.push(entry("XRes"@, decimal_text(nx as nat)));
    }
    let mut dy = String::new();
    append_decimal(&mut dy, ny as u64);
    append_entry(&mut s, "YRes", dy.as_str());
    proof {
        lemma_joined_push(ls, entry("YRes"@, decimal_text(ny as nat)));
        ls = ls.push(entry("YRes"@, decimal_text(ny as nat)));
    }
    append_entry(&mut s, "XReal", t.x_real.as_str());
    proof {
        lemma_joined_push(ls, entry("XReal"@, t.x_real@));
        ls = ls.push(entry("XReal"@, t.x_real@));
    }
    append_entry(&mut s, "YReal", t.y_real.as_str());
    proof {
        lemma_joined_push(ls, entry("YReal"@, t.y_real@));
        ls = ls.push(entry("YReal"@, t.y_real@));
    }
    append_entry(&mut s, "XOffset", t.x_offset.as_str());
    proof {
        lemma_joined_push(ls, entry("XOffset"@, t.x_offset@));
        ls = ls.push(entry("XOffset"@, t.x_offset@));
    }
    append_entry(&mut s, "YOffset", t.y_offset.as_str());
    proof {
        lemma_joined_push(ls, entry("YOffset"@, t.y_offset@));
        ls = ls.push(entry("YOffset"@, t.y_offset@));
        assert(ls =~= seq![
            MAGIC@,
            entry("XRes"@, decimal_text(nx as nat)),
            entry("YRes"@, decimal_text(ny as nat)),
            entry("XReal"@, t.x_real@),
            entry("YReal"@, t.y_real@),
            entry("XOffset"@, t.x_offset@),
            entry("YOffset"@, t.y_offset@),
        ]);
    }
    if t.xy_units.as_str().unicode_len() > 0 {
        append_entry(&mut s, "XYUnits", t.xy_units.as_str());
        proof {
            lemma_joined_push(ls, entry("XYUnits"@, t.xy_units@));
            ls = ls.push(entry("XYUnits"@, t.xy_units@));
        }
    }
    if t.z_units.as_str().unicode_len() > 0 {
        append_entry(&mut s, "ZUnits", t.z_units.as_str());
        proof {
            lemma_joined_push(ls, entry("ZUnits"@, t.z_units@));
            ls = ls.push(entry("ZUnits"@, t.z_units@));
        }
    }
    match &t.title {
        Some(title) => {
            append_entry(&mut s, "Title", title.as_str());
            proof {
                lemma_joined_push(ls, entry("Title"@, title@));
                ls = ls.push(entry("Title"@, title@));
            }
        },
        None => {},
    }
    s
}

proof fn lemma_no_eq(p: Seq<char>)
    requires
        forall|i: int| 0 <= i < p.len() ==> p[i] != '=',
    ensures
        first_eq(p) == -1,
    decreases p.len(),
{
    if p.len() > 0 {
        lemma_no_eq(p.drop_last());
    }
}

/// A key that reads back as itself: not empty, without `=`, and without
/// white space at either end.
spec fn plain_key(k: Seq<char>) -> bool {
    &&& k.len() > 0
    &&& forall|i: int| 0 <= i < k.len() ==> k[i] != '='
    &&& !is_white_space(k[0])
    &&& !is_white_space(k.last())
}

proof fn lemma_trim_start_concat(s: Seq<char>, t: Seq<char>)
    ensures
        trim_start(s + t) == if trim_start(s).len() > 0 {
            trim_start(s) + t
        } else {
            trim_start(t)
        },
    decreases s.len(),
{
    if s.len() == 0 {
        assert(s + t =~= t);
    } else {
        assert((s + t)[0] == s[0]);
        if is_white_space(s[0]) {
            assert((s + t).drop_first() =~= s.drop_first() + t);
            lemma_trim_start_concat(s.drop_first(), t);
        }
    }
}

proof fn lemma_trim_strip_cr(v: Seq<char>)
    ensures
        trim(strip_cr(v)) == trim(v),
{
    if v.len() > 0 && v.last() == '\r' {
        let y = v.drop_last();
        assert(y + seq!['\r'] =~= v);
        lemma_trim_start_concat(y, seq!['\r']);
        assert(seq!['\r'].drop_first() =~= Seq::<char>::empty());
        assert(trim_start(seq!['\r']) == trim_start(Seq::<char>::empty()));
        if trim_start(y).len() > 0 {
            assert((trim_start(y) + seq!['\r']).drop_last() =~= trim_start(y));
        }
    }
}

/// A `key = value` line, as the reader gets it, splits into the key and
/// the value trimmed.
proof fn lemma_entry_parts(key: Seq<char>, v: Seq<char>)
    requires
        plain_key(key),
    ensures
        first_eq(strip_cr(entry(key, v))) == key.len() + 1,
        trim(strip_cr(entry(key, v)).take(key.len() + 1 as int)) == key,
        trim(
            strip_cr(entry(key, v)).subrange(key.len() + 2 as int, strip_cr(entry(key, v)).len() as int),
        ) == trim(v),
{
    reveal_strlit(" = ");
    let v2 = strip_cr(v);
    assert(strip_cr(entry(key, v)) =~= entry(key, v2));
    let line = entry(key, v2);
    let p = key.push(' ');
    assert forall|i: int| 0 <= i < p.len() implies p[i] != '=' by {
        if i < key.len() {
            assert(p[i] == key[i]);
        }
    }
    lemma_no_eq(p);
    assert(p.push('=').drop_last() =~= p);
    assert(line.take(key.len() + 2 as int) =~= p.push('='));
    lemma_first_eq_extend(line, (key.len() + 2 as int) as nat);
    assert(line.take(key.len() + 1 as int) =~= p);
    assert(p[0] == key[0]);
    assert(p.drop_last() =~= key);
    assert(trim_start(p) == p);
    assert(trim_end(p) == trim_end(key));
    assert(trim_start(key) == key);
    assert(trim_end(key) == key);
    let after = line.subrange(key.len() + 2 as int, line.len() as int);
    assert(after =~= seq![' '] + v2);
    assert(after.drop_first() =~= v2);
    assert(trim_start(after) == trim_start(v2));
    lemma_trim_strip_cr(v);
}

proof fn lemma_read_entries_push(h: HeaderModel, ls: Seq<Seq<char>>, l: Seq<char>)
    ensures
        read_entries(h, ls.push(l)) == read_entry(read_entries(h, ls), l),
{
    assert(ls.push(l).drop_last() =~= ls);
}

proof fn lemma_entry_one_line(key: Seq<char>, v: Seq<char>)
    requires
        one_line(key),
        one_line(v),
    ensures
        one_line(entry(key, v)),
{
    reveal_strlit(" = ");
    let e = entry(key, v);
    assert forall|i: int| 0 <= i < e.len() implies e[i] != '\n' by {
        if i < key.len() {
            assert(e[i] == key[i]);
        } else if i >= key.len() + 3 {
            assert(e[i] == v[i - key.len() - 3]);
        }
    }
}

/// What the reader makes of the header that the writer wrote.
pub open spec fn written_model(nx: usize, ny: usize, t: HeaderText, nul: nat) -> HeaderModel {
    HeaderModel {
        nul: nul,
        nx: Some(nx),
        ny: Some(ny),
        xy_units: trim(t.xy_units@),
        z_units: trim(t.z_units@),
        title: match t.title {
            Some(x) => Some(trim(x@)),
            None => None,
        },
        numbers: seq![
            ("XReal"@, trim(t.x_real@)),
            ("YReal"@, trim(t.y_real@)),
            ("XOffset"@, trim(t.x_offset@)),
            ("YOffset"@, trim(t.y_offset@)),
        ],
        error: None,
    }
}

proof fn lemma_keys()
    ensures
        plain_key("XRes"@),
        plain_key("YRes"@),
        plain_key("XReal"@),
        plain_key("YReal"@),
        plain_key("XOffset"@),
        plain_key("YOffset"@),
        plain_key("XYUnits"@),
        plain_key("ZUnits"@),
        plain_key("Title"@),
        one_line("XRes"@),
        one_line("YRes"@),
        one_line("XReal"@),
        one_line("YReal"@),
        one_line("XOffset"@),
        one_line("YOffset"@),
        one_line("XYUnits"@),
        one_line("ZUnits"@),
        one_line("Title"@),
        one_line(MAGIC@),
        strip_cr(MAGIC@) == MAGIC@,
{
    reveal_strlit("XRes");
    reveal_strlit("YRes");
    reveal_strlit("XReal");
    reveal_strlit("YReal");
    reveal_strlit("XOffset");
    reveal_strlit("YOffset");
    reveal_strlit("XYUnits");
    reveal_strlit("ZUnits");
    reveal_strlit("Title");
    reveal_strlit("Gwyddion Simple Field 1.0");
}

proof fn lemma_digits_one_line(n: nat)
    ensures
        one_line(decimal_text(n)),
        trim(decimal_text(n)) == decimal_text(n),
{
    lemma_decimal_digits(n);
    let d = decimal_text(n);
    assert forall|i: int| 0 <= i < d.len() implies d[i] != '\n' by {
        assert('0' <= d[i] <= '9');
    }
    assert('0' <= d[0] <= '9');
    assert('0' <= d[d.len() - 1] <= '9');
}

/// A written line, read, applies its key and trimmed value.
proof fn lemma_read_written(h: HeaderModel, ls: Seq<Seq<char>>, key: Seq<char>, v: Seq<char>)
    requires
        read_entries(h, ls).error is None,
        plain_key(key),
    ensures
        read_entries(h, ls.push(strip_cr(entry(key, v)))) == apply_entry(
            read_entries(h, ls),
            key,
            trim(v),
        ),
{
    lemma_read_entries_push(h, ls, strip_cr(entry(key, v)));
    lemma_entry_parts(key, v);
}

spec fn differ(a: Seq<char>, b: Seq<char>) -> bool {
    a.len() != b.len() || a[0] != b[0] || a[1] != b[1]
}

/// The keys of a header are told apart.
proof fn lemma_keys_differ()
    ensures
        "YRes"@ != "XRes"@,
        "XReal"@ != "XRes"@,
        "XReal"@ != "YRes"@,
        "YReal"@ != "XRes"@,
        "YReal"@ != "YRes"@,
        "YReal"@ != "XReal"@,
        "XOffset"@ != "XRes"@,
        "XOffset"@ != "YRes"@,
        "XOffset"@ != "XReal"@,
        "XOffset"@ != "YReal"@,
        "YOffset"@ != "XRes"@,
        "YOffset"@ != "YRes"@,
        "YOffset"@ != "XReal"@,
        "YOffset"@ != "YReal"@,
        "YOffset"@ != "XOffset"@,
        "XYUnits"@ != "XRes"@,
        "XYUnits"@ != "YRes"@,
        "XYUnits"@ != "XReal"@,
        "XYUnits"@ != "YReal"@,
        "XYUnits"@ != "XOffset"@,
        "XYUnits"@ != "YOffset"@,
        "ZUnits"@ != "XRes"@,
        "ZUnits"@ != "YRes"@,
        "ZUnits"@ != "XReal"@,
        "ZUnits"@ != "YReal"@,
        "ZUnits"@ != "XOffset"@,
        "ZUnits"@ != "YOffset"@,
        "ZUnits"@ != "XYUnits"@,
        "Title"@ != "XRes"@,
        "Title"@ != "YRes"@,
        "Title"@ != "XReal"@,
        "Title"@ != "YReal"@,
        "Title"@ != "XOffset"@,
        "Title"@ != "YOffset"@,
        "Title"@ != "XYUnits"@,
        "Title"@ != "ZUnits"@,
{
    reveal_strlit("XRes");
    reveal_strlit("YRes");
    reveal_strlit("XReal");
    reveal_strlit("YReal");
    reveal_strlit("XOffset");
    reveal_strlit("YOffset");
    reveal_strlit("XYUnits");
    reveal_strlit("ZUnits");
    reveal_strlit("Title");
    assert(differ("YRes"@, "XRes"@));
    assert(differ("XReal"@, "XRes"@));
    assert(differ("XReal"@, "YRes"@));
    assert(differ("YReal"@, "XRes"@));
    assert(differ("YReal"@, "YRes"@));
    assert(differ("YReal"@, "XReal"@));
    assert(differ("XOffset"@, "XRes"@));
    assert(differ("XOffset"@, "YRes"@));
    assert(differ("XOffset"@, "XReal"@));
    assert(differ("XOffset"@, "YReal"@));
    assert(differ("YOffset"@, "XRes"@));
    assert(differ("YOffset"@, "YRes"@));
    assert(differ("YOffset"@, "XReal"@));
    assert(differ("YOffset"@, "YReal"@));
    assert(differ("YOffset"@, "XOffset"@));
    assert(differ("XYUnits"@, "XRes"@));
    assert(differ("XYUnits"@, "YRes"@));
    assert(differ("XYUnits"@, "XReal"@));
    assert(differ("XYUnits"@, "YReal"@));
    assert(differ("XYUnits"@, "XOffset"@));
    assert(differ("XYUnits"@, "YOffset"@));
    assert(differ("ZUnits"@, "XRes"@));
    assert(differ("ZUnits"@, "YRes"@));
    assert(differ("ZUnits"@, "XReal"@));
    assert(differ("ZUnits"@, "YReal"@));
    assert(differ("ZUnits"@, "XOffset"@));
    assert(differ("ZUnits"@, "YOffset"@));
    assert(differ("ZUnits"@, "XYUnits"@));
    assert(differ("Title"@, "XRes"@));
    assert(differ("Title"@, "YRes"@));
    assert(differ("Title"@, "XReal"@));
    assert(differ("Title"@, "YReal"@));
    assert(differ("Title"@, "XOffset"@));
    assert(differ("Title"@, "YOffset"@));
    assert(differ("Title"@, "XYUnits"@));
    assert(differ("Title"@, "ZUnits"@));
}

proof fn lemma_apply_resolution(h: HeaderModel, nx: usize, ny: usize)
    ensures
        apply_entry(h, "XRes"@, decimal_text(nx as nat)) == (HeaderModel { nx: Some(nx), ..h }),
        apply_entry(h, "YRes"@, decimal_text(ny as nat)) == (HeaderModel { ny: Some(ny), ..h }),
{
    lemma_keys_differ();
    lemma_parse_decimal(nx);
    lemma_parse_decimal(ny);
}

proof fn lemma_apply_numbers(h: HeaderModel, v: Seq<char>)
    ensures
        apply_entry(h, "XReal"@, v) == (HeaderModel { numbers: h.numbers.push(("XReal"@, v)), ..h }),
        apply_entry(h, "YReal"@, v) == (HeaderModel { numbers: h.numbers.push(("YReal"@, v)), ..h }),
        apply_entry(h, "XOffset"@, v) == (HeaderModel {
            numbers: h.numbers.push(("XOffset"@, v)),
            ..h
        }),
        apply_entry(h, "YOffset"@, v) == (HeaderModel {
            numbers: h.numbers.push(("YOffset"@, v)),
            ..h
        }),
{
    lemma_keys_differ();
}

proof fn lemma_apply_labels(h: HeaderModel, v: Seq<char>)
    ensures
        apply_entry(h, "XYUnits"@, v) == (HeaderModel { xy_units: v, ..h }),
        apply_entry(h, "ZUnits"@, v) == (HeaderModel { z_units: v, ..h }),
        apply_entry(h, "Title"@, v) == (HeaderModel { title: Some(v), ..h }),
{
    lemma_keys_differ();
}

/// The resolution, extents and offsets, read back.
proof fn lemma_read_base(nx: usize, ny: usize, t: HeaderText, nul: nat) -> (s6: Seq<Seq<char>>)
    ensures
        s6 == seq![
            strip_cr(entry("XRes"@, decimal_text(nx as nat))),
            strip_cr(entry("YRes"@, decimal_text(ny as nat))),
            strip_cr(entry("XReal"@, t.x_real@)),
            strip_cr(entry("YReal"@, t.y_real@)),
            strip_cr(entry("XOffset"@, t.x_offset@)),
            strip_cr(entry("YOffset"@, t.y_offset@)),
        ],
        read_entries(fresh_header(nul), s6) == (HeaderModel {
            nx: Some(nx),
            ny: Some(ny),
            numbers: seq![
                ("XReal"@, trim(t.x_real@)),
                ("YReal"@, trim(t.y_real@)),
                ("XOffset"@, trim(t.x_offset@)),
                ("YOffset"@, trim(t.y_offset@)),
            ],
            ..fresh_header(nul)
        }),
{
    lemma_keys();
    let h0 = fresh_header(nul);
    let dx = decimal_text(nx as nat);
    let dy = decimal_text(ny as nat);
    lemma_digits_one_line(nx as nat);
    lemma_digits_one_line(ny as nat);
    let s0 = Seq::<Seq<char>>::empty();
    lemma_read_written(h0, s0, "XRes"@, dx);
    let s1 = s0.push(strip_cr(entry("XRes"@, dx)));
    lemma_apply_resolution(h0, nx, ny);
    let m1 = HeaderModel { nx: Some(nx), ..h0 };
    lemma_read_written(h0, s1, "YRes"@, dy);
    let s2 = s1.push(strip_cr(entry("YRes"@, dy)));
    lemma_apply_resolution(m1, nx, ny);
    let m2 = HeaderModel { ny: Some(ny), ..m1 };
    lemma_read_written(h0, s2, "XReal"@, t.x_real@);
    let s3 = s2.push(strip_cr(entry("XReal"@, t.x_real@)));
    lemma_apply_numbers(m2, trim(t.x_real@));
    let m3 = HeaderModel { numbers: m2.numbers.push(("XReal"@, trim(t.x_real@))), ..m2 };
    lemma_read_written(h0, s3, "YReal"@, t.y_real@);
    let s4 = s3.push(strip_cr(entry("YReal"@, t.y_real@)));
    lemma_apply_numbers(m3, trim(t.y_real@));
    let m4 = HeaderModel { numbers: m3.numbers.push(("YReal"@, trim(t.y_real@))), ..m3 };
    lemma_read_written(h0, s4, "XOffset"@, t.x_offset@);
    let s5 = s4.push(strip_cr(entry("XOffset"@, t.x_offset@)));
    lemma_apply_numbers(m4, trim(t.x_offset@));
    let m5 = HeaderModel { numbers: m4.numbers.push(("XOffset"@, trim(t.x_offset@))), ..m4 };
    lemma_read_written(h0, s5, "YOffset"@, t.y_offset@);
    let s6 = s5.push(strip_cr(entry("YOffset"@, t.y_offset@)));
    lemma_apply_numbers(m5, trim(t.y_offset@));
    assert(m5.numbers.push(("YOffset"@, trim(t.y_offset@))) =~= seq![
        ("XReal"@, trim(t.x_real@)),
        ("YReal"@, trim(t.y_real@)),
        ("XOffset"@, trim(t.x_offset@)),
        ("YOffset"@, trim(t.y_offset@)),
    ]);
    assert(s6 =~= seq![
        strip_cr(entry("XRes"@, dx)),
        strip_cr(entry("YRes"@, dy)),
        strip_cr(entry("XReal"@, t.x_real@)),
        strip_cr(entry("YReal"@, t.y_real@)),
        strip_cr(entry("XOffset"@, t.x_offset@)),
        strip_cr(entry("YOffset"@, t.y_offset@)),
    ]);
    s6
}

/// The lines after the magic line, as the reader gets them.
proof fn lemma_written_lines(nx: usize, ny: usize, t: HeaderText)
    requires
        one_line(t.x_real@),
        one_line(t.y_real@),
        one_line(t.x_offset@),
        one_line(t.y_offset@),
        one_line(t.xy_units@),
        one_line(t.z_units@),
        t.title matches Some(x) ==> one_line(x@),
    ensures
        lines_of(joined(header_lines(nx as nat, ny as nat, t))).len() > 0,
        lines_of(joined(header_lines(nx as nat, ny as nat, t)))[0] == MAGIC@,
        lines_of(joined(header_lines(nx as nat, ny as nat, t))).drop_first() == header_lines(
            nx as nat,
            ny as nat,
            t,
        ).drop_first().map_values(|l: Seq<char>| strip_cr(l)),
{
    lemma_keys();
    lemma_digits_one_line(nx as nat);
    lemma_digits_one_line(ny as nat);
    let ls = header_lines(nx as nat, ny as nat, t);
    lemma_entry_one_line("XRes"@, decimal_text(nx as nat));
    lemma_entry_one_line("YRes"@, decimal_text(ny as nat));
    lemma_entry_one_line("XReal"@, t.x_real@);
    lemma_entry_one_line("YReal"@, t.y_real@);
    lemma_entry_one_line("XOffset"@, t.x_offset@);
    lemma_entry_one_line("YOffset"@, t.y_offset@);
    lemma_entry_one_line("XYUnits"@, t.xy_units@);
    lemma_entry_one_line("ZUnits"@, t.z_units@);
    match t.title {
        Some(x) => lemma_entry_one_line("Title"@, x@),
        None => {},
    }
    assert forall|i: int| 0 <= i < ls.len() implies one_line(#[trigger] ls[i]) by {}
    lemma_lines_of_joined(ls);
    assert(lines_of(joined(ls)).drop_first() =~= ls.drop_first().map_values(
        |l: Seq<char>| strip_cr(l),
    ));
}

/// Reading back the header that the writer wrote gives the resolution, the
/// extents and offsets, the units and the title it was written with, each
/// text trimmed of white space at either end. This holds wherever no text
/// holds a line break (one that does starts a line of its own).
pub proof fn law_header_reads_back(nx: usize, ny: usize, t: HeaderText, nul: nat)
    requires
        one_line(t.x_real@),
        one_line(t.y_real@),
        one_line(t.x_offset@),
        one_line(t.y_offset@),
        one_line(t.xy_units@),
        one_line(t.z_units@),
        t.title matches Some(x) ==> one_line(x@),
    ensures
        header_text_of(joined(header_lines(nx as nat, ny as nat, t)), nul) == Ok::<
            HeaderModel,
            Seq<char>,
        >(written_model(nx, ny, t, nul)),
{
    lemma_keys();
    lemma_written_lines(nx, ny, t);
    let h0 = fresh_header(nul);
    let s6 = lemma_read_base(nx, ny, t, nul);
    let m6 = read_entries(h0, s6);
    let xy = entry("XYUnits"@, t.xy_units@);
    let s7 = if t.xy_units@.len() > 0 {
        s6.push(strip_cr(xy))
    } else {
        s6
    };
    let m7 = HeaderModel { xy_units: trim(t.xy_units@), ..m6 };
    if t.xy_units@.len() > 0 {
        lemma_read_written(h0, s6, "XYUnits"@, t.xy_units@);
        lemma_apply_labels(m6, trim(t.xy_units@));
    } else {
        assert(t.xy_units@ =~= Seq::<char>::empty());
        assert(trim(t.xy_units@) =~= Seq::<char>::empty());
    }
    let z = entry("ZUnits"@, t.z_units@);
    let s8 = if t.z_units@.len() > 0 {
        s7.push(strip_cr(z))
    } else {
        s7
    };
    let m8 = HeaderModel { z_units: trim(t.z_units@), ..m7 };
    if t.z_units@.len() > 0 {
        lemma_read_written(h0, s7, "ZUnits"@, t.z_units@);
        lemma_apply_labels(m7, trim(t.z_units@));
    } else {
        assert(t.z_units@ =~= Seq::<char>::empty());
        assert(trim(t.z_units@) =~= Seq::<char>::empty());
    }
    let ls = header_lines(nx as nat, ny as nat, t);
    let rest = ls.drop_first().map_values(|l: Seq<char>| strip_cr(l));
    match t.title {
        Some(x) => {
            let e = entry("Title"@, x@);
            lemma_read_written(h0, s8, "Title"@, x@);
            lemma_apply_labels(m8, trim(x@));
            assert(rest =~= s8.push(strip_cr(e)));
        },
        None => {
            assert(rest =~= s8);
        },
    }
}

} // verus!

//! The structure of Nanonis multi-pass configuration files (`.mpas`): a
//! LabVIEW-style INI file of `[Section]` headers and `Key = value` lines,
//! and the direction each `[PassN]` section drives.
//!
//! Sections alternate forward and backward, so `[Pass1]` and `[Pass2]`
//! together are the single pass the GUI lists as "Fwd #1" and "Bwd #1".
//! Record buffers are per direction and do not mix.
//!
//! Errors are the message text; the application wraps it in an
//! `io::Error` of kind `InvalidData`, prefixed with `mpas: `.
use crate::nanonis::protocol::{trim, trim_str};
use crate::text::{
    all_digits, append_decimal, decimal_text, digits_value, lemma_digits_value_nonneg, lemma_prefix_value_le,
    parse_usize, split_lines, usize_from_text,
};
use vstd::prelude::*;
use vstd::string::*;

verus! {

/// The LabVIEW VI called at the beginning of each line, if any.
#[derive(Debug, Clone)]
pub struct CallbackVi {
    /// `0` is None. `1` is presumed to be "User VI"; not yet confirmed.
    pub selector: i32,
    /// Path to the VI, empty when `selector` is 0.
    pub path: String,
}

impl Default for CallbackVi {
    fn default() -> (r: Self)
        ensures
            r.selector == 0,
            r.path@ == Seq::<char>::empty(),
    {
        CallbackVi { selector: 0, path: String::new() }
    }
}

/// Which scan direction a `[PassN]` section drives.
///
/// Sections alternate, starting forward: `[Pass1]` is forward, `[Pass2]`
/// backward, `[Pass3]` forward again.
#[derive(Debug, Clone, Copy, PartialEq, Eq, Structural)]
pub enum PassDirection {
    Forward,
    Backward,
}

/// Direction of the section at `index` (0-based).
pub open spec fn direction_of(index: int) -> PassDirection {
    if index % 2 == 0 {
        PassDirection::Forward
    } else {
        PassDirection::Backward
    }
}

/// `"Fwd #n"` or `"Bwd #n"`, n being the pass the section belongs to.
pub open spec fn label_text(index: nat) -> Seq<char> {
    (if index % 2 == 0 {
        "Fwd #"@
    } else {
        "Bwd #"@
    }) + decimal_text(index / 2 + 1)
}

/// Direction of the section at `index` (0-based, so `index` 0 is
/// `[Pass1]`).
pub fn direction(index: usize) -> (r: PassDirection)
    ensures
        r == direction_of(index as int),
{
    if index % 2 == 0 {
        PassDirection::Forward
    } else {
        PassDirection::Backward
    }
}

/// The label the GUI shows for the section at `index`, e.g. `"Bwd #2"`.
pub fn label(index: usize) -> (r: String)
    ensures
        r@ == label_text(index as nat),
{
    let mut s = match direction(index) {
        PassDirection::Forward => String::from_str("Fwd #"),
        PassDirection::Backward => String::from_str("Bwd #"),
    };
    append_decimal(&mut s, (index / 2) as u64 + 1);
    s
}

/// Whether the section at `i` plays back with nothing recorded before it in
/// its own direction.
pub open spec fn unsourced(rec: Seq<bool>, play: Seq<bool>, i: int) -> bool {
    &&& play[i]
    &&& !exists|j: int| 0 <= j < i && direction_of(j) == direction_of(i) && #[trigger] rec[j]
}

/// Sections that play a signal back with nothing to play: the indices `i`
/// with `play[i]` and no earlier section of the same direction with
/// `rec[j]`, in increasing order. `rec[i]` and `play[i]` are the record and
/// play switches of section `i`.
pub fn unsourced_playbacks(rec: &[bool], play: &[bool]) -> (r: Vec<usize>)
    requires
        rec@.len() == play@.len(),
    ensures
        forall|k: int| 0 <= k < r@.len() ==> (r@[k] as int) < play@.len() && unsourced(rec@, play@, #[trigger] r@[k] as int),
        forall|i: int| 0 <= i < play@.len() && unsourced(rec@, play@, i) ==> r@.contains(i as usize),
        forall|k: int, l: int| 0 <= k < l < r@.len() ==> r@[k] < r@[l],
{
    let n = play.len();
    let mut out: Vec<usize> = Vec::new();
    let mut fwd_recorded = false;
    let mut bwd_recorded = false;
    let mut i: usize = 0;
    while i < n
        invariant
            n == play@.len(),
            rec@.len() == n,
            i <= n,
            fwd_recorded == exists|j: int| 0 <= j < i && j % 2 == 0 && #[trigger] rec@[j],
            bwd_recorded == exists|j: int| 0 <= j < i && j % 2 == 1 && #[trigger] rec@[j],
            forall|k: int| 0 <= k < out@.len() ==> (out@[k] as int) < i && unsourced(rec@, play@, #[trigger] out@[k] as int),
            forall|m: int| 0 <= m < i && unsourced(rec@, play@, m) ==> out@.contains(m as usize),
            forall|k: int, l: int| 0 <= k < l < out@.len() ==> out@[k] < out@[l],
        decreases n - i,
    {
        let forward = i % 2 == 0;
        let recorded_before = if forward {
            fwd_recorded
        } else {
            bwd_recorded
        };
        proof {
            assert(recorded_before == exists|j: int|
                0 <= j < i && direction_of(j) == direction_of(i as int) && #[trigger] rec@[j]) by {
                if recorded_before {
                    let j = choose|j: int|
                        0 <= j < i && (if forward {
                            j % 2 == 0
                        } else {
                            j % 2 == 1
                        }) && #[trigger] rec@[j];
                    assert(direction_of(j) == direction_of(i as int));
                }
                if exists|j: int|
                    0 <= j < i && direction_of(j) == direction_of(i as int) && #[trigger] rec@[j] {
                    let j = choose|j: int|
                        0 <= j < i && direction_of(j) == direction_of(i as int) && #[trigger] rec@[j];
                    assert(rec@[j]);
                }
            }
        }
        if play[i] && !recorded_before {
            let ghost before = out@;
            out.push(i);
            proof {
                assert forall|m: int| 0 <= m < i + 1 && unsourced(rec@, play@, m) implies out@.contains(
                    m as usize,
                ) by {
                    if m < i {
                        assert(before.contains(m as usize));
                        let k = choose|k: int| 0 <= k < before.len() && before[k] == m as usize;
                        assert(out@[k] == m as usize);
                    } else {
                        assert(out@[before.len() as int] == i);
                    }
                }
            }
        } else {
            proof {
                assert forall|m: int| 0 <= m < i + 1 && unsourced(rec@, play@, m) implies out@.contains(
                    m as usize,
                ) by {
                    if m == i {
                        assert(false);
                    }
                }
            }
        }
        if rec[i] {
            if forward {
                fwd_recorded = true;
            } else {
                bwd_recorded = true;
            }
        }
        proof {
            assert(fwd_recorded == exists|j: int| 0 <= j < i + 1 && j % 2 == 0 && #[trigger] rec@[j]) by {
                if rec@[i as int] && forward {
                    assert(0 <= i < i + 1 && i % 2 == 0 && rec@[i as int]);
                }
            }
            assert(bwd_recorded == exists|j: int| 0 <= j < i + 1 && j % 2 == 1 && #[trigger] rec@[j]) by {
                if rec@[i as int] && !forward {
                    assert(0 <= i < i + 1 && i % 2 == 1 && rec@[i as int]);
                }
            }
        }
        i = i + 1;
    }
    out
}

/// `"TRUE"` or `"FALSE"`.
pub fn fmt_bool(b: bool) -> (r: String)
    ensures
        b ==> r@ == "TRUE"@,
        !b ==> r@ == "FALSE"@,
{
    if b {
        String::from_str("TRUE")
    } else {
        String::from_str("FALSE")
    }
}

// ============================================================================
// The INI layer
// ============================================================================

/// What `format!("{:?}", s)` renders for a string: quoted and escaped.
pub uninterp spec fn str_debug(s: Seq<char>) -> Seq<char>;

/// `format!("{s:?}")` for a string slice: the string quoted and escaped as
/// `Debug` renders it. Stated: the rendering depends on the text alone.
#[verifier::external_body]
fn debug_str(s: &str) -> (r: String)
    ensures
        r@ == str_debug(s@),
{
    format!("{s:?}")
}

/// What `str::parse::<i32>` makes of `s`: an optional `+` or `-`, then one
/// or more ASCII digits, whose value fits an `i32`.
pub open spec fn i32_from_text(s: Seq<char>) -> Option<i32> {
    let neg = s.len() > 0 && s[0] == '-';
    let digits = if s.len() > 0 && (s[0] == '-' || s[0] == '+') {
        s.drop_first()
    } else {
        s
    };
    if !all_digits(digits) {
        None
    } else {
        let v = if neg {
            -digits_value(digits)
        } else {
            digits_value(digits)
        };
        if i32::MIN <= v <= i32::MAX {
            Some(v as i32)
        } else {
            None
        }
    }
}

/// `s` parsed as `str::parse::<i32>` parses it, with the error dropped: an
/// optional sign and decimal digits whose value fits, `None` for anything
/// else.
fn parse_i32(s: &str) -> (r: Option<i32>)
    ensures
        r == i32_from_text(s@),
{
    let n = s.unicode_len();
    let neg = n > 0 && s.get_char(0) == '-';
    let first: usize = if n > 0 && (s.get_char(0) == '-' || s.get_char(0) == '+') {
        1
    } else {
        0
    };
    let ghost digits = if s@.len() > 0 && (s@[0] == '-' || s@[0] == '+') {
        s@.drop_first()
    } else {
        s@
    };
    proof {
        assert(digits =~= s@.subrange(first as int, n as int));
    }
    if first == n {
        return None;
    }
    let mut value: u64 = 0;
    let mut i: usize = first;
    proof {
        assert(s@.subrange(first as int, first as int) =~= Seq::<char>::empty());
    }
    while i < n
        invariant
            n == s@.len(),
            first <= i <= n,
            digits =~= s@.subrange(first as int, n as int),
            digits == (if s@.len() > 0 && (s@[0] == '-' || s@[0] == '+') {
                s@.drop_first()
            } else {
                s@
            }),
            neg == (s@.len() > 0 && s@[0] == '-'),
            value == digits_value(s@.subrange(first as int, i as int)),
            value <= 2147483648u64,
            forall|j: int| first <= j < i ==> '0' <= #[trigger] s@[j] <= '9',
        decreases n - i,
    {
        let c = s.get_char(i);
        proof {
            assert(s@.subrange(first as int, i + 1).drop_last() =~= s@.subrange(
                first as int,
                i as int,
            ));
        }
        if c < '0' || c > '9' {
            proof {
                assert(digits[i - first] == c);
                assert(!all_digits(digits));
            }
            return None;
        }
        let d = (c as u32 - '0' as u32) as u64;
        proof {
            assert(digits_value(s@.subrange(first as int, i + 1)) == 10 * value + d);
        }
        value = value * 10 + d;
        if value > 2147483648u64 {
            proof {
                assert(digits.take(i + 1 - first) =~= s@.subrange(first as int, i + 1));
                if all_digits(digits) {
                    lemma_prefix_value_le(digits, (i + 1 - first) as nat);
                    assert(digits_value(digits) > 2147483648);
                }
            }
            return None;
        }
        i = i + 1;
    }
    proof {
        assert(s@.subrange(first as int, n as int) =~= digits);
        assert(all_digits(digits));
    }
    if neg {
        Some((-(value as i64)) as i32)
    } else if value > 2147483647u64 {
        None
    } else {
        Some(value as i32)
    }
}

/// `s` with the ASCII lower-case letters made upper-case, as
/// `str::to_ascii_uppercase` gives it.
pub open spec fn ascii_upper(s: Seq<char>) -> Seq<char> {
    s.map_values(|c: char| if 'a' <= c <= 'z' { ((c as u32) - 32) as char } else { c })
}

/// The upper-case letter of the ASCII lower-case letter `c`.
fn upper_letter(c: char) -> (s: &'static str)
    requires
        'a' <= c <= 'z',
    ensures
        s@ == seq![((c as u32) - 32) as char],
{
    proof {
        reveal_strlit("A");
        reveal_strlit("B");
        reveal_strlit("C");
        reveal_strlit("D");
        reveal_strlit("E");
        reveal_strlit("F");
        reveal_strlit("G");
        reveal_strlit("H");
        reveal_strlit("I");
        reveal_strlit("J");
        reveal_strlit("K");
        reveal_strlit("L");
        reveal_strlit("M");
        reveal_strlit("N");
        reveal_strlit("O");
        reveal_strlit("P");
        reveal_strlit("Q");
        reveal_strlit("R");
        reveal_strlit("S");
        reveal_strlit("T");
        reveal_strlit("U");
        reveal_strlit("V");
        reveal_strlit("W");
        reveal_strlit("X");
        reveal_strlit("Y");
        reveal_strlit("Z");
    }
    if c == 'a' {
        "A"
    } else if c == 'b' {
        "B"
    } else if c == 'c' {
        "C"
    } else if c == 'd' {
        "D"
    } else if c == 'e' {
        "E"
    } else if c == 'f' {
        "F"
    } else if c == 'g' {
        "G"
    } else if c == 'h' {
        "H"
    } else if c == 'i' {
        "I"
    } else if c == 'j' {
        "J"
    } else if c == 'k' {
        "K"
    } else if c == 'l' {
        "L"
    } else if c == 'm' {
        "M"
    } else if c == 'n' {
        "N"
    } else if c == 'o' {
        "O"
    } else if c == 'p' {
        "P"
    } else if c == 'q' {
        "Q"
    } else if c == 'r' {
        "R"
    } else if c == 's' {
        "S"
    } else if c == 't' {
        "T"
    } else if c == 'u' {
        "U"
    } else if c == 'v' {
        "V"
    } else if c == 'w' {
        "W"
    } else if c == 'x' {
        "X"
    } else if c == 'y' {
        "Y"
    } else {
        "Z"
    }
}

/// `s` with every ASCII lower-case letter made upper-case and everything
/// else kept, as `str::to_ascii_uppercase` gives it.
fn to_ascii_uppercase(s: &str) -> (r: String)
    ensures
        r@ == ascii_upper(s@),
{
    let n = s.unicode_len();
    let mut out = String::new();
    let mut i: usize = 0;
    while i < n
        invariant
            n == s@.len(),
            i <= n,
            out@ =~= ascii_upper(s@.take(i as int)),
        decreases n - i,
    {
        let c = s.get_char(i);
        if 'a' <= c && c <= 'z' {
            out.append(upper_letter(c));
        } else {
            out.append(s.substring_char(i, i + 1));
        }
        proof {
            assert(s@.take(i + 1) =~= s@.take(i as int).push(c));
        }
        i = i + 1;
    }
    proof {
        assert(s@.take(n as int) =~= s@);
    }
    out
}

/// `value` without its surrounding double quotes, if it has both.
pub open spec fn unquoted(v: Seq<char>) -> Seq<char> {
    if v.len() >= 2 && v[0] == '"' && v.last() == '"' {
        v.subrange(1, v.len() - 1)
    } else {
        v
    }
}

/// The position of the last entry named `k`, or -1.
pub open spec fn find<V>(l: Seq<(Seq<char>, V)>, k: Seq<char>) -> int
    decreases l.len(),
{
    if l.len() == 0 {
        -1
    } else if l.last().0 == k {
        l.len() - 1
    } else {
        find(l.drop_last(), k)
    }
}

/// The value of the last entry named `k`.
pub open spec fn lookup<V>(l: Seq<(Seq<char>, V)>, k: Seq<char>) -> Option<V> {
    if find(l, k) >= 0 {
        Some(l[find(l, k)].1)
    } else {
        None
    }
}

/// `l` with `k` set to `v`: the entry named `k` replaced, or a new entry
/// added at the end.
pub open spec fn assoc_insert<V>(l: Seq<(Seq<char>, V)>, k: Seq<char>, v: V) -> Seq<(Seq<char>, V)> {
    if find(l, k) >= 0 {
        l.update(find(l, k), (k, v))
    } else {
        l.push((k, v))
    }
}

/// The keys of one section and their values.
pub type SectionView = Seq<(Seq<char>, Seq<char>)>;

/// The sections of a file by name.
pub type SectionsView = Seq<(Seq<char>, SectionView)>;

/// Where parsing stands: the sections so far and the section being read.
pub type IniState = (SectionsView, Option<Seq<char>>);

/// `sections` with a section named `name`, empty if it is new.
pub open spec fn with_section(sections: SectionsView, name: Seq<char>) -> SectionsView {
    if find(sections, name) >= 0 {
        sections
    } else {
        sections.push((name, Seq::empty()))
    }
}

/// `sections` with `key` set to `value` in the section named `name`.
pub open spec fn with_key(sections: SectionsView, name: Seq<char>, key: Seq<char>, value: Seq<
    char,
>) -> SectionsView {
    let i = find(sections, name);
    if i >= 0 {
        sections.update(i, (name, assoc_insert(sections[i].1, key, value)))
    } else {
        sections
    }
}

/// The position of the first `'='` in `s`, or -1.
pub open spec fn first_eq(s: Seq<char>) -> int
    decreases s.len(),
{
    if s.len() == 0 {
        -1
    } else if first_eq(s.drop_last()) >= 0 {
        first_eq(s.drop_last())
    } else if s.last() == '=' {
        s.len() - 1
    } else {
        -1
    }
}

/// One line of the file read into `state`.
pub open spec fn read_line(state: IniState, raw: Seq<char>) -> Result<IniState, Seq<char>> {
    let line = trim(raw);
    let (sections, current) = state;
    if line.len() == 0 || line[0] == ';' {
        Ok(state)
    } else if line.len() >= 2 && line[0] == '[' && line.last() == ']' {
        let name = trim(line.subrange(1, line.len() - 1));
        Ok((with_section(sections, name), Some(name)))
    } else if first_eq(line) < 0 {
        Err("line is neither section nor key: "@ + str_debug(line))
    } else {
        let key = line.subrange(0, first_eq(line));
        let value = line.subrange(first_eq(line) + 1, line.len() as int);
        match current {
            None => Err("key "@ + str_debug(key) + " before any section"@),
            Some(name) => Ok((with_key(sections, name, trim(key), unquoted(trim(value))), current)),
        }
    }
}

/// The lines read into `state` in order, stopping at the first error.
pub open spec fn read_lines(state: IniState, lines: Seq<Seq<char>>) -> Result<IniState, Seq<char>>
    decreases lines.len(),
{
    if lines.len() == 0 {
        Ok(state)
    } else {
        match read_lines(state, lines.drop_last()) {
            Err(e) => Err(e),
            Ok(s) => read_line(s, lines.last()),
        }
    }
}

/// What parsing `text` gives: the sections, or the first error.
pub open spec fn parsed_ini(text: Seq<char>) -> Result<SectionsView, Seq<char>> {
    match read_lines((Seq::empty(), None), split_lines(text)) {
        Ok((sections, _)) => Ok(sections),
        Err(e) => Err(e),
    }
}

/// One section: keys and their unquoted values.
pub struct Section {
    entries: Vec<(String, String)>,
}

/// The view of a list of string pairs.
pub open spec fn pairs_view(v: Seq<(String, String)>) -> SectionView {
    v.map_values(|p: (String, String)| (p.0@, p.1@))
}

impl View for Section {
    type V = SectionView;

    closed spec fn view(&self) -> SectionView {
        pairs_view(self.entries@)
    }
}

/// The sections of a file, by name.
pub struct Sections {
    entries: Vec<(String, Section)>,
}

/// The view of a list of named sections.
pub open spec fn sections_view(v: Seq<(String, Section)>) -> SectionsView {
    v.map_values(|p: (String, Section)| (p.0@, p.1@))
}

impl View for Sections {
    type V = SectionsView;

    closed spec fn view(&self) -> SectionsView {
        sections_view(self.entries@)
    }
}

fn find_pair(l: &Vec<(String, String)>, k: &str) -> (r: Option<usize>)
    ensures
        find(pairs_view(l@), k@) >= 0 ==> (r matches Some(j) && j as int == find(pairs_view(l@), k@)),
        find(pairs_view(l@), k@) < 0 ==> r is None,
{
    let key = String::from_str(k);
    let mut i = l.len();
    proof {
        assert(pairs_view(l@).take(i as int) =~= pairs_view(l@));
    }
    while i > 0
        invariant
            i <= l@.len(),
            key@ == k@,
            find(pairs_view(l@), k@) == find(pairs_view(l@).take(i as int), k@),
        decreases i,
    {
        let ghost v = pairs_view(l@);
        proof {
            assert(v.take(i as int).drop_last() =~= v.take(i - 1));
        }
        if l[i - 1].0 == key {
            return Some(i - 1);
        }
        i = i - 1;
    }
    proof {
        assert(pairs_view(l@).take(0) =~= Seq::<(Seq<char>, Seq<char>)>::empty());
    }
    None
}

fn find_section(l: &Vec<(String, Section)>, k: &str) -> (r: Option<usize>)
    ensures
        find(sections_view(l@), k@) >= 0 ==> (r matches Some(j) && j as int == find(sections_view(l@), k@)),
        find(sections_view(l@), k@) < 0 ==> r is None,
{
    let key = String::from_str(k);
    let mut i = l.len();
    proof {
        assert(sections_view(l@).take(i as int) =~= sections_view(l@));
    }
    while i > 0
        invariant
            i <= l@.len(),
            key@ == k@,
            find(sections_view(l@), k@) == find(sections_view(l@).take(i as int), k@),
        decreases i,
    {
        let ghost v = sections_view(l@);
        proof {
            assert(v.take(i as int).drop_last() =~= v.take(i - 1));
        }
        if l[i - 1].0 == key {
            return Some(i - 1);
        }
        i = i - 1;
    }
    proof {
        assert(sections_view(l@).take(0) =~= Seq::<(Seq<char>, SectionView)>::empty());
    }
    None
}

proof fn lemma_find_in_range<V>(l: Seq<(Seq<char>, V)>, k: Seq<char>)
    ensures
        -1 <= find(l, k) < l.len(),
        find(l, k) >= 0 ==> l[find(l, k)].0 == k,
    decreases l.len(),
{
    if l.len() > 0 {
        lemma_find_in_range(l.drop_last(), k);
    }
}

impl Section {
    /// The value of `key`, if the section has it.
    pub fn get(&self, key: &str) -> (r: Option<&String>)
        ensures
            match lookup(self@, key@) {
                Some(v) => r matches Some(s) && s@ == v,
                None => r is None,
            },
    {
        proof {
            lemma_find_in_range(self@, key@);
        }
        match find_pair(&self.entries, key) {
            Some(i) => {
                proof {
                    assert(pairs_view(self.entries@)[i as int] == (
                        self.entries@[i as int].0@,
                        self.entries@[i as int].1@,
                    ));
                }
                Some(&self.entries[i].1)
            },
            None => None,
        }
    }

    fn insert(&mut self, key: String, value: String)
        ensures
            final(self)@ == assoc_insert(old(self)@, key@, value@),
    {
        proof {
            lemma_find_in_range(self@, key@);
        }
        match find_pair(&self.entries, key.as_str()) {
            Some(i) => {
                let ghost before = self.entries@;
                self.entries.set(i, (key, value));
                proof {
                    assert(pairs_view(self.entries@) =~= assoc_insert(
                        pairs_view(before),
                        key@,
                        value@,
                    ));
                }
            },
            None => {
                let ghost before = self.entries@;
                let ghost kv = key@;
                let ghost vv = value@;
                self.entries.push((key, value));
                proof {
                    assert(pairs_view(self.entries@) =~= pairs_view(before).push((kv, vv)));
                }
            },
        }
    }
}

impl Sections {
    /// The section named `name`, if there is one.
    pub fn get(&self, name: &str) -> (r: Option<&Section>)
        ensures
            match lookup(self@, name@) {
                Some(v) => r matches Some(s) && s@ == v,
                None => r is None,
            },
    {
        proof {
            lemma_find_in_range(self@, name@);
        }
        match find_section(&self.entries, name) {
            Some(i) => {
                proof {
                    assert(sections_view(self.entries@)[i as int] == (
                        self.entries@[i as int].0@,
                        self.entries@[i as int].1@,
                    ));
                }
                Some(&self.entries[i].1)
            },
            None => None,
        }
    }

    /// The sections by name, in the order they first appear.
    pub fn entries(&self) -> (r: &[(String, Section)])
        ensures
            sections_view(r@) == self@,
    {
        self.entries.as_slice()
    }

    fn ensure_section(&mut self, name: &str)
        ensures
            final(self)@ == with_section(old(self)@, name@),
    {
        match find_section(&self.entries, name) {
            Some(_) => {},
            None => {
                let ghost before = self.entries@;
                self.entries.push((String::from_str(name), Section { entries: Vec::new() }));
                proof {
                    assert(pairs_view(Seq::<(String, String)>::empty()) =~= Seq::<
                        (Seq<char>, Seq<char>),
                    >::empty());
                    assert(sections_view(self.entries@) =~= sections_view(before).push(
                        (name@, Seq::empty()),
                    ));
                }
            },
        }
    }

    fn set_key(&mut self, name: &str, key: String, value: String)
        ensures
            final(self)@ == with_key(old(self)@, name@, key@, value@),
    {
        proof {
            lemma_find_in_range(self@, name@);
        }
        match find_section(&self.entries, name) {
            Some(i) => {
                let ghost before = self.entries@;
                let mut entry = self.entries.remove(i);
                entry.1.insert(key, value);
                self.entries.insert(i, entry);
                proof {
                    assert(sections_view(self.entries@) =~= sections_view(before).update(
                        i as int,
                        (name@, assoc_insert(sections_view(before)[i as int].1, key@, value@)),
                    ));
                }
            },
            None => {},
        }
    }
}

/// The position of the first `'='` in `s`.
pub(crate) fn find_eq(s: &str) -> (r: Option<usize>)
    ensures
        first_eq(s@) >= 0 ==> r == Some(first_eq(s@) as usize),
        first_eq(s@) < 0 ==> r is None,
{
    let n = s.unicode_len();
    let mut i: usize = 0;
    while i < n
        invariant
            n == s@.len(),
            i <= n,
            first_eq(s@.take(i as int)) < 0,
        decreases n - i,
    {
        proof {
            assert(s@.take(i + 1).drop_last() =~= s@.take(i as int));
        }
        if s.get_char(i) == '=' {
            proof {
                lemma_first_eq_extend(s@, (i + 1) as nat);
            }
            return Some(i);
        }
        i = i + 1;
    }
    proof {
        assert(s@.take(n as int) =~= s@);
    }
    None
}

/// Once an `'='` is found, longer prefixes find the same one.
pub(crate) proof fn lemma_first_eq_extend(s: Seq<char>, k: nat)
    requires
        k <= s.len(),
        first_eq(s.take(k as int)) >= 0,
    ensures
        first_eq(s) == first_eq(s.take(k as int)),
    decreases s.len() - k,
{
    if k < s.len() {
        assert(s.take(k + 1 as int).drop_last() =~= s.take(k as int));
        lemma_first_eq_extend(s, k + 1);
    } else {
        assert(s.take(k as int) =~= s);
    }
}

pub(crate) proof fn lemma_first_eq_in_range(s: Seq<char>)
    ensures
        -1 <= first_eq(s) < s.len(),
    decreases s.len(),
{
    if s.len() > 0 {
        lemma_first_eq_in_range(s.drop_last());
    }
}

/// `value` without its surrounding double quotes, if it has both.
pub fn unquote(value: &str) -> (r: &str)
    ensures
        r@ == unquoted(value@),
{
    let n = value.unicode_len();
    if n >= 2 && value.get_char(0) == '"' && value.get_char(n - 1) == '"' {
        value.substring_char(1, n - 1)
    } else {
        value
    }
}

fn read_one_line(sections: &mut Sections, current: &mut Option<String>, raw: &str) -> (r: Result<
    (),
    String,
>)
    ensures
        match read_line((old(sections)@, opt_view(*old(current))), raw@) {
            Ok((s, c)) => r is Ok && final(sections)@ == s && opt_view(*final(current)) == c,
            Err(e) => r matches Err(m) && m@ == e,
        },
{
    let line_owned = trim_str(raw);
    let line = line_owned.as_str();
    let n = line.unicode_len();
    if n == 0 || line.get_char(0) == ';' {
        return Ok(());
    }
    if n >= 2 && line.get_char(0) == '[' && line.get_char(n - 1) == ']' {
        let inner = line.substring_char(1, n - 1);
        let name = trim_str(inner);
        sections.ensure_section(name.as_str());
        *current = Some(name);
        return Ok(());
    }
    proof {
        lemma_first_eq_in_range(line@);
    }
    match find_eq(line) {
        None => {
            let mut m = String::from_str("line is neither section nor key: ");
            let d = debug_str(line);
            m.append(d.as_str());
            Err(m)
        },
        Some(i) => {
            let key = line.substring_char(0, i);
            let value = line.substring_char(i + 1, n);
            match current {
                None => {
                    let mut m = String::from_str("key ");
                    let d = debug_str(key);
                    m.append(d.as_str());
                    m.append(" before any section");
                    Err(m)
                },
                Some(name) => {
                    let k = trim_str(key);
                    let v = trim_str(value);
                    let u = String::from_str(unquote(v.as_str()));
                    sections.set_key(name.as_str(), k, u);
                    Ok(())
                },
            }
        },
    }
}

/// The view of an optional string.
pub open spec fn opt_view(o: Option<String>) -> Option<Seq<char>> {
    match o {
        Some(s) => Some(s@),
        None => None,
    }
}

proof fn lemma_read_lines_fail_stays(state: IniState, lines: Seq<Seq<char>>, k: nat)
    requires
        k <= lines.len(),
        read_lines(state, lines.take(k as int)) is Err,
    ensures
        read_lines(state, lines) == read_lines(state, lines.take(k as int)),
    decreases lines.len() - k,
{
    if k < lines.len() {
        assert(lines.take(k + 1 as int).drop_last() =~= lines.take(k as int));
        lemma_read_lines_fail_stays(state, lines, k + 1);
    } else {
        assert(lines.take(k as int) =~= lines);
    }
}

/// Sections keyed by name, each a list of key to unquoted value. Lines are
/// trimmed; blank lines and lines starting with `;` are skipped; `[name]`
/// opens (or reopens) a section; `key = value` sets a key of the section
/// open; anything else, or a key before any section, is an error.
pub fn parse_ini(text: &str) -> (r: Result<Sections, String>)
    ensures
        match parsed_ini(text@) {
            Ok(s) => r matches Ok(sections) && sections@ == s,
            Err(e) => r matches Err(m) && m@ == e,
        },
{
    let mut sections = Sections { entries: Vec::new() };
    let mut current: Option<String> = None;
    let n = text.unicode_len();
    let mut start: usize = 0;
    let mut i: usize = 0;
    let ghost mut done: Seq<Seq<char>> = Seq::empty();
    proof {
        assert(sections_view(sections.entries@) =~= Seq::<(Seq<char>, SectionView)>::empty());
        assert(text@.take(0) =~= Seq::<char>::empty());
        assert(text@.subrange(0, 0) =~= Seq::<char>::empty());
        assert(split_lines(text@.take(0)) =~= done.push(text@.subrange(0, 0)));
    }
    while i < n
        invariant
            n == text@.len(),
            start <= i <= n,
            split_lines(text@.take(i as int)) == done.push(text@.subrange(start as int, i as int)),
            read_lines((Seq::empty(), None), done) == Ok::<IniState, Seq<char>>(
                (sections@, opt_view(current)),
            ),
        decreases n - i,
    {
        proof {
            assert(text@.take(i + 1).drop_last() =~= text@.take(i as int));
        }
        if text.get_char(i) == '\n' {
            let line = text.substring_char(start, i);
            let ghost line_view = line@;
            match read_one_line(&mut sections, &mut current, line) {
                Ok(()) => {},
                Err(e) => {
                    proof {
                        let lines = split_lines(text@);
                        lemma_split_lines_prefix(text@, (i + 1) as nat);
                        let k = done.len() + 1;
                        assert(lines.take(k as int) =~= done.push(line_view));
                        assert(done.push(line_view).drop_last() =~= done);
                        lemma_read_lines_fail_stays((Seq::empty(), None), lines, k);
                    }
                    return Err(e);
                },
            }
            proof {
                let ghost d2 = done.push(line_view);
                assert(d2.drop_last() =~= done);
                assert(text@.subrange((i + 1) as int, (i + 1) as int) =~= Seq::<char>::empty());
                done = d2;
            }
            start = i + 1;
        } else {
            proof {
                assert(text@.subrange(start as int, i + 1) =~= text@.subrange(
                    start as int,
                    i as int,
                ).push(text@[i as int]));
            }
        }
        i = i + 1;
    }
    let line = text.substring_char(start, n);
    proof {
        assert(text@.take(n as int) =~= text@);
        assert(done.push(line@).drop_last() =~= done);
    }
    match read_one_line(&mut sections, &mut current, line) {
        Ok(()) => Ok(sections),
        Err(e) => Err(e),
    }
}

/// The lines of a prefix that ends just after a `'\n'` are the first lines
/// of the whole text.
proof fn lemma_split_lines_prefix(t: Seq<char>, k: nat)
    requires
        0 < k <= t.len(),
        t[k - 1] == '\n',
    ensures
        split_lines(t).len() >= split_lines(t.take(k as int)).len(),
        split_lines(t).take(split_lines(t.take(k as int)).len() - 1) =~= split_lines(
            t.take(k as int),
        ).drop_last(),
    decreases t.len() - k,
{
    if k < t.len() {
        lemma_split_lines_prefix(t.take(t.len() - 1), k);
        assert(t.take(t.len() - 1).take(k as int) =~= t.take(k as int));
        lemma_split_lines_len(t.take(t.len() - 1));
        assert(t.take(t.len() - 1) =~= t.drop_last());
    } else {
        assert(t.take(k as int) =~= t);
    }
}

proof fn lemma_split_lines_len(t: Seq<char>)
    ensures
        split_lines(t).len() >= 1,
    decreases t.len(),
{
    if t.len() > 0 {
        lemma_split_lines_len(t.drop_last());
    }
}

/// The value of `key` in `section`, or `"[{section}] has no {key:?}"`.
pub fn get<'a>(s: &'a Section, section: &str, key: &str) -> (r: Result<&'a str, String>)
    ensures
        match lookup(s@, key@) {
            Some(v) => r matches Ok(t) && t@ == v,
            None => r matches Err(m) && m@ == "["@ + section@ + "] has no "@ + str_debug(key@),
        },
{
    match s.get(key) {
        Some(v) => Ok(v.as_str()),
        None => {
            let mut m = String::from_str("[");
            m.append(section);
            m.append("] has no ");
            let d = debug_str(key);
            m.append(d.as_str());
            Err(m)
        },
    }
}

/// What `boolean` gives for the value `v` of `key` in `section`.
pub open spec fn boolean_of(v: Seq<char>, section: Seq<char>, key: Seq<char>) -> Result<
    bool,
    Seq<char>,
> {
    if ascii_upper(v) == "TRUE"@ {
        Ok(true)
    } else if ascii_upper(v) == "FALSE"@ {
        Ok(false)
    } else {
        Err(
            "["@ + section + "] "@ + key + " is "@ + str_debug(ascii_upper(v))
                + ", expected TRUE or FALSE"@,
        )
    }
}

/// A `TRUE`/`FALSE` value, in any letter case.
pub fn boolean(s: &Section, section: &str, key: &str) -> (r: Result<bool, String>)
    ensures
        match lookup(s@, key@) {
            Some(v) => match boolean_of(v, section@, key@) {
                Ok(b) => r == Ok::<bool, String>(b),
                Err(e) => r matches Err(m) && m@ == e,
            },
            None => r matches Err(m) && m@ == "["@ + section@ + "] has no "@ + str_debug(key@),
        },
{
    let value = get(s, section, key)?;
    let upper = to_ascii_uppercase(value);
    if upper == String::from_str("TRUE") {
        Ok(true)
    } else if upper == String::from_str("FALSE") {
        Ok(false)
    } else {
        let mut m = String::from_str("[");
        m.append(section);
        m.append("] ");
        m.append(key);
        m.append(" is ");
        let d = debug_str(upper.as_str());
        m.append(d.as_str());
        m.append(", expected TRUE or FALSE");
        Err(m)
    }
}

/// An integer value.
pub fn integer(s: &Section, section: &str, key: &str) -> (r: Result<i32, String>)
    ensures
        match lookup(s@, key@) {
            Some(v) => match i32_from_text(v) {
                Some(n) => r == Ok::<i32, String>(n),
                None => r matches Err(m) && m@ == "["@ + section@ + "] "@ + key@
                    + " is not an integer: "@ + str_debug(v),
            },
            None => r matches Err(m) && m@ == "["@ + section@ + "] has no "@ + str_debug(key@),
        },
{
    let value = get(s, section, key)?;
    match parse_i32(value) {
        Some(n) => Ok(n),
        None => {
            let mut m = String::from_str("[");
            m.append(section);
            m.append("] ");
            m.append(key);
            m.append(" is not an integer: ");
            let d = debug_str(value);
            m.append(d.as_str());
            Err(m)
        },
    }
}

/// Strings are optional: an absent one reads the same as an empty one.
pub fn string(s: &Section, key: &str) -> (r: String)
    ensures
        match lookup(s@, key@) {
            Some(v) => r@ == v,
            None => r@ == Seq::<char>::empty(),
        },
{
    match s.get(key) {
        Some(v) => v.clone(),
        None => String::new(),
    }
}


// ============================================================================
// Laws
// ============================================================================

/// Sections alternate: neighbours drive opposite directions, and every
/// second section drives the same one, starting forward.
pub proof fn law_sections_alternate(index: nat)
    ensures
        direction_of(0) == PassDirection::Forward,
        direction_of(index + 1int) != direction_of(index as int),
        direction_of(index + 2int) == direction_of(index as int),
{
}

/// Each pass has two sections, forward then backward, and the GUI numbers
/// passes from 1: the sections of pass `p + 1` are `2p` and `2p + 1`,
/// labelled `Fwd #(p + 1)` and `Bwd #(p + 1)`.
pub proof fn law_sections_are_labelled_by_their_pass(p: nat)
    ensures
        label_text(2 * p) == "Fwd #"@ + decimal_text(p + 1),
        label_text(2 * p + 1) == "Bwd #"@ + decimal_text(p + 1),
{
    assert((2 * p) / 2 == p && (2 * p) % 2 == 0) by (nonlinear_arith);
    assert((2 * p + 1) / 2 == p && (2 * p + 1) % 2 == 1) by (nonlinear_arith);
}

/// Setting a key makes it read back as the value set, and leaves every
/// other key as it was: the last line that sets a key wins.
pub proof fn law_last_value_wins<V>(l: Seq<(Seq<char>, V)>, k: Seq<char>, v: V, other: Seq<char>)
    requires
        other != k,
    ensures
        lookup(assoc_insert(l, k, v), k) == Some(v),
        lookup(assoc_insert(l, k, v), other) == lookup(l, other),
    decreases l.len(),
{
    lemma_find_in_range(l, k);
    lemma_find_in_range(l, other);
    let r = assoc_insert(l, k, v);
    lemma_find_in_range(r, k);
    lemma_find_in_range(r, other);
    if find(l, k) >= 0 {
        lemma_find_update(l, find(l, k), (k, v), k);
        lemma_find_update(l, find(l, k), (k, v), other);
    } else {
        assert(r.drop_last() =~= l);
    }
}

/// Replacing the entry at `i` by one with the same name finds names where
/// they were found before.
proof fn lemma_find_update<V>(l: Seq<(Seq<char>, V)>, i: int, e: (Seq<char>, V), k: Seq<char>)
    requires
        0 <= i < l.len(),
        e.0 == l[i].0,
    ensures
        find(l.update(i, e), k) == find(l, k),
    decreases l.len(),
{
    let u = l.update(i, e);
    if i == l.len() - 1 {
        assert(u.drop_last() =~= l.drop_last());
    } else {
        assert(u.drop_last() =~= l.drop_last().update(i, e));
        lemma_find_update(l.drop_last(), i, e, k);
    }
}

// ============================================================================
// Pass numbering
// ============================================================================

/// The pass number of a section named `PassN`, as `str::parse::<u32>`
/// reads `N`; `None` for any other name.
pub open spec fn pass_number(name: Seq<char>) -> Option<nat> {
    if name.len() >= 4 && name.take(4) == "Pass"@ {
        match usize_from_text(name.skip(4)) {
            Some(v) => if v <= u32::MAX {
                Some(v as nat)
            } else {
                None
            },
            None => None,
        }
    } else {
        None
    }
}

/// The pass numbers of the sections, in file order.
pub open spec fn pass_numbers(v: SectionsView) -> Seq<nat>
    decreases v.len(),
{
    if v.len() == 0 {
        Seq::empty()
    } else {
        match pass_number(v.last().0) {
            Some(n) => pass_numbers(v.drop_last()).push(n),
            None => pass_numbers(v.drop_last()),
        }
    }
}

/// `x` put into the ascending `s` before the first number not below it.
pub open spec fn insert_sorted(s: Seq<nat>, x: nat) -> Seq<nat>
    decreases s.len(),
{
    if s.len() == 0 {
        seq![x]
    } else if x <= s[0] {
        seq![x] + s
    } else {
        seq![s[0]] + insert_sorted(s.drop_first(), x)
    }
}

/// The numbers of `s` in ascending order.
pub open spec fn sorted_nats(s: Seq<nat>) -> Seq<nat>
    decreases s.len(),
{
    if s.len() == 0 {
        Seq::empty()
    } else {
        insert_sorted(sorted_nats(s.drop_last()), s.last())
    }
}

/// `"[a, b, c]"`, the numbers as a `Vec`'s `Debug` lists them.
pub open spec fn numbers_text(s: Seq<nat>) -> Seq<char> {
    "["@ + numbers_items(s) + "]"@
}

/// The numbers separated by `", "`.
pub open spec fn numbers_items(s: Seq<nat>) -> Seq<char>
    decreases s.len(),
{
    if s.len() == 0 {
        Seq::empty()
    } else if s.len() == 1 {
        decimal_text(s[0])
    } else {
        numbers_items(s.drop_last()) + ", "@ + decimal_text(s.last())
    }
}

/// Whether the ascending numbers run 1, 2, …, without a gap or a repeat.
pub open spec fn numbered_from_one(sorted: Seq<nat>) -> bool {
    forall|j: int| 0 <= j < sorted.len() ==> #[trigger] sorted[j] == j + 1
}

proof fn lemma_insert_sorted_at(s: Seq<nat>, x: nat, j: int)
    requires
        0 <= j <= s.len(),
        forall|a: int| 0 <= a < j ==> s[a] < x,
        j < s.len() ==> s[j] >= x,
    ensures
        insert_sorted(s, x) == s.insert(j, x),
    decreases s.len(),
{
    if s.len() > 0 && j > 0 {
        lemma_insert_sorted_at(s.drop_first(), x, j - 1);
        assert(seq![s[0]] + s.drop_first().insert(j - 1, x) =~= s.insert(j, x));
    } else if s.len() > 0 {
        assert(seq![x] + s =~= s.insert(0, x));
    } else {
        assert(seq![x] =~= s.insert(0, x));
    }
}

proof fn lemma_insert_sorted_contains(s: Seq<nat>, x: nat, y: nat)
    requires
        insert_sorted(s, x).contains(y),
    ensures
        y == x || s.contains(y),
    decreases s.len(),
{
    if s.len() > 0 && x > s[0] {
        let t = insert_sorted(s.drop_first(), x);
        let k = choose|k: int| 0 <= k < insert_sorted(s, x).len() && insert_sorted(s, x)[k] == y;
        if k > 0 {
            assert(t[k - 1] == y);
            lemma_insert_sorted_contains(s.drop_first(), x, y);
            if s.drop_first().contains(y) {
                let m = choose|m: int| 0 <= m < s.drop_first().len() && s.drop_first()[m] == y;
                assert(s[m + 1] == y);
            }
        } else {
            assert(s[0] == y);
        }
    } else if s.len() > 0 {
        let k = choose|k: int| 0 <= k < insert_sorted(s, x).len() && insert_sorted(s, x)[k] == y;
        if k > 0 {
            assert(s[k - 1] == y);
        }
    }
}

proof fn lemma_sorted_nats_contains(s: Seq<nat>, y: nat)
    requires
        sorted_nats(s).contains(y),
    ensures
        s.contains(y),
    decreases s.len(),
{
    if s.len() > 0 {
        lemma_insert_sorted_contains(sorted_nats(s.drop_last()), s.last(), y);
        if y != s.last() {
            lemma_sorted_nats_contains(s.drop_last(), y);
            let m = choose|m: int| 0 <= m < s.drop_last().len() && s.drop_last()[m] == y;
            assert(s[m] == y);
        } else {
            assert(s[s.len() - 1] == y);
        }
    }
}

proof fn lemma_insert_sorted_len(s: Seq<nat>, x: nat)
    ensures
        insert_sorted(s, x).len() == s.len() + 1,
    decreases s.len(),
{
    if s.len() > 0 && x > s[0] {
        lemma_insert_sorted_len(s.drop_first(), x);
    }
}

proof fn lemma_sorted_nats_len(s: Seq<nat>)
    ensures
        sorted_nats(s).len() == s.len(),
    decreases s.len(),
{
    if s.len() > 0 {
        lemma_sorted_nats_len(s.drop_last());
        lemma_insert_sorted_len(sorted_nats(s.drop_last()), s.last());
    }
}

proof fn lemma_pass_numbers_contains(v: SectionsView, y: nat)
    requires
        pass_numbers(v).contains(y),
    ensures
        exists|i: int| 0 <= i < v.len() && pass_number(#[trigger] v[i].0) == Some(y),
    decreases v.len(),
{
    if v.len() > 0 {
        let rest = pass_numbers(v.drop_last());
        match pass_number(v.last().0) {
            Some(n) => {
                if n == y {
                    assert(pass_number(v[v.len() - 1].0) == Some(y));
                } else {
                    let k = choose|k: int| 0 <= k < rest.push(n).len() && rest.push(n)[k] == y;
                    assert(rest[k] == y);
                    lemma_pass_numbers_contains(v.drop_last(), y);
                    let i = choose|i: int| 0 <= i < v.drop_last().len() && pass_number(#[trigger] v.drop_last()[i].0) == Some(y);
                    assert(v[i] == v.drop_last()[i]);
                }
            },
            None => {
                lemma_pass_numbers_contains(v.drop_last(), y);
                let i = choose|i: int| 0 <= i < v.drop_last().len() && pass_number(#[trigger] v.drop_last()[i].0) == Some(y);
                assert(v[i] == v.drop_last()[i]);
            },
        }
    }
}

/// The numbers of a `Vec<u32>` as naturals.
pub open spec fn nats(v: Seq<u32>) -> Seq<nat> {
    v.map_values(|x: u32| x as nat)
}

/// The pass number of a section named `name`.
fn section_pass_number(name: &str) -> (r: Option<u32>)
    ensures
        match pass_number(name@) {
            Some(n) => r == Some(n as u32),
            None => r is None,
        },
{
    let n = name.unicode_len();
    if n < 4 {
        return None;
    }
    let prefix = String::from_str(name.substring_char(0, 4));
    proof {
        reveal_strlit("Pass");
    }
    if !(prefix == String::from_str("Pass")) {
        return None;
    }
    let rest = name.substring_char(4, n);
    proof {
        assert(rest@ =~= name@.skip(4));
    }
    match parse_usize(rest) {
        Some(v) => if v <= 4294967295usize {
            Some(v as u32)
        } else {
            None
        },
        None => None,
    }
}

/// Put `x` into the ascending `out` before the first number not below it.
fn insert_ascending(out: &mut Vec<u32>, x: u32)
    ensures
        nats(final(out)@) == insert_sorted(nats(old(out)@), x as nat),
{
    let mut j: usize = 0;
    while j < out.len() && out[j] < x
        invariant
            j <= out@.len(),
            forall|a: int| 0 <= a < j ==> out@[a] < x,
        decreases out@.len() - j,
    {
        j = j + 1;
    }
    proof {
        lemma_insert_sorted_at(nats(out@), x as nat, j as int);
    }
    let ghost before = out@;
    out.insert(j, x);
    proof {
        assert(nats(out@) =~= nats(before).insert(j as int, x as nat));
    }
}

/// Append `"[a, b, c]"` for the numbers of `v`.
fn append_numbers(m: &mut String, v: &Vec<u32>)
    ensures
        final(m)@ == old(m)@ + numbers_text(nats(v@)),
{
    m.append("[");
    let mut i: usize = 0;
    proof {
        reveal_strlit("[");
        reveal_strlit("]");
        reveal_strlit(", ");
        assert(nats(v@).take(0) =~= Seq::<nat>::empty());
    }
    while i < v.len()
        invariant
            i <= v@.len(),
            m@ == old(m)@ + "["@ + numbers_items(nats(v@).take(i as int)),
        decreases v@.len() - i,
    {
        proof {
            assert(nats(v@).take(i + 1).drop_last() =~= nats(v@).take(i as int));
        }
        if i > 0 {
            m.append(", ");
        }
        append_decimal(m, v[i] as u64);
        proof {
            if i == 0 {
                assert(nats(v@).take(1) =~= seq![v@[0] as nat]);
            }
            assert(m@ =~= old(m)@ + "["@ + numbers_items(nats(v@).take(i + 1)));
        }
        i = i + 1;
    }
    m.append("]");
    proof {
        assert(nats(v@).take(v@.len() as int) =~= nats(v@));
        assert(m@ =~= old(m)@ + numbers_text(nats(v@)));
    }
}

/// The sections of the passes in pass order: position `j` holds the
/// section numbered `j + 1`. Passes are numbered from 1 without a gap or a
/// repeat; anything else means the file was misread, and is an error that
/// lists the numbers found.
pub fn pass_order(sections: &Sections) -> (r: Result<Vec<usize>, String>)
    ensures
        ({
            let nums = pass_numbers(sections@);
            let sorted = sorted_nats(nums);
            &&& nums.len() == 0 ==> (r matches Err(m) && m@
                == "no [PassN] sections found; not a .mpas file"@)
            &&& nums.len() > 0 && !numbered_from_one(sorted) ==> (r matches Err(m) && m@
                == "passes are numbered "@ + numbers_text(sorted) + ", expected 1..="@
                + decimal_text(nums.len()))
            &&& nums.len() > 0 && numbered_from_one(sorted) ==> (r matches Ok(p) && p@.len()
                == nums.len() && forall|j: int|
                0 <= j < p@.len() ==> #[trigger] p@[j] < sections@.len() && pass_number(
                    sections@[p@[j] as int].0,
                ) == Some((j + 1) as nat))
        }),
{
    let entries = sections.entries();
    let ghost v = sections@;
    let mut nums: Vec<u32> = Vec::new();
    let mut sorted: Vec<u32> = Vec::new();
    let mut i: usize = 0;
    proof {
        assert(v.take(0) =~= Seq::<(Seq<char>, SectionView)>::empty());
    }
    while i < entries.len()
        invariant
            v == sections_view(entries@),
            i <= entries@.len(),
            nats(nums@) == pass_numbers(v.take(i as int)),
            nats(sorted@) == sorted_nats(nats(nums@)),
            nums@.len() <= i,
        decreases entries@.len() - i,
    {
        proof {
            assert(v.take(i + 1).drop_last() =~= v.take(i as int));
        }
        match section_pass_number(entries[i].0.as_str()) {
            Some(n) => {
                let ghost before = nums@;
                nums.push(n);
                insert_ascending(&mut sorted, n);
                proof {
                    assert(nats(nums@) =~= nats(before).push(n as nat));
                    assert(nats(nums@).drop_last() =~= nats(before));
                }
            },
            None => {},
        }
        i = i + 1;
    }
    proof {
        assert(v.take(entries@.len() as int) =~= v);
        lemma_sorted_nats_len(nats(nums@));
    }
    let k = nums.len();
    if k == 0 {
        return Err(String::from_str("no [PassN] sections found; not a .mpas file"));
    }
    let mut j: usize = 0;
    while j < k
        invariant
            k == sorted@.len(),
            k == nums@.len(),
            v == sections_view(entries@),
            nats(nums@) == pass_numbers(v),
            nats(sorted@) == sorted_nats(nats(nums@)),
            v == sections@,
            j <= k,
            forall|a: int| 0 <= a < j ==> #[trigger] nats(sorted@)[a] == a + 1,
        decreases k - j,
    {
        if sorted[j] as usize != j + 1 {
            proof {
                assert(nats(sorted@)[j as int] != j + 1);
            }
            let mut m = String::from_str("passes are numbered ");
            append_numbers(&mut m, &sorted);
            m.append(", expected 1..=");
            append_decimal(&mut m, k as u64);
            return Err(m);
        }
        j = j + 1;
    }
    let mut order: Vec<usize> = Vec::new();
    let mut j: usize = 0;
    while j < k
        invariant
            k == nats(nums@).len(),
            k == sorted@.len(),
            v == sections_view(entries@),
            nats(nums@) == pass_numbers(v),
            nats(sorted@) == sorted_nats(nats(nums@)),
            numbered_from_one(nats(sorted@)),
            j <= k,
            order@.len() == j,
            forall|a: int|
                0 <= a < j ==> #[trigger] order@[a] < v.len() && pass_number(v[order@[a] as int].0)
                    == Some((a + 1) as nat),
        decreases k - j,
    {
        proof {
            assert(nats(sorted@)[j as int] == j + 1);
            assert(sorted_nats(nats(nums@)).contains((j + 1) as nat));
            lemma_sorted_nats_contains(nats(nums@), (j + 1) as nat);
            lemma_pass_numbers_contains(v, (j + 1) as nat);
        }
        let mut p: usize = 0;
        while p < entries.len() && section_pass_number(entries[p].0.as_str()) != Some((j + 1) as u32)
            invariant
                v == sections_view(entries@),
                p <= entries@.len(),
                j < k,
                forall|q: int| 0 <= q < p ==> pass_number(#[trigger] v[q].0) != Some((j + 1) as nat),
                exists|i: int| 0 <= i < v.len() && pass_number(#[trigger] v[i].0) == Some((j + 1) as nat),
            decreases entries@.len() - p,
        {
            p = p + 1;
        }
        if p == entries.len() {
            proof {
                let i = choose|i: int| 0 <= i < v.len() && pass_number(#[trigger] v[i].0) == Some((j + 1) as nat);
                assert(pass_number(v[i].0) != Some((j + 1) as nat));
            }
        }
        order.push(p);
        j = j + 1;
    }
    Ok(order)
}

} // verus!

//! Facts a run log records about the controller.
pub mod reader;

use vstd::prelude::*;
use vstd::utf8::encode_utf8;

verus! {

/// One signal as the controller names it.
#[derive(Clone, Debug)]
pub struct SignalFact {
    pub index: u8,
    pub name: String,
    /// TCP logger channel the signal streams on, if it is streamed.
    pub tcp_channel: Option<u8>,
}

/// The bytes of a fact's name: `String` orders names by them.
pub open spec fn name_bytes(f: SignalFact) -> Seq<u8> {
    encode_utf8(f.name@)
}

/// Byte-wise lexicographic order: `a` comes strictly before `b`.
pub open spec fn bytes_before(a: Seq<u8>, b: Seq<u8>) -> bool
    decreases a.len(),
{
    if a.len() == 0 {
        b.len() > 0
    } else if b.len() == 0 {
        false
    } else if a[0] != b[0] {
        a[0] < b[0]
    } else {
        bytes_before(a.drop_first(), b.drop_first())
    }
}

/// `a` sorts strictly before `b`: by index, then by name.
pub open spec fn fact_before(a: SignalFact, b: SignalFact) -> bool {
    a.index < b.index || (a.index == b.index && bytes_before(name_bytes(a), name_bytes(b)))
}

/// The same signal under the same name.
pub open spec fn same_signal(a: SignalFact, b: SignalFact) -> bool {
    a.index == b.index && a.name@ == b.name@
}

/// Whether `fs[k]` is the first fact in `fs` with its index and name.
pub open spec fn first_of_its_kind(fs: Seq<SignalFact>, k: int) -> bool {
    forall|j: int| 0 <= j < k ==> !same_signal(#[trigger] fs[j], fs[k])
}

/// Strictly increasing by index and name.
pub open spec fn strictly_sorted(fs: Seq<SignalFact>) -> bool {
    forall|a: int, b: int| 0 <= a < b < fs.len() ==> fact_before(#[trigger] fs[a], #[trigger] fs[b])
}

proof fn lemma_bytes_irreflexive(a: Seq<u8>)
    ensures
        !bytes_before(a, a),
    decreases a.len(),
{
    if a.len() > 0 {
        lemma_bytes_irreflexive(a.drop_first());
    }
}

proof fn lemma_bytes_transitive(a: Seq<u8>, b: Seq<u8>, c: Seq<u8>)
    requires
        bytes_before(a, b),
        bytes_before(b, c),
    ensures
        bytes_before(a, c),
    decreases a.len(),
{
    if a.len() > 0 && b.len() > 0 && c.len() > 0 && a[0] == b[0] && b[0] == c[0] {
        lemma_bytes_transitive(a.drop_first(), b.drop_first(), c.drop_first());
    }
}

proof fn lemma_bytes_total(a: Seq<u8>, b: Seq<u8>)
    ensures
        a == b || bytes_before(a, b) || bytes_before(b, a),
    decreases a.len(),
{
    if a.len() > 0 && b.len() > 0 && a[0] == b[0] {
        lemma_bytes_total(a.drop_first(), b.drop_first());
        if a.drop_first() == b.drop_first() {
            assert(a =~= seq![a[0]] + a.drop_first());
            assert(b =~= seq![b[0]] + b.drop_first());
        }
    } else if a.len() == 0 && b.len() == 0 {
        assert(a =~= b);
    }
}

proof fn lemma_fact_order(a: SignalFact, b: SignalFact, c: SignalFact)
    ensures
        !fact_before(a, a),
        fact_before(a, b) && fact_before(b, c) ==> fact_before(a, c),
        same_signal(a, b) || fact_before(a, b) || fact_before(b, a),
{
    lemma_bytes_irreflexive(name_bytes(a));
    if fact_before(a, b) && fact_before(b, c) && a.index == b.index && b.index == c.index {
        lemma_bytes_transitive(name_bytes(a), name_bytes(b), name_bytes(c));
    }
    lemma_bytes_total(name_bytes(a), name_bytes(b));
    if name_bytes(a) == name_bytes(b) {
        vstd::utf8::encode_utf8_decode_utf8(a.name@);
        vstd::utf8::encode_utf8_decode_utf8(b.name@);
    }
}

/// Whether `a` sorts strictly before `b`.
fn bytes_less(a: &[u8], b: &[u8]) -> (r: bool)
    ensures
        r == bytes_before(a@, b@),
{
    let mut i: usize = 0;
    proof {
        assert(a@.skip(0) =~= a@);
        assert(b@.skip(0) =~= b@);
    }
    while i < a.len() && i < b.len()
        invariant
            i <= a@.len(),
            i <= b@.len(),
            bytes_before(a@, b@) == bytes_before(a@.skip(i as int), b@.skip(i as int)),
        decreases a@.len() - i,
    {
        if a[i] != b[i] {
            return a[i] < b[i];
        }
        proof {
            assert(a@.skip(i as int).drop_first() =~= a@.skip(i as int + 1));
            assert(b@.skip(i as int).drop_first() =~= b@.skip(i as int + 1));
        }
        i = i + 1;
    }
    i == a.len() && i < b.len()
}

/// Whether `a` sorts strictly before `b`, by index and then by name.
fn fact_less(a: &SignalFact, b: &SignalFact) -> (r: bool)
    ensures
        r == fact_before(*a, *b),
{
    if a.index != b.index {
        a.index < b.index
    } else {
        bytes_less(a.name.as_str().as_bytes(), b.name.as_str().as_bytes())
    }
}

/// Where `f` goes in the sorted `out`: after every fact before it.
fn insertion_point(out: &Vec<SignalFact>, f: &SignalFact) -> (j: usize)
    ensures
        j <= out@.len(),
        forall|a: int| 0 <= a < j ==> fact_before(#[trigger] out@[a], *f),
        j < out@.len() ==> !fact_before(out@[j as int], *f),
{
    let mut j: usize = 0;
    while j < out.len() && fact_less(&out[j], f)
        invariant
            j <= out@.len(),
            forall|a: int| 0 <= a < j ==> fact_before(#[trigger] out@[a], *f),
        decreases out@.len() - j,
    {
        j = j + 1;
    }
    j
}

/// Inserting `f` where it goes keeps a sorted sequence sorted, when no
/// element there is the same signal.
proof fn lemma_insert_sorted(s: Seq<SignalFact>, j: int, f: SignalFact)
    requires
        strictly_sorted(s),
        0 <= j <= s.len(),
        forall|a: int| 0 <= a < j ==> fact_before(#[trigger] s[a], f),
        j < s.len() ==> !fact_before(s[j], f) && !same_signal(s[j], f),
    ensures
        strictly_sorted(s.insert(j, f)),
        forall|a: int| 0 <= a < s.len() ==> !same_signal(#[trigger] s[a], f),
{
    let t = s.insert(j, f);
    if j < s.len() {
        lemma_fact_order(s[j], f, s[j]);
    }
    assert forall|a: int| 0 <= a < s.len() implies !same_signal(#[trigger] s[a], f) by {
        lemma_fact_order(f, s[a], f);
        if a > j {
            lemma_fact_order(f, s[j], s[a]);
        }
    }
    assert forall|a: int, b: int| 0 <= a < b < t.len() implies fact_before(
        #[trigger] t[a],
        #[trigger] t[b],
    ) by {
        if a < j && b == j {
        } else if a < j && b > j {
            if b - 1 > j {
                lemma_fact_order(f, s[j], s[b - 1]);
            }
            lemma_fact_order(s[a], f, s[b - 1]);
        } else if a == j {
            if b - 1 > j {
                lemma_fact_order(f, s[j], s[b - 1]);
            }
        } else if a > j {
            assert(t[a] == s[a - 1] && t[b] == s[b - 1]);
        } else {
            assert(t[a] == s[a] && t[b] == s[b]);
        }
    }
}

/// Whether `x` is a copy of a fact among the first `i` that is the first
/// of its kind.
pub open spec fn first_copy(facts: Seq<SignalFact>, i: int, x: SignalFact) -> bool {
    exists|k: int| 0 <= k < i && first_of_its_kind(facts, k) && x == facts[k]
}

/// Whether `out` holds a fact of the same signal as `f`.
pub open spec fn has_signal_of(out: Seq<SignalFact>, f: SignalFact) -> bool {
    exists|a: int| 0 <= a < out.len() && same_signal(out[a], f)
}

/// Whether every fact in `out` is the first of its kind among the first
/// `i` facts.
pub open spec fn kept_are_firsts(out: Seq<SignalFact>, facts: Seq<SignalFact>, i: int) -> bool {
    forall|a: int| 0 <= a < out.len() ==> #[trigger] first_copy(facts, i, out[a])
}

/// Whether each of the first `i` facts has its signal in `out`.
pub open spec fn all_covered(out: Seq<SignalFact>, facts: Seq<SignalFact>, i: int) -> bool {
    forall|k: int| 0 <= k < i ==> #[trigger] has_signal_of(out, facts[k])
}

proof fn lemma_insert_keeps_books(s: Seq<SignalFact>, facts: Seq<SignalFact>, i: int, j: int)
    requires
        0 <= i < facts.len(),
        0 <= j <= s.len(),
        kept_are_firsts(s, facts, i),
        all_covered(s, facts, i),
        forall|a: int| 0 <= a < s.len() ==> !same_signal(#[trigger] s[a], facts[i]),
    ensures
        kept_are_firsts(s.insert(j, facts[i]), facts, i + 1),
        all_covered(s.insert(j, facts[i]), facts, i + 1),
{
    let t = s.insert(j, facts[i]);
    assert forall|k: int| 0 <= k < i implies !same_signal(#[trigger] facts[k], facts[i]) by {
        assert(has_signal_of(s, facts[k]));
        let a = choose|a: int| 0 <= a < s.len() && same_signal(s[a], facts[k]);
        assert(!same_signal(s[a], facts[i]));
    }
    assert(first_of_its_kind(facts, i));
    assert(first_copy(facts, i + 1, facts[i]));
    assert forall|a: int| 0 <= a < t.len() implies #[trigger] first_copy(facts, i + 1, t[a]) by {
        if a < j {
            assert(t[a] == s[a]);
            assert(first_copy(facts, i, s[a]));
            let k = choose|k: int| 0 <= k < i && first_of_its_kind(facts, k) && s[a] == facts[k];
            assert(0 <= k < i + 1 && first_of_its_kind(facts, k) && t[a] == facts[k]);
        } else if a == j {
            assert(t[a] == facts[i]);
        } else {
            assert(t[a] == s[a - 1]);
            assert(first_copy(facts, i, s[a - 1]));
            let k = choose|k: int| 0 <= k < i && first_of_its_kind(facts, k) && s[a - 1] == facts[k];
            assert(0 <= k < i + 1 && first_of_its_kind(facts, k) && t[a] == facts[k]);
        }
    }
    assert forall|k: int| 0 <= k < i + 1 implies #[trigger] has_signal_of(t, facts[k]) by {
        if k == i {
            assert(same_signal(t[j], facts[k]));
        } else {
            assert(has_signal_of(s, facts[k]));
            let a = choose|a: int| 0 <= a < s.len() && same_signal(s[a], facts[k]);
            if a < j {
                assert(t[a] == s[a]);
                assert(same_signal(t[a], facts[k]));
            } else {
                assert(t[a + 1] == s[a]);
                assert(same_signal(t[a + 1], facts[k]));
            }
        }
    }
}

proof fn lemma_duplicate_keeps_books(s: Seq<SignalFact>, facts: Seq<SignalFact>, i: int, j: int)
    requires
        0 <= i < facts.len(),
        0 <= j < s.len(),
        same_signal(s[j], facts[i]),
        kept_are_firsts(s, facts, i),
        all_covered(s, facts, i),
    ensures
        kept_are_firsts(s, facts, i + 1),
        all_covered(s, facts, i + 1),
{
    assert forall|a: int| 0 <= a < s.len() implies #[trigger] first_copy(facts, i + 1, s[a]) by {
        assert(first_copy(facts, i, s[a]));
        let k = choose|k: int| 0 <= k < i && first_of_its_kind(facts, k) && s[a] == facts[k];
        assert(0 <= k < i + 1 && first_of_its_kind(facts, k) && s[a] == facts[k]);
    }
    assert forall|k: int| 0 <= k < i + 1 implies #[trigger] has_signal_of(s, facts[k]) by {
        if k == i {
            assert(same_signal(s[j], facts[k]));
        }
    }
}

/// The facts of a run's signals as the header lists them: sorted by index
/// and then by name, each index and name once. An alias repeats a signal
/// under the names it has; the first fact of each index and name is kept.
pub fn sorted_signal_facts(facts: &Vec<SignalFact>) -> (r: Vec<SignalFact>)
    ensures
        strictly_sorted(r@),
        kept_are_firsts(r@, facts@, facts@.len() as int),
        all_covered(r@, facts@, facts@.len() as int),
{
    let mut out: Vec<SignalFact> = Vec::new();
    let mut i: usize = 0;
    while i < facts.len()
        invariant
            i <= facts@.len(),
            strictly_sorted(out@),
            kept_are_firsts(out@, facts@, i as int),
            all_covered(out@, facts@, i as int),
        decreases facts@.len() - i,
    {
        let f = SignalFact {
            index: facts[i].index,
            name: facts[i].name.clone(),
            tcp_channel: facts[i].tcp_channel,
        };
        assert(f == facts@[i as int]);
        let j = insertion_point(&out, &f);
        if j < out.len() && out[j].index == f.index && out[j].name == f.name {
            proof {
                lemma_duplicate_keeps_books(out@, facts@, i as int, j as int);
            }
        } else {
            let ghost old_out = out@;
            proof {
                lemma_insert_sorted(old_out, j as int, f);
                lemma_insert_keeps_books(old_out, facts@, i as int, j as int);
            }
            out.insert(j, f);
            assert(out@ == old_out.insert(j as int, facts@[i as int]));
        }
        i = i + 1;
    }
    out
}

/// A strictly sorted list of facts names each signal once: no two entries
/// share an index and a name.
pub proof fn law_sorted_facts_name_each_signal_once(fs: Seq<SignalFact>)
    requires
        strictly_sorted(fs),
    ensures
        forall|a: int, b: int|
            0 <= a < b < fs.len() ==> !same_signal(#[trigger] fs[a], #[trigger] fs[b]),
{
    assert forall|a: int, b: int| 0 <= a < b < fs.len() implies !same_signal(
        #[trigger] fs[a],
        #[trigger] fs[b],
    ) by {
        lemma_fact_order(fs[a], fs[b], fs[a]);
        lemma_fact_order(fs[b], fs[a], fs[b]);
    }
}

} // verus!

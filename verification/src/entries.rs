//! The order in which map entries are written: each entry is the bytes of its key
//! and value, and entries go out in byte-wise lexicographic order. As DAG-CBOR keys
//! are strings and a string item starts with its length, this puts shorter keys
//! first, the canonical order of RFC 7049.
use vstd::prelude::*;
use vstd::relations::{sorted_by, total_ordering};
use crate::cbor::{be_bytes, head, pow256, text_item};

verus! {

/// Byte-wise lexicographic order: the first differing byte decides, and a proper
/// prefix comes first.
pub open spec fn lex_le(a: Seq<u8>, b: Seq<u8>) -> bool
    decreases a.len(),
{
    if a.len() == 0 {
        true
    } else if b.len() == 0 {
        false
    } else if a[0] < b[0] {
        true
    } else if a[0] > b[0] {
        false
    } else {
        lex_le(a.drop_first(), b.drop_first())
    }
}

/// `lex_le` as a relation value.
pub open spec fn lex_order() -> spec_fn(Seq<u8>, Seq<u8>) -> bool {
    |a: Seq<u8>, b: Seq<u8>| lex_le(a, b)
}

/// The entries in the order they are written: sorted by `lex_le`.
pub open spec fn canonical_order(entries: Seq<Seq<u8>>) -> Seq<Seq<u8>> {
    entries.sort_by(lex_order())
}

/// The byte contents of a list of byte vectors.
pub open spec fn contents(v: Seq<Vec<u8>>) -> Seq<Seq<u8>> {
    v.map_values(|e: Vec<u8>| e@)
}

proof fn lemma_lex_reflexive(a: Seq<u8>)
    ensures
        lex_le(a, a),
    decreases a.len(),
{
    if a.len() > 0 {
        lemma_lex_reflexive(a.drop_first());
    }
}

proof fn lemma_lex_antisymmetric(a: Seq<u8>, b: Seq<u8>)
    requires
        lex_le(a, b),
        lex_le(b, a),
    ensures
        a == b,
    decreases a.len(),
{
    if a.len() == 0 {
        assert(b.len() == 0);
        assert(a =~= b);
    } else {
        lemma_lex_antisymmetric(a.drop_first(), b.drop_first());
        assert(a =~= seq![a[0]] + a.drop_first());
        assert(b =~= seq![b[0]] + b.drop_first());
    }
}

proof fn lemma_lex_transitive(a: Seq<u8>, b: Seq<u8>, c: Seq<u8>)
    requires
        lex_le(a, b),
        lex_le(b, c),
    ensures
        lex_le(a, c),
    decreases a.len(),
{
    if a.len() > 0 && b.len() > 0 && c.len() > 0 && a[0] == b[0] && b[0] == c[0] {
        lemma_lex_transitive(a.drop_first(), b.drop_first(), c.drop_first());
    }
}

proof fn lemma_lex_total(a: Seq<u8>, b: Seq<u8>)
    ensures
        lex_le(a, b) || lex_le(b, a),
    decreases a.len(),
{
    if a.len() > 0 && b.len() > 0 && a[0] == b[0] {
        lemma_lex_total(a.drop_first(), b.drop_first());
    }
}

/// Law: byte-wise lexicographic order is a total order.
pub proof fn lemma_lex_order_total()
    ensures
        total_ordering(lex_order()),
{
    let r = lex_order();
    assert forall|a: Seq<u8>| #[trigger] r(a, a) by {
        lemma_lex_reflexive(a);
    }
    assert forall|a: Seq<u8>, b: Seq<u8>| #[trigger] r(a, b) && #[trigger] r(b, a) implies a == b by {
        lemma_lex_antisymmetric(a, b);
    }
    assert forall|a: Seq<u8>, b: Seq<u8>, c: Seq<u8>|
        #[trigger] r(a, b) && #[trigger] r(b, c) implies r(a, c) by {
        lemma_lex_transitive(a, b, c);
    }
    assert forall|a: Seq<u8>, b: Seq<u8>| #[trigger] r(a, b) || #[trigger] r(b, a) by {
        lemma_lex_total(a, b);
    }
}

/// Law: the canonical order holds the same entries, sorted; and it is the only
/// sorted arrangement of them.
pub proof fn lemma_canonical_order(entries: Seq<Seq<u8>>, s: Seq<Seq<u8>>)
    ensures
        canonical_order(entries).to_multiset() == entries.to_multiset(),
        sorted_by(canonical_order(entries), lex_order()),
        s.to_multiset() == entries.to_multiset() && sorted_by(s, lex_order()) ==> s
            == canonical_order(entries),
{
    lemma_lex_order_total();
    entries.lemma_sort_by_ensures(lex_order());
    if s.to_multiset() == entries.to_multiset() && sorted_by(s, lex_order()) {
        vstd::seq_lib::lemma_sorted_unique(s, canonical_order(entries), lex_order());
    }
}

/// Law: the order in which entries arrive makes no difference to the order in which
/// they are written.
pub proof fn lemma_canonical_order_ignores_arrival(a: Seq<Seq<u8>>, b: Seq<Seq<u8>>)
    requires
        a.to_multiset() == b.to_multiset(),
    ensures
        canonical_order(a) == canonical_order(b),
{
    lemma_canonical_order(a, canonical_order(b));
    lemma_canonical_order(b, canonical_order(b));
}

/// `a` and `b` agree before position `i` and `a` is smaller at `i`.
pub open spec fn first_difference_below(a: Seq<u8>, b: Seq<u8>, i: int) -> bool {
    &&& 0 <= i < a.len()
    &&& i < b.len()
    &&& a.subrange(0, i) == b.subrange(0, i)
    &&& a[i] < b[i]
}

/// Where `a` is smaller at the first difference, `a` comes strictly first.
pub proof fn lemma_first_difference_orders(a: Seq<u8>, b: Seq<u8>, i: int)
    requires
        first_difference_below(a, b, i),
    ensures
        lex_le(a, b),
        !lex_le(b, a),
    decreases i,
{
    if i > 0 {
        assert(a[0] == a.subrange(0, i)[0]);
        assert(b[0] == b.subrange(0, i)[0]);
        assert(a.drop_first().subrange(0, i - 1) =~= a.subrange(0, i).drop_first());
        assert(b.drop_first().subrange(0, i - 1) =~= b.subrange(0, i).drop_first());
        lemma_first_difference_orders(a.drop_first(), b.drop_first(), i - 1);
    }
}

/// A common prefix does not change the order.
pub proof fn lemma_common_prefix(p: Seq<u8>, a: Seq<u8>, b: Seq<u8>)
    ensures
        lex_le(p + a, p + b) == lex_le(a, b),
    decreases p.len(),
{
    if p.len() > 0 {
        assert((p + a).drop_first() =~= p.drop_first() + a);
        assert((p + b).drop_first() =~= p.drop_first() + b);
        lemma_common_prefix(p.drop_first(), a, b);
    } else {
        assert(p + a =~= a);
        assert(p + b =~= b);
    }
}

/// Big-endian bytes of equal width order as the numbers do.
proof fn lemma_be_bytes_order(m: nat, n: nat, k: nat) -> (i: int)
    requires
        m < n < pow256(k),
    ensures
        0 <= i < k,
        first_difference_below(be_bytes(m, k), be_bytes(n, k), i),
    decreases k,
{
    let p = pow256((k - 1) as nat);
    assert(k > 0);
    assert(n / 256 < p) by (nonlinear_arith)
        requires
            n < 256 * p,
    ;
    assert(m / 256 <= n / 256) by (nonlinear_arith)
        requires
            m < n,
    ;
    crate::cbor::lemma_be_roundtrip(m / 256, (k - 1) as nat);
    crate::cbor::lemma_be_roundtrip(n / 256, (k - 1) as nat);
    let bm = be_bytes(m, k);
    let bn = be_bytes(n, k);
    if m / 256 < n / 256 {
        let j = lemma_be_bytes_order(m / 256, n / 256, (k - 1) as nat);
        assert(bm.subrange(0, j) =~= be_bytes(m / 256, (k - 1) as nat).subrange(0, j));
        assert(bn.subrange(0, j) =~= be_bytes(n / 256, (k - 1) as nat).subrange(0, j));
        j
    } else {
        assert(m % 256 < n % 256) by (nonlinear_arith)
            requires
                m < n,
                m / 256 == n / 256,
        ;
        assert(bm.subrange(0, k - 1) =~= be_bytes(m / 256, (k - 1) as nat));
        assert(bn.subrange(0, k - 1) =~= be_bytes(n / 256, (k - 1) as nat));
        (k - 1) as int
    }
}

/// The width class of a head's argument: the number of bytes after the first.
pub open spec fn head_width(arg: u64) -> nat {
    if arg < 24 {
        0
    } else if arg <= 0xff {
        1
    } else if arg <= 0xffff {
        2
    } else if arg <= 0xffff_ffff {
        4
    } else {
        8
    }
}

/// Heads of the same major type order as their arguments, whatever follows them.
proof fn lemma_head_order(major: u8, m: u64, n: u64, x: Seq<u8>, y: Seq<u8>)
    requires
        major < 8,
        m < n,
    ensures
        lex_le(head(major, m) + x, head(major, n) + y),
        !lex_le(head(major, n) + y, head(major, m) + x),
{
    crate::cbor::lemma_pow256_values();
    let s = head(major, m) + x;
    let t = head(major, n) + y;
    let wm = head_width(m);
    let wn = head_width(n);
    if wm == wn && wm > 0 {
        crate::cbor::lemma_be_roundtrip(m as nat, wm);
        crate::cbor::lemma_be_roundtrip(n as nat, wm);
        let i = lemma_be_bytes_order(m as nat, n as nat, wm);
        let bm = be_bytes(m as nat, wm);
        let bn = be_bytes(n as nat, wm);
        assert(s =~= seq![s[0]] + bm + x);
        assert(t =~= seq![t[0]] + bn + y);
        assert(s.subrange(0, i + 1) =~= seq![s[0]] + bm.subrange(0, i));
        assert(t.subrange(0, i + 1) =~= seq![t[0]] + bn.subrange(0, i));
        assert(s[i + 1] == bm[i]);
        assert(t[i + 1] == bn[i]);
        lemma_first_difference_orders(s, t, i + 1);
    } else {
        assert(s[0] < t[0]);
        assert(s.subrange(0, 0) =~= t.subrange(0, 0));
        lemma_first_difference_orders(s, t, 0);
    }
}

/// Law: for entries keyed by strings, the canonical order puts a shorter key first,
/// whatever the values; keys of equal length order by their bytes. This is the
/// length-first key order of RFC 7049.
pub proof fn lemma_shorter_key_first(a: Seq<u8>, b: Seq<u8>, x: Seq<u8>, y: Seq<u8>)
    requires
        a.len() <= u64::MAX,
        b.len() <= u64::MAX,
    ensures
        a.len() < b.len() ==> lex_le(text_item(a) + x, text_item(b) + y) && !lex_le(
            text_item(b) + y,
            text_item(a) + x,
        ),
        a.len() == b.len() ==> lex_le(text_item(a) + x, text_item(b) + y) == lex_le(a + x, b + y),
{
    if a.len() < b.len() {
        lemma_head_order(3, a.len() as u64, b.len() as u64, a + x, b + y);
        assert(text_item(a) + x =~= head(3, a.len() as u64) + (a + x));
        assert(text_item(b) + y =~= head(3, b.len() as u64) + (b + y));
    }
    if a.len() == b.len() {
        let h = head(3, a.len() as u64);
        assert(text_item(a) + x =~= h + (a + x));
        assert(text_item(b) + y =~= h + (b + y));
        lemma_common_prefix(h, a + x, b + y);
    }
}

/// Compares two byte strings in lexicographic order.
pub fn lex_le_bytes(a: &[u8], b: &[u8]) -> (r: bool)
    ensures
        r == lex_le(a@, b@),
{
    let mut i: usize = 0;
    assert(a@.skip(0) =~= a@);
    assert(b@.skip(0) =~= b@);
    while i < a.len() && i < b.len()
        invariant
            i <= a.len(),
            i <= b.len(),
            lex_le(a@, b@) == lex_le(a@.skip(i as int), b@.skip(i as int)),
        decreases a.len() - i,
    {
        if a[i] < b[i] {
            return true;
        }
        if a[i] > b[i] {
            return false;
        }
        assert(a@.skip(i as int).drop_first() =~= a@.skip(i + 1));
        assert(b@.skip(i as int).drop_first() =~= b@.skip(i + 1));
        i = i + 1;
    }
    i == a.len()
}

/// Sorts the entries into canonical order.
pub fn sort_entries(entries: Vec<Vec<u8>>) -> (out: Vec<Vec<u8>>)
    ensures
        contents(out@) == canonical_order(contents(entries@)),
{
    let ghost orig = contents(entries@);
    let mut rest = entries;
    let mut out: Vec<Vec<u8>> = Vec::new();
    proof {
        broadcast use vstd::seq_lib::group_to_multiset_ensures;
        broadcast use vstd::multiset::group_multiset_axioms;

        lemma_lex_order_total();
        assert(contents(rest@) =~= orig);
        assert(contents(out@) =~= Seq::<Seq<u8>>::empty());
        assert(contents(out@).to_multiset() =~= vstd::multiset::Multiset::empty());
        assert(contents(out@).to_multiset().add(contents(rest@).to_multiset()) =~= orig.to_multiset());
    }
    while rest.len() > 0
        invariant
            total_ordering(lex_order()),
            sorted_by(contents(out@), lex_order()),
            contents(out@).to_multiset().add(contents(rest@).to_multiset()) == orig.to_multiset(),
        decreases rest.len(),
    {
        broadcast use vstd::seq_lib::group_to_multiset_ensures;
        broadcast use vstd::multiset::group_multiset_axioms;

        let ghost rest0 = contents(rest@);
        let e = rest.pop().unwrap();
        proof {
            assert(contents(rest@) =~= rest0.drop_last());
            assert(rest0 =~= contents(rest@).push(e@));
            vstd::seq_lib::to_multiset_build(contents(rest@), e@);
        }
        let ghost ov = contents(out@);
        let mut p: usize = 0;
        while p < out.len()
            invariant
                p <= out.len(),
                ov == contents(out@),
                total_ordering(lex_order()),
                forall|k: int| 0 <= k < p ==> #[trigger] lex_le(ov[k], e@),
            ensures
                p <= out.len(),
                forall|k: int| 0 <= k < p ==> #[trigger] lex_le(ov[k], e@),
                p < out.len() ==> !lex_le(ov[p as int], e@),
            decreases out.len() - p,
        {
            if !lex_le_bytes(out[p].as_slice(), e.as_slice()) {
                break;
            }
            p = p + 1;
        }
        proof {
            assert forall|k: int| p <= k < ov.len() implies #[trigger] lex_le(e@, ov[k]) by {
                let r = lex_order();
                assert(!r(ov[p as int], e@));
                assert(r(ov[p as int], ov[k]));
                if r(ov[k], e@) {
                    assert(r(ov[p as int], e@));
                }
                assert(r(e@, ov[k]) || r(ov[k], e@));
            }
        }
        out.insert(p, e);
        proof {
            let nv = contents(out@);
            assert(nv =~= ov.insert(p as int, e@));
            assert forall|i: int, j: int| 0 <= i < j < nv.len() implies #[trigger] lex_order()(
                nv[i],
                nv[j],
            ) by {
                if j < p {
                } else if j == p {
                } else if i < p {
                } else if i == p {
                } else {
                    assert(nv[i] == ov[i - 1] && nv[j] == ov[j - 1]);
                }
            }
            vstd::seq_lib::to_multiset_insert(ov, p as int, e@);
            assert(nv.to_multiset().add(contents(rest@).to_multiset()) =~= orig.to_multiset());
        }
    }
    proof {
        assert(contents(rest@) =~= Seq::<Seq<u8>>::empty());
        broadcast use vstd::seq_lib::group_to_multiset_ensures;
        broadcast use vstd::multiset::group_multiset_axioms;
        assert(contents(out@).to_multiset() =~= orig.to_multiset());
        lemma_canonical_order(orig, contents(out@));
    }
    out
}

} // verus!

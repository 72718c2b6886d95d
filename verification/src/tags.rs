//! The tag index: which tags the vault uses, how often, which entries give
//! each, and the order the index lists them in.
use vstd::prelude::*;
use crate::entry::Entry;
use crate::text::{eq_str, lemma_str_lt_order, lowercase, str_less, str_lt, to_lowercase};

verus! {

/// How many times `t` occurs in `ts`.
pub open spec fn occ(ts: Seq<Seq<char>>, t: Seq<char>) -> nat
    decreases ts.len(),
{
    if ts.len() == 0 {
        0
    } else {
        occ(ts.drop_last(), t) + if ts.last() == t {
            1nat
        } else {
            0nat
        }
    }
}

pub open spec fn tags_of(e: Entry) -> Seq<Seq<char>> {
    e.fm.tags.deep_view()
}

/// How many times `t` is given among the tags of the first `k` entries.
pub open spec fn tag_count(es: Seq<Entry>, k: int, t: Seq<char>) -> nat
    decreases k,
{
    if k <= 0 {
        0
    } else {
        tag_count(es, k - 1, t) + occ(tags_of(es[k - 1]), t)
    }
}

/// How many tags the first `k` entries give in all.
pub open spec fn tags_given(es: Seq<Entry>, k: int) -> nat
    decreases k,
{
    if k <= 0 {
        0
    } else {
        tags_given(es, k - 1) + tags_of(es[k - 1]).len()
    }
}

/// The entries filed under `t` among the first `k`: each entry once per time
/// it gives `t`, in the vault's order.
pub open spec fn tag_members(es: Seq<Entry>, k: int, t: Seq<char>) -> Seq<usize>
    decreases k,
{
    if k <= 0 {
        Seq::empty()
    } else {
        tag_members(es, k - 1, t) + Seq::new(occ(tags_of(es[k - 1]), t), |j: int| (k - 1) as usize)
    }
}

/// `a` comes before `b` in the index: given more often, or as often with a
/// lowercase name that sorts first.
pub open spec fn tag_before(es: Seq<Entry>, a: Seq<char>, b: Seq<char>) -> bool {
    let n = es.len() as int;
    tag_count(es, n, a) > tag_count(es, n, b) || (tag_count(es, n, a) == tag_count(es, n, b)
        && str_lt(lowercase(a), lowercase(b)))
}

/// `names` is an order of the tag index: each tag the vault gives exactly
/// once, none it does not, no tag after one it comes before (tags given
/// equally often whose lowercase names are equal may stand either way).
pub open spec fn tag_order(es: Seq<Entry>, names: Seq<Seq<char>>) -> bool {
    &&& forall|i: int, j: int| 0 <= i < j < names.len() ==> names[i] != names[j]
    &&& forall|t: Seq<char>| #[trigger] tag_count(es, es.len() as int, t) > 0 <==> names.contains(t)
    &&& forall|i: int, j: int|
        0 <= i < j < names.len() ==> !tag_before(es, names[j], names[i])
}

proof fn lemma_occ_le(ts: Seq<Seq<char>>, t: Seq<char>)
    ensures
        occ(ts, t) <= ts.len(),
    decreases ts.len(),
{
    if ts.len() > 0 {
        lemma_occ_le(ts.drop_last(), t);
    }
}

proof fn lemma_count_le_given(es: Seq<Entry>, k: int, t: Seq<char>)
    requires
        0 <= k,
    ensures
        tag_count(es, k, t) <= tags_given(es, k),
    decreases k,
{
    if k > 0 {
        lemma_count_le_given(es, k - 1, t);
        lemma_occ_le(tags_of(es[k - 1]), t);
    }
}

proof fn lemma_given_mono(es: Seq<Entry>, j: int, k: int)
    requires
        0 <= j <= k,
    ensures
        tags_given(es, j) <= tags_given(es, k),
    decreases k - j,
{
    if j < k {
        lemma_given_mono(es, j, k - 1);
    }
}

proof fn lemma_occ_take(ts: Seq<Seq<char>>, j: int, t: Seq<char>)
    requires
        0 <= j < ts.len(),
    ensures
        occ(ts.take(j + 1), t) == occ(ts.take(j), t) + if ts[j] == t {
            1nat
        } else {
            0nat
        },
{
    assert(ts.take(j + 1).drop_last() =~= ts.take(j));
}

proof fn lemma_tag_before_trans(es: Seq<Entry>, a: Seq<char>, b: Seq<char>, c: Seq<char>)
    requires
        tag_before(es, a, b),
        tag_before(es, b, c),
    ensures
        tag_before(es, a, c),
{
    lemma_str_lt_order(lowercase(a), lowercase(b), lowercase(c));
}

proof fn lemma_tag_before_irrefl(es: Seq<Entry>, a: Seq<char>)
    ensures
        !tag_before(es, a, a),
{
    lemma_str_lt_order(lowercase(a), lowercase(a), lowercase(a));
}

/// The distinct tags of the vault with how often each is given, in order of
/// first use.
fn tag_counts(entries: &[Entry]) -> (r: (Vec<String>, Vec<usize>))
    requires
        tags_given(entries@, entries@.len() as int) <= usize::MAX,
    ensures
        r.0@.len() == r.1@.len(),
        forall|a: int, b: int| 0 <= a < b < r.0@.len() ==> r.0@[a]@ != r.0@[b]@,
        forall|a: int| 0 <= a < r.0@.len() ==> #[trigger] r.1@[a] == tag_count(entries@, entries@.len() as int, r.0@[a]@),
        forall|t: Seq<char>| #[trigger] tag_count(entries@, entries@.len() as int, t) > 0 <==> r.0.deep_view().contains(t),
{
    let ghost es = entries@;
    let ghost n = es.len() as int;
    let mut names: Vec<String> = Vec::new();
    let mut counts: Vec<usize> = Vec::new();
    let mut i: usize = 0;
    while i < entries.len()
        invariant
            es == entries@,
            n == es.len(),
            tags_given(es, n) <= usize::MAX,
            i <= n,
            names@.len() == counts@.len(),
            forall|a: int, b: int| 0 <= a < b < names@.len() ==> names@[a]@ != names@[b]@,
            forall|a: int| 0 <= a < names@.len() ==> #[trigger] counts@[a] == tag_count(es, i as int, names@[a]@),
            forall|t: Seq<char>| #[trigger] tag_count(es, i as int, t) > 0 <==> names.deep_view().contains(t),
        decreases n - i,
    {
        let tags = &entries[i].fm.tags;
        let ghost ts = tags.deep_view();
        let mut j: usize = 0;
        assert(ts.take(0) =~= Seq::<Seq<char>>::empty());
        while j < tags.len()
            invariant
                es == entries@,
                n == es.len(),
                tags_given(es, n) <= usize::MAX,
                i < n,
                tags == &entries[i as int].fm.tags,
                ts == tags.deep_view(),
                j <= ts.len(),
                names@.len() == counts@.len(),
                forall|a: int, b: int| 0 <= a < b < names@.len() ==> names@[a]@ != names@[b]@,
                forall|a: int|
                    0 <= a < names@.len() ==> #[trigger] counts@[a] == tag_count(es, i as int, names@[a]@) + occ(
                        ts.take(j as int),
                        names@[a]@,
                    ),
                forall|t: Seq<char>|
                    tag_count(es, i as int, t) + occ(ts.take(j as int), t) > 0 <==> #[trigger] names.deep_view().contains(t),
            decreases ts.len() - j,
        {
            let t = &tags[j];
            let mut k: usize = 0;
            while k < names.len() && !eq_str(names[k].as_str(), t.as_str())
                invariant
                    k <= names@.len(),
                    forall|a: int| 0 <= a < k ==> names@[a]@ != t@,
                decreases names@.len() - k,
            {
                k += 1;
            }
            proof {
                lemma_occ_take(ts, j as int, t@);
                assert(ts[j as int] == t@);
                lemma_count_le_given(es, i as int, t@);
                lemma_given_mono(es, i + 1, n);
                lemma_occ_le(ts.take(j + 1), t@);
                assert(tags_given(es, i + 1) == tags_given(es, i as int) + ts.len());
                assert forall|u: Seq<char>| u != t@ implies occ(ts.take(j + 1), u) == occ(ts.take(j as int), u) by {
                    lemma_occ_take(ts, j as int, u);
                }
            }
            let ghost old_names = names.deep_view();
            if k < names.len() {
                proof {
                    assert(counts@[k as int] == tag_count(es, i as int, t@) + occ(ts.take(j as int), t@));
                }
                let c = counts[k] + 1;
                counts.set(k, c);
            } else {
                names.push(t.clone());
                counts.push(1);
                proof {
                    assert(names.deep_view() =~= old_names.push(t@));
                    assert(!old_names.contains(t@)) by {
                        if old_names.contains(t@) {
                            let a = choose|a: int| 0 <= a < old_names.len() && old_names[a] == t@;
                            assert(names@[a]@ == old_names[a]);
                        }
                    }
                    assert(tag_count(es, i as int, t@) + occ(ts.take(j as int), t@) == 0);
                }
            }
            proof {
                assert forall|u: Seq<char>|
                    tag_count(es, i as int, u) + occ(ts.take(j + 1), u) > 0 <==> #[trigger] names.deep_view().contains(u) by {
                    lemma_occ_take(ts, j as int, u);
                    if u != t@ {
                        if names.deep_view().contains(u) {
                            let a = choose|a: int| 0 <= a < names.deep_view().len() && names.deep_view()[a] == u;
                            if a < old_names.len() {
                                assert(old_names[a] == u);
                            }
                        }
                        if old_names.contains(u) {
                            let a = choose|a: int| 0 <= a < old_names.len() && old_names[a] == u;
                            assert(names.deep_view()[a] == u);
                        }
                    } else {
                        if k < names@.len() {
                            assert(names.deep_view()[k as int] == t@);
                        } else {
                            assert(names.deep_view()[names@.len() - 1] == t@);
                        }
                    }
                }
            }
            j += 1;
        }
        proof {
            assert(ts.take(ts.len() as int) =~= ts);
            assert forall|a: int| 0 <= a < names@.len() implies #[trigger] counts@[a] == tag_count(es, i + 1, names@[a]@) by {}
            assert forall|t: Seq<char>| #[trigger] tag_count(es, i + 1, t) > 0 <==> names.deep_view().contains(t) by {
                assert(tag_count(es, i + 1, t) == tag_count(es, i as int, t) + occ(ts.take(ts.len() as int), t));
            }
        }
        i += 1;
    }
    (names, counts)
}

/// The tags of the vault in index order (see `tag_order`).
pub fn tag_names(entries: &[Entry]) -> (r: Vec<String>)
    requires
        tags_given(entries@, entries@.len() as int) <= usize::MAX,
    ensures
        tag_order(entries@, r.deep_view()),
{
    let ghost es = entries@;
    let ghost n = es.len() as int;
    let (names, counts) = tag_counts(entries);
    let mut out: Vec<String> = Vec::new();
    let mut out_counts: Vec<usize> = Vec::new();
    let mut out_lower: Vec<String> = Vec::new();
    let mut i: usize = 0;
    while i < names.len()
        invariant
            es == entries@,
            n == es.len(),
            names@.len() == counts@.len(),
            forall|a: int, b: int| 0 <= a < b < names@.len() ==> names@[a]@ != names@[b]@,
            forall|a: int| 0 <= a < names@.len() ==> #[trigger] counts@[a] == tag_count(es, n, names@[a]@),
            i <= names@.len(),
            out@.len() == i,
            out_counts@.len() == i,
            out_lower@.len() == i,
            forall|a: int| 0 <= a < i ==> #[trigger] out_counts@[a] == tag_count(es, n, out@[a]@),
            forall|a: int| 0 <= a < i ==> (#[trigger] out_lower@[a])@ == lowercase(out@[a]@),
            forall|a: int, b: int| 0 <= a < b < i ==> out@[a]@ != out@[b]@,
            forall|t: Seq<char>| #[trigger] out.deep_view().contains(t) <==> names.deep_view().take(i as int).contains(t),
            forall|a: int, b: int| 0 <= a < b < i ==> !tag_before(es, out@[b]@, out@[a]@),
        decreases names@.len() - i,
    {
        let c = counts[i];
        let low = to_lowercase(names[i].as_str());
        let mut j: usize = 0;
        while j < out.len() && !(c > out_counts[j] || (c == out_counts[j] && str_less(low.as_str(), out_lower[j].as_str())))
            invariant
                n == es.len(),
                j <= out@.len(),
                out@.len() == i,
                out_counts@.len() == i,
                out_lower@.len() == i,
                i < names@.len(),
                c == tag_count(es, n, names@[i as int]@),
                low@ == lowercase(names@[i as int]@),
                forall|a: int| 0 <= a < i ==> #[trigger] out_counts@[a] == tag_count(es, n, out@[a]@),
                forall|a: int| 0 <= a < i ==> (#[trigger] out_lower@[a])@ == lowercase(out@[a]@),
                forall|a: int| 0 <= a < j ==> !tag_before(es, names@[i as int]@, #[trigger] out@[a]@),
            decreases out@.len() - j,
        {
            proof {
                assert(out_counts@[j as int] == tag_count(es, n, out@[j as int]@));
                assert(out_lower@[j as int]@ == lowercase(out@[j as int]@));
                assert(!tag_before(es, names@[i as int]@, out@[j as int]@));
            }
            j += 1;
        }
        let ghost t = names@[i as int]@;
        let ghost old_out = out@;
        let ghost old_dv = out.deep_view();
        proof {
            assert(j < i ==> tag_before(es, t, old_out[j as int]@));
            assert(!old_dv.contains(t)) by {
                if old_dv.contains(t) {
                    let a = choose|a: int| 0 <= a < old_dv.len() && old_dv[a] == t;
                    assert(names.deep_view().take(i as int).contains(t));
                    let b = choose|b: int| 0 <= b < i && names.deep_view().take(i as int)[b] == t;
                    assert(names@[b]@ == names@[i as int]@);
                }
            }
        }
        out.insert(j, names[i].clone());
        out_counts.insert(j, c);
        out_lower.insert(j, low);
        proof {
            let jj = j as int;
            assert(out.deep_view() =~= old_dv.insert(jj, t));
            assert(names.deep_view().take(i + 1) =~= names.deep_view().take(i as int).push(t));
            assert forall|a: int| 0 <= a <= i implies #[trigger] out_counts@[a] == tag_count(es, n, out@[a]@) by {
                if a < jj {
                    assert(out@[a] == old_out[a]);
                } else if a > jj {
                    assert(out@[a] == old_out[a - 1]);
                }
            }
            assert forall|a: int| 0 <= a <= i implies (#[trigger] out_lower@[a])@ == lowercase(out@[a]@) by {
                if a < jj {
                    assert(out@[a] == old_out[a]);
                } else if a > jj {
                    assert(out@[a] == old_out[a - 1]);
                }
            }
            assert forall|a: int, b: int| 0 <= a < b <= i implies out@[a]@ != out@[b]@ by {
                if b < jj {
                    assert(out@[a] == old_out[a] && out@[b] == old_out[b]);
                } else if a > jj {
                    assert(out@[a] == old_out[a - 1] && out@[b] == old_out[b - 1]);
                } else if a < jj && b > jj {
                    assert(out@[a] == old_out[a] && out@[b] == old_out[b - 1]);
                } else if a == jj {
                    assert(old_dv[b - 1] == old_out[b - 1]@);
                } else {
                    assert(old_dv[a] == old_out[a]@);
                }
            }
            let nt = names.deep_view().take(i as int);
            let nt1 = names.deep_view().take(i + 1);
            assert(nt1 =~= nt.push(t));
            let dv = out.deep_view();
            assert forall|u: Seq<char>| #[trigger] dv.contains(u) implies nt1.contains(u) by {
                let a = choose|a: int| 0 <= a < dv.len() && dv[a] == u;
                if a < jj {
                    assert(old_dv[a] == u);
                    assert(old_dv.contains(u));
                    assert(nt.contains(u));
                    let b = choose|b: int| 0 <= b < nt.len() && nt[b] == u;
                    assert(nt1[b] == u);
                } else if a > jj {
                    assert(old_dv[a - 1] == u);
                    assert(old_dv.contains(u));
                    assert(nt.contains(u));
                    let b = choose|b: int| 0 <= b < nt.len() && nt[b] == u;
                    assert(nt1[b] == u);
                } else {
                    assert(nt1[i as int] == u);
                }
            }
            assert forall|u: Seq<char>| #[trigger] nt1.contains(u) implies dv.contains(u) by {
                let b = choose|b: int| 0 <= b < nt1.len() && nt1[b] == u;
                if b < i {
                    assert(nt[b] == u);
                    assert(nt.contains(u));
                    assert(old_dv.contains(u));
                    let a = choose|a: int| 0 <= a < old_dv.len() && old_dv[a] == u;
                    if a < jj {
                        assert(dv[a] == u);
                    } else {
                        assert(dv[a + 1] == u);
                    }
                } else {
                    assert(dv[jj] == u);
                }
            }
            assert forall|m: int| jj < m <= i implies tag_before(es, t, #[trigger] out@[m]@) by {
                assert(out@[m] == old_out[m - 1]);
                if jj < m - 1 {
                    assert(!tag_before(es, old_out[m - 1]@, old_out[jj]@));
                    if !tag_before(es, t, old_out[m - 1]@) {
                        lemma_str_lt_order(lowercase(t), lowercase(old_out[jj]@), lowercase(old_out[m - 1]@));
                        lemma_str_lt_order(lowercase(old_out[m - 1]@), lowercase(t), lowercase(old_out[jj]@));
                    }
                }
            }
            assert forall|a: int, b: int| 0 <= a < b <= i implies !tag_before(es, out@[b]@, out@[a]@) by {
                if b < jj {
                    assert(out@[a] == old_out[a] && out@[b] == old_out[b]);
                } else if a > jj {
                    assert(out@[a] == old_out[a - 1] && out@[b] == old_out[b - 1]);
                } else if a < jj && b > jj {
                    assert(out@[a] == old_out[a] && out@[b] == old_out[b - 1]);
                } else if a == jj {
                    assert(tag_before(es, t, out@[b]@));
                    if tag_before(es, out@[b]@, t) {
                        lemma_tag_before_trans(es, t, out@[b]@, t);
                        lemma_tag_before_irrefl(es, t);
                    }
                } else {
                    assert(out@[a] == old_out[a]);
                }
            }
        }
        i += 1;
    }
    proof {
        assert(names.deep_view().take(names@.len() as int) =~= names.deep_view());
        let dv = out.deep_view();
        assert forall|a: int, b: int| 0 <= a < b < dv.len() implies dv[a] != dv[b] by {
            assert(dv[a] == out@[a]@ && dv[b] == out@[b]@);
        }
        assert forall|a: int, b: int| 0 <= a < b < dv.len() implies !tag_before(es, dv[b], dv[a]) by {
            assert(dv[a] == out@[a]@ && dv[b] == out@[b]@);
        }
    }
    out
}

/// The entries filed under tag `t`, once per time each gives it, in order.
pub fn tag_members_of(entries: &[Entry], t: &str) -> (r: Vec<usize>)
    ensures
        r@ == tag_members(entries@, entries@.len() as int, t@),
        forall|i: int| 0 <= i < r@.len() ==> #[trigger] r@[i] < entries@.len(),
{
    let ghost es = entries@;
    let mut r: Vec<usize> = Vec::new();
    let mut i: usize = 0;
    while i < entries.len()
        invariant
            es == entries@,
            i <= es.len(),
            r@ == tag_members(es, i as int, t@),
            forall|a: int| 0 <= a < r@.len() ==> #[trigger] r@[a] < i,
        decreases es.len() - i,
    {
        let tags = &entries[i].fm.tags;
        let ghost ts = tags.deep_view();
        let ghost base = r@;
        let mut j: usize = 0;
        assert(ts.take(0) =~= Seq::<Seq<char>>::empty());
        assert(base + Seq::new(0, |k: int| i) =~= base);
        while j < tags.len()
            invariant
                es == entries@,
                i < es.len(),
                tags == &entries[i as int].fm.tags,
                ts == tags.deep_view(),
                j <= ts.len(),
                base == tag_members(es, i as int, t@),
                r@ == base + Seq::new(occ(ts.take(j as int), t@), |k: int| i),
                forall|a: int| 0 <= a < r@.len() ==> #[trigger] r@[a] <= i,
            decreases ts.len() - j,
        {
            proof {
                lemma_occ_take(ts, j as int, t@);
            }
            if eq_str(tags[j].as_str(), t) {
                let ghost before = r@;
                r.push(i);
                proof {
                    assert(ts[j as int] == tags@[j as int]@);
                    assert(r@ =~= base + Seq::new(occ(ts.take(j + 1), t@), |k: int| i));
                }
            } else {
                proof {
                    assert(ts[j as int] == tags@[j as int]@);
                }
            }
            j += 1;
        }
        proof {
            assert(ts.take(ts.len() as int) =~= ts);
        }
        i += 1;
    }
    r
}

/// The count the index shows for a tag is the number of rows listed under
/// it.
pub proof fn law_tag_rows_match_count(es: Seq<Entry>, k: int, t: Seq<char>)
    requires
        0 <= k <= es.len(),
    ensures
        tag_members(es, k, t).len() == tag_count(es, k, t),
    decreases k,
{
    if k > 0 {
        law_tag_rows_match_count(es, k - 1, t);
    }
}

} // verus!

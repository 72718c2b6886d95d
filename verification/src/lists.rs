//! The lists of entries the pages show, as indices into the vault's entries:
//! the filters, and the orders they are shown in.
use vstd::prelude::*;
use crate::entry::{created_key, created_key_of, is_done_entry, is_done_spec, is_open_spec, is_open_todo, is_perm, Entry};
use crate::frontmatter::opt_view;
use crate::text::{eq_str, lemma_str_lt_order, str_less, str_lt};

verus! {

// ------------------------------------------------------------------ filters

/// Indices of the open todos among the first `k` entries.
pub open spec fn filter_open(es: Seq<Entry>, k: int) -> Seq<usize>
    decreases k,
{
    if k <= 0 {
        Seq::empty()
    } else {
        let r = filter_open(es, k - 1);
        if is_open_spec(es[k - 1]) {
            r.push((k - 1) as usize)
        } else {
            r
        }
    }
}

/// Indices of the done todos among the first `k` entries.
pub open spec fn filter_done(es: Seq<Entry>, k: int) -> Seq<usize>
    decreases k,
{
    if k <= 0 {
        Seq::empty()
    } else {
        let r = filter_done(es, k - 1);
        if is_done_spec(es[k - 1]) {
            r.push((k - 1) as usize)
        } else {
            r
        }
    }
}

/// Indices of the entries in folder `d` among the first `k` entries.
pub open spec fn filter_dir(es: Seq<Entry>, k: int, d: Seq<char>) -> Seq<usize>
    decreases k,
{
    if k <= 0 {
        Seq::empty()
    } else {
        let r = filter_dir(es, k - 1, d);
        if es[k - 1].dir@ == d {
            r.push((k - 1) as usize)
        } else {
            r
        }
    }
}

/// The capture stream: entries outside `archive/` that are not done todos.
pub open spec fn in_stream(e: Entry) -> bool {
    e.dir@ != "archive"@ && !is_done_spec(e)
}

/// Indices of the first `k` entries that belong to the capture stream.
pub open spec fn filter_stream(es: Seq<Entry>, k: int) -> Seq<usize>
    decreases k,
{
    if k <= 0 {
        Seq::empty()
    } else {
        let r = filter_stream(es, k - 1);
        if in_stream(es[k - 1]) {
            r.push((k - 1) as usize)
        } else {
            r
        }
    }
}

/// Every index in `idx` points into `es`.
pub open spec fn indices_in(idx: Seq<usize>, n: int) -> bool {
    forall|i: int| 0 <= i < idx.len() ==> #[trigger] idx[i] < n
}

/// Indices of the open todos.
pub fn open_todos(entries: &[Entry]) -> (r: Vec<usize>)
    ensures
        r@ == filter_open(entries@, entries@.len() as int),
        indices_in(r@, entries@.len() as int),
{
    let mut r: Vec<usize> = Vec::new();
    let mut i: usize = 0;
    while i < entries.len()
        invariant
            i <= entries@.len(),
            r@ == filter_open(entries@, i as int),
            indices_in(r@, i as int),
        decreases entries@.len() - i,
    {
        if is_open_todo(&entries[i]) {
            r.push(i);
        }
        i += 1;
    }
    r
}

/// Indices of the done todos.
pub fn done_todos(entries: &[Entry]) -> (r: Vec<usize>)
    ensures
        r@ == filter_done(entries@, entries@.len() as int),
        indices_in(r@, entries@.len() as int),
{
    let mut r: Vec<usize> = Vec::new();
    let mut i: usize = 0;
    while i < entries.len()
        invariant
            i <= entries@.len(),
            r@ == filter_done(entries@, i as int),
            indices_in(r@, i as int),
        decreases entries@.len() - i,
    {
        if is_done_entry(&entries[i]) {
            r.push(i);
        }
        i += 1;
    }
    r
}

/// Indices of the entries in folder `d`.
pub fn in_folder(entries: &[Entry], d: &str) -> (r: Vec<usize>)
    ensures
        r@ == filter_dir(entries@, entries@.len() as int, d@),
        indices_in(r@, entries@.len() as int),
{
    let mut r: Vec<usize> = Vec::new();
    let mut i: usize = 0;
    while i < entries.len()
        invariant
            i <= entries@.len(),
            r@ == filter_dir(entries@, i as int, d@),
            indices_in(r@, i as int),
        decreases entries@.len() - i,
    {
        if eq_str(entries[i].dir.as_str(), d) {
            r.push(i);
        }
        i += 1;
    }
    r
}

/// The recent list of the dashboard: the first 20 entries of the capture
/// stream.
pub open spec fn recent_spec(es: Seq<Entry>) -> Seq<usize> {
    let s = filter_stream(es, es.len() as int);
    if s.len() > 20 {
        s.take(20)
    } else {
        s
    }
}

/// Indices of the dashboard's recent list.
pub fn recent(entries: &[Entry]) -> (r: Vec<usize>)
    ensures
        r@ == recent_spec(entries@),
        indices_in(r@, entries@.len() as int),
{
    let mut r: Vec<usize> = Vec::new();
    let mut i: usize = 0;
    while i < entries.len()
        invariant
            i <= entries@.len(),
            r@ == filter_stream(entries@, i as int),
            indices_in(r@, i as int),
        decreases entries@.len() - i,
    {
        let e = &entries[i];
        if !eq_str(e.dir.as_str(), "archive") && !is_done_entry(e) {
            r.push(i);
        }
        i += 1;
    }
    if r.len() > 20 {
        r.truncate(20);
    }
    r
}

pub proof fn lemma_filter_dir_in(es: Seq<Entry>, k: int, d: Seq<char>)
    requires
        0 <= k <= es.len(),
        es.len() <= usize::MAX,
    ensures
        indices_in(filter_dir(es, k, d), k),
    decreases k,
{
    if k > 0 {
        lemma_filter_dir_in(es, k - 1, d);
    }
}

pub proof fn lemma_filter_open_in(es: Seq<Entry>, k: int)
    requires
        0 <= k <= es.len(),
        es.len() <= usize::MAX,
    ensures
        indices_in(filter_open(es, k), k),
    decreases k,
{
    if k > 0 {
        lemma_filter_open_in(es, k - 1);
    }
}

pub proof fn lemma_filter_stream_in(es: Seq<Entry>, k: int)
    requires
        0 <= k <= es.len(),
        es.len() <= usize::MAX,
    ensures
        indices_in(filter_stream(es, k), k),
    decreases k,
{
    if k > 0 {
        lemma_filter_stream_in(es, k - 1);
    }
}

pub proof fn lemma_recent_in(es: Seq<Entry>)
    requires
        es.len() <= usize::MAX,
    ensures
        indices_in(recent_spec(es), es.len() as int),
{
    lemma_filter_stream_in(es, es.len() as int);
}

// ------------------------------------------------------------------ orders

/// The due date a todo is ordered by; no due date sorts as `9999`.
pub open spec fn due_key(e: Entry) -> Seq<char> {
    match opt_view(e.fm.due) {
        Some(d) => d,
        None => "9999"@,
    }
}

/// `out` is `sel` ordered by due date, earliest first, entries of equal due
/// date in their order in `sel`; `p` says where each element of `out` stood
/// in `sel`.
pub open spec fn stable_by_due(es: Seq<Entry>, sel: Seq<usize>, out: Seq<usize>, p: Seq<int>) -> bool {
    &&& is_perm(p, sel.len() as int)
    &&& out.len() == sel.len()
    &&& forall|i: int| 0 <= i < out.len() ==> out[i] == sel[#[trigger] p[i]]
    &&& forall|i: int, j: int|
        0 <= i < j < out.len() ==> !str_lt(due_key(es[out[j] as int]), due_key(es[out[i] as int]))
    &&& forall|i: int, j: int|
        0 <= i < j < out.len() && due_key(es[out[i] as int]) == due_key(es[out[j] as int]) ==> p[i]
            < p[j]
}

/// `out` is `sel` newest first, entries of equal creation time in their
/// order in `sel`.
pub open spec fn stable_newest(es: Seq<Entry>, sel: Seq<usize>, out: Seq<usize>, p: Seq<int>) -> bool {
    &&& is_perm(p, sel.len() as int)
    &&& out.len() == sel.len()
    &&& forall|i: int| 0 <= i < out.len() ==> out[i] == sel[#[trigger] p[i]]
    &&& forall|i: int, j: int|
        0 <= i < j < out.len() ==> created_key(es[out[i] as int]) >= created_key(es[out[j] as int])
    &&& forall|i: int, j: int|
        0 <= i < j < out.len() && created_key(es[out[i] as int]) == created_key(es[out[j] as int])
            ==> p[i] < p[j]
}

fn due_key_of(e: &Entry) -> (k: String)
    ensures
        k@ == due_key(*e),
{
    match &e.fm.due {
        Some(d) => d.clone(),
        None => String::from_str("9999"),
    }
}

/// Orders a selection of todos by due date (stable).
pub fn sort_by_due(entries: &[Entry], sel: &Vec<usize>) -> (out: Vec<usize>)
    requires
        indices_in(sel@, entries@.len() as int),
    ensures
        exists|p: Seq<int>| stable_by_due(entries@, sel@, out@, p),
        indices_in(out@, entries@.len() as int),
{
    let ghost es = entries@;
    let n = sel.len();
    let mut out: Vec<usize> = Vec::new();
    let mut keys: Vec<String> = Vec::new();
    let ghost mut p: Seq<int> = Seq::empty();
    let mut i: usize = 0;
    while i < n
        invariant
            es == entries@,
            n == sel@.len(),
            indices_in(sel@, es.len() as int),
            i <= n,
            out@.len() == i,
            keys@.len() == i,
            p.len() == i,
            indices_in(out@, es.len() as int),
            forall|k: int| 0 <= k < i ==> 0 <= #[trigger] p[k] < i,
            forall|k: int, m: int| 0 <= k < m < i ==> p[k] != p[m],
            forall|k: int| 0 <= k < i ==> out@[k] == sel@[#[trigger] p[k]],
            forall|k: int| 0 <= k < i ==> keys@[k]@ == due_key(es[#[trigger] out@[k] as int]),
            forall|k: int, m: int|
                0 <= k < m < i ==> !str_lt(due_key(es[out@[m] as int]), due_key(es[out@[k] as int])),
            forall|k: int, m: int|
                0 <= k < m < i && due_key(es[out@[k] as int]) == due_key(es[out@[m] as int]) ==> p[k]
                    < p[m],
        decreases n - i,
    {
        let x = sel[i];
        let key = due_key_of(&entries[x]);
        let mut j: usize = 0;
        while j < keys.len() && !str_less(key.as_str(), keys[j].as_str())
            invariant
                j <= keys@.len(),
                keys@.len() == i,
                forall|k: int| 0 <= k < j ==> !str_lt(key@, (#[trigger] keys@[k])@),
            decreases keys@.len() - j,
        {
            j += 1;
        }
        let ghost old_out = out@;
        let ghost old_keys = keys@;
        let ghost old_p = p;
        let ghost kn = key@;
        out.insert(j, x);
        keys.insert(j, key);
        proof {
            p = old_p.insert(j as int, i as int);
            let jj = j as int;
            assert(jj < i ==> str_lt(kn, old_keys[jj]@));
            assert forall|k: int| 0 <= k <= i implies out@[k] == sel@[#[trigger] p[k]] by {
                if k < jj {
                    assert(out@[k] == old_out[k]);
                } else if k > jj {
                    assert(out@[k] == old_out[k - 1]);
                }
            }
            assert forall|k: int| 0 <= k <= i implies keys@[k]@ == due_key(
                es[#[trigger] out@[k] as int],
            ) by {
                if k < jj {
                    assert(out@[k] == old_out[k]);
                } else if k > jj {
                    assert(out@[k] == old_out[k - 1]);
                }
            }
            assert forall|k: int| 0 <= k <= i implies #[trigger] out@[k] < es.len() by {
                if k < jj {
                    assert(out@[k] == old_out[k]);
                } else if k > jj {
                    assert(out@[k] == old_out[k - 1]);
                }
            }
            // every later element sorts strictly after the new one
            assert forall|m: int| jj < m <= i implies str_lt(
                kn,
                due_key(es[#[trigger] out@[m] as int]),
            ) by {
                assert(out@[m] == old_out[m - 1]);
                let a = due_key(es[old_out[jj] as int]);
                let b = due_key(es[old_out[m - 1] as int]);
                lemma_str_lt_order(kn, a, b);
                lemma_str_lt_order(b, a, kn);
                if jj < m - 1 {
                    assert(!str_lt(b, a));
                }
            }
            assert forall|k: int| 0 <= k < jj implies !str_lt(
                kn,
                due_key(es[#[trigger] out@[k] as int]),
            ) by {
                assert(out@[k] == old_out[k]);
            }
            assert(due_key(es[out@[jj] as int]) == kn);
            assert forall|k: int, m: int| 0 <= k < m <= i implies !str_lt(
                due_key(es[out@[m] as int]),
                due_key(es[out@[k] as int]),
            ) by {
                let a = due_key(es[out@[k] as int]);
                let b = due_key(es[out@[m] as int]);
                if m < jj {
                    assert(out@[k] == old_out[k] && out@[m] == old_out[m]);
                } else if k > jj {
                    assert(out@[k] == old_out[k - 1] && out@[m] == old_out[m - 1]);
                } else if k < jj && m > jj {
                    assert(out@[k] == old_out[k] && out@[m] == old_out[m - 1]);
                } else if k == jj {
                    lemma_str_lt_order(kn, b, kn);
                } else {
                    lemma_str_lt_order(a, kn, a);
                }
            }
            assert forall|k: int, m: int|
                0 <= k < m <= i && due_key(es[out@[k] as int]) == due_key(es[out@[m] as int]) implies p[k]
                < p[m] by {
                if m < jj {
                    assert(out@[k] == old_out[k] && out@[m] == old_out[m]);
                } else if k > jj {
                    assert(out@[k] == old_out[k - 1] && out@[m] == old_out[m - 1]);
                } else if k < jj && m > jj {
                    assert(out@[k] == old_out[k] && out@[m] == old_out[m - 1]);
                } else if k == jj {
                    lemma_str_lt_order(kn, kn, kn);
                }
            }
        }
        i += 1;
    }
    proof {
        assert(stable_by_due(es, sel@, out@, p));
    }
    out
}

/// Orders a selection of entries newest first (stable).
pub fn sort_newest(entries: &[Entry], sel: &Vec<usize>) -> (out: Vec<usize>)
    requires
        indices_in(sel@, entries@.len() as int),
    ensures
        exists|p: Seq<int>| stable_newest(entries@, sel@, out@, p),
        indices_in(out@, entries@.len() as int),
{
    let ghost es = entries@;
    let n = sel.len();
    let mut out: Vec<usize> = Vec::new();
    let mut keys: Vec<i64> = Vec::new();
    let ghost mut p: Seq<int> = Seq::empty();
    let mut i: usize = 0;
    while i < n
        invariant
            es == entries@,
            n == sel@.len(),
            indices_in(sel@, es.len() as int),
            i <= n,
            out@.len() == i,
            keys@.len() == i,
            p.len() == i,
            indices_in(out@, es.len() as int),
            forall|k: int| 0 <= k < i ==> 0 <= #[trigger] p[k] < i,
            forall|k: int, m: int| 0 <= k < m < i ==> p[k] != p[m],
            forall|k: int| 0 <= k < i ==> out@[k] == sel@[#[trigger] p[k]],
            forall|k: int| 0 <= k < i ==> keys@[k] as int == created_key(es[#[trigger] out@[k] as int]),
            forall|k: int, m: int|
                0 <= k < m < i ==> created_key(es[out@[k] as int]) >= created_key(es[out@[m] as int]),
            forall|k: int, m: int|
                0 <= k < m < i && created_key(es[out@[k] as int]) == created_key(es[out@[m] as int])
                    ==> p[k] < p[m],
        decreases n - i,
    {
        let x = sel[i];
        let key = created_key_of(&entries[x]);
        let mut j: usize = 0;
        while j < keys.len() && keys[j] >= key
            invariant
                j <= keys@.len(),
                keys@.len() == i,
                forall|k: int| 0 <= k < j ==> #[trigger] keys@[k] >= key,
            decreases keys@.len() - j,
        {
            j += 1;
        }
        let ghost old_out = out@;
        let ghost old_keys = keys@;
        let ghost old_p = p;
        let ghost ke = key as int;
        out.insert(j, x);
        keys.insert(j, key);
        proof {
            p = old_p.insert(j as int, i as int);
            let jj = j as int;
            assert(jj < i ==> old_keys[jj] < key);
            assert forall|k: int| 0 <= k <= i implies out@[k] == sel@[#[trigger] p[k]] by {
                if k < jj {
                    assert(out@[k] == old_out[k]);
                } else if k > jj {
                    assert(out@[k] == old_out[k - 1]);
                }
            }
            assert forall|k: int| 0 <= k <= i implies keys@[k] as int == created_key(
                es[#[trigger] out@[k] as int],
            ) by {
                if k < jj {
                    assert(out@[k] == old_out[k]);
                } else if k > jj {
                    assert(out@[k] == old_out[k - 1]);
                }
            }
            assert forall|k: int| 0 <= k <= i implies #[trigger] out@[k] < es.len() by {
                if k < jj {
                    assert(out@[k] == old_out[k]);
                } else if k > jj {
                    assert(out@[k] == old_out[k - 1]);
                }
            }
            assert forall|m: int| jj < m <= i implies created_key(es[#[trigger] out@[m] as int]) < ke by {
                assert(out@[m] == old_out[m - 1]);
                assert(old_keys[jj] as int == created_key(es[old_out[jj] as int]));
                if jj < m - 1 {
                    assert(created_key(es[old_out[jj] as int]) >= created_key(es[old_out[m - 1] as int]));
                }
            }
            assert forall|k: int| 0 <= k < jj implies created_key(es[#[trigger] out@[k] as int]) >= ke by {
                assert(out@[k] == old_out[k]);
                assert(old_keys[k] as int == created_key(es[old_out[k] as int]));
            }
            assert(created_key(es[out@[jj] as int]) == ke);
            assert forall|k: int, m: int| 0 <= k < m <= i implies created_key(es[out@[k] as int])
                >= created_key(es[out@[m] as int]) by {
                if m < jj {
                    assert(out@[k] == old_out[k] && out@[m] == old_out[m]);
                } else if k > jj {
                    assert(out@[k] == old_out[k - 1] && out@[m] == old_out[m - 1]);
                } else if k < jj && m > jj {
                    assert(out@[k] == old_out[k] && out@[m] == old_out[m - 1]);
                }
            }
            assert forall|k: int, m: int|
                0 <= k < m <= i && created_key(es[out@[k] as int]) == created_key(es[out@[m] as int])
                    implies p[k] < p[m] by {
                if m < jj {
                    assert(out@[k] == old_out[k] && out@[m] == old_out[m]);
                } else if k > jj {
                    assert(out@[k] == old_out[k - 1] && out@[m] == old_out[m - 1]);
                } else if k < jj && m > jj {
                    assert(out@[k] == old_out[k] && out@[m] == old_out[m - 1]);
                }
            }
        }
        i += 1;
    }
    proof {
        assert(stable_newest(es, sel@, out@, p));
    }
    out
}

} // verus!

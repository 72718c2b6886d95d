//! What `check` and `search` report: the lint results of the vault or of
//! one file, and the hits of a search with their context lines.
use vstd::prelude::*;
use crate::dates::{fmt_created, fmt_created_spec};
use crate::entry::{check_entry, check_errs, check_warns, stem_of, stem_of_name, Entry};
use crate::frontmatter::{parse_fm, parse_fm_spec};
use crate::text::{
    append_str, chars_of, contains, contains_chars, decimal, fmt_usize, join, lines, lines_of,
    lowercase, occurs_at, string_of, to_lowercase, trim, trim_chars,
};

verus! {

// ------------------------------------------------------------------ lint results

/// Problems as (file, message) pairs.
pub open spec fn pairs_view(ps: Seq<(String, String)>) -> Seq<(Seq<char>, Seq<char>)>
    decreases ps.len(),
{
    if ps.len() == 0 {
        Seq::empty()
    } else {
        pairs_view(ps.drop_last()).push((ps.last().0@, ps.last().1@))
    }
}

/// Each message of `ms` paired with the file `f`.
pub open spec fn tagged(f: Seq<char>, ms: Seq<Seq<char>>) -> Seq<(Seq<char>, Seq<char>)>
    decreases ms.len(),
{
    if ms.len() == 0 {
        Seq::empty()
    } else {
        tagged(f, ms.drop_last()).push((f, ms.last()))
    }
}

/// The path of an entry inside the vault, as problems name it.
pub open spec fn entry_rel(e: Entry) -> Seq<char> {
    e.dir@ + "/"@ + e.stem@ + ".md"@
}

/// The errors of the first `k` entries, in order.
pub open spec fn entries_errs(es: Seq<Entry>, k: int) -> Seq<(Seq<char>, Seq<char>)>
    decreases k,
{
    if k <= 0 {
        Seq::empty()
    } else {
        entries_errs(es, k - 1) + tagged(entry_rel(es[k - 1]), check_errs(es[k - 1].stem@, es[k - 1].fm@))
    }
}

/// The warnings of the first `k` entries, in order.
pub open spec fn entries_warns(es: Seq<Entry>, k: int) -> Seq<(Seq<char>, Seq<char>)>
    decreases k,
{
    if k <= 0 {
        Seq::empty()
    } else {
        entries_warns(es, k - 1) + tagged(entry_rel(es[k - 1]), check_warns(es[k - 1].dir@, es[k - 1].fm@))
    }
}

/// How many of the first `k` entries have no error.
pub open spec fn entries_ok(es: Seq<Entry>, k: int) -> nat
    decreases k,
{
    if k <= 0 {
        0
    } else {
        entries_ok(es, k - 1) + if check_errs(es[k - 1].stem@, es[k - 1].fm@).len() == 0 {
            1nat
        } else {
            0nat
        }
    }
}

/// The result of a lint: errors, warnings, and how many entries passed.
#[derive(Debug)]
pub struct Report {
    pub errs: Vec<(String, String)>,
    pub warns: Vec<(String, String)>,
    pub ok: usize,
}

fn push_tagged(out: &mut Vec<(String, String)>, f: &str, ms: &Vec<String>)
    ensures
        pairs_view(final(out)@) == pairs_view(old(out)@) + tagged(f@, ms.deep_view()),
{
    let ghost start = pairs_view(out@);
    let ghost mv = ms.deep_view();
    let mut i: usize = 0;
    assert(mv.take(0) =~= Seq::<Seq<char>>::empty());
    assert(start + tagged(f@, mv.take(0)) =~= start);
    while i < ms.len()
        invariant
            mv == ms.deep_view(),
            i <= mv.len(),
            pairs_view(out@) == start + tagged(f@, mv.take(i as int)),
        decreases mv.len() - i,
    {
        let ghost before = out@;
        out.push((f.to_owned(), ms[i].clone()));
        proof {
            assert(out@.drop_last() =~= before);
            assert(mv.take(i + 1).drop_last() =~= mv.take(i as int));
            assert(mv[i as int] == ms@[i as int]@);
            assert(start + tagged(f@, mv.take(i + 1)) =~= (start + tagged(f@, mv.take(i as int))).push(
                (f@, mv[i as int]),
            ));
        }
        i += 1;
    }
    assert(mv.take(mv.len() as int) =~= mv);
}

/// Lints the vault's entries; `parse_errs` are the files that did not read
/// as entries, reported first.
pub fn check_vault(entries: &[Entry], parse_errs: &[(String, String)]) -> (r: Report)
    ensures
        pairs_view(r.errs@) == pairs_view(parse_errs@) + entries_errs(entries@, entries@.len() as int),
        pairs_view(r.warns@) == entries_warns(entries@, entries@.len() as int),
        r.ok == entries_ok(entries@, entries@.len() as int),
{
    let mut errs: Vec<(String, String)> = Vec::new();
    let mut i: usize = 0;
    assert(parse_errs@.take(0) =~= Seq::<(String, String)>::empty());
    while i < parse_errs.len()
        invariant
            i <= parse_errs@.len(),
            pairs_view(errs@) == pairs_view(parse_errs@.take(i as int)),
        decreases parse_errs@.len() - i,
    {
        let ghost before = errs@;
        errs.push((parse_errs[i].0.clone(), parse_errs[i].1.clone()));
        proof {
            assert(errs@.drop_last() =~= before);
            assert(parse_errs@.take(i + 1).drop_last() =~= parse_errs@.take(i as int));
        }
        i += 1;
    }
    assert(parse_errs@.take(parse_errs@.len() as int) =~= parse_errs@);
    let ghost base = pairs_view(errs@);
    let mut warns: Vec<(String, String)> = Vec::new();
    let mut ok: usize = 0;
    let mut k: usize = 0;
    assert(base + entries_errs(entries@, 0) =~= base);
    while k < entries.len()
        invariant
            k <= entries@.len(),
            base == pairs_view(parse_errs@),
            pairs_view(errs@) == base + entries_errs(entries@, k as int),
            pairs_view(warns@) == entries_warns(entries@, k as int),
            ok == entries_ok(entries@, k as int),
            ok <= k,
        decreases entries@.len() - k,
    {
        let e = &entries[k];
        let mut rel = e.dir.clone();
        append_str(&mut rel, "/");
        append_str(&mut rel, e.stem.as_str());
        append_str(&mut rel, ".md");
        let (es, ws) = check_entry(e.dir.as_str(), e.stem.as_str(), &e.fm);
        if es.len() == 0 {
            ok = ok + 1;
        }
        let ghost before = pairs_view(errs@);
        push_tagged(&mut errs, rel.as_str(), &es);
        push_tagged(&mut warns, rel.as_str(), &ws);
        proof {
            assert(base + entries_errs(entries@, k + 1) =~= before + tagged(
                entry_rel(entries@[k as int]),
                check_errs(entries@[k as int].stem@, entries@[k as int].fm@),
            ));
        }
        k += 1;
    }
    Report { errs, warns, ok }
}

/// The lint of one file `name` in folder `dir` with contents `text`: its
/// errors and warnings named by the file, or the reason it is no entry.
pub open spec fn file_report_ok(name: Seq<char>, dir: Seq<char>, text: Seq<char>, r: Report) -> bool {
    match parse_fm_spec(text) {
        Ok(fm) => {
            let es = check_errs(stem_of(name), fm);
            &&& pairs_view(r.errs@) == tagged(name, es)
            &&& pairs_view(r.warns@) == tagged(name, check_warns(dir, fm))
            &&& r.ok == (if es.len() == 0 {
                1usize
            } else {
                0usize
            })
        },
        Err(m) => {
            &&& pairs_view(r.errs@) == seq![(name, m)]
            &&& r.warns@.len() == 0
            &&& r.ok == 0
        },
    }
}

/// Lints one file (see `file_report_ok`).
pub fn check_file(name: &str, dir: &str, text: &str) -> (r: Report)
    ensures
        file_report_ok(name@, dir@, text@, r),
{
    let mut errs: Vec<(String, String)> = Vec::new();
    let mut warns: Vec<(String, String)> = Vec::new();
    assert(pairs_view(errs@) =~= Seq::<(Seq<char>, Seq<char>)>::empty());
    match parse_fm(text) {
        Ok(fm) => {
            let stem = stem_of_name(name);
            let (es, ws) = check_entry(dir, stem.as_str(), &fm);
            push_tagged(&mut errs, name, &es);
            push_tagged(&mut warns, name, &ws);
            assert(Seq::<(Seq<char>, Seq<char>)>::empty() + tagged(name@, es.deep_view()) =~= tagged(
                name@,
                es.deep_view(),
            ));
            assert(Seq::<(Seq<char>, Seq<char>)>::empty() + tagged(name@, ws.deep_view()) =~= tagged(
                name@,
                ws.deep_view(),
            ));
            let ok: usize = if es.len() == 0 {
                1
            } else {
                0
            };
            Report { errs, warns, ok }
        },
        Err(m) => {
            errs.push((name.to_owned(), m));
            assert(errs@.drop_last() =~= Seq::<(String, String)>::empty());
            Report { errs, warns, ok: 0 }
        },
    }
}

/// The lines `check` prints: each error, each warning, and the summary.
pub open spec fn report_lines_spec(
    errs: Seq<(Seq<char>, Seq<char>)>,
    warns: Seq<(Seq<char>, Seq<char>)>,
    ok: nat,
    vault: Seq<char>,
) -> Seq<Seq<char>> {
    Seq::new(errs.len(), |i: int| "ERR "@ + errs[i].0 + ": "@ + errs[i].1) + Seq::new(
        warns.len(),
        |i: int| "WARN "@ + warns[i].0 + ": "@ + warns[i].1,
    ) + seq![
        "checked: "@ + decimal(ok) + " ok, "@ + decimal(errs.len()) + " error(s), "@ + decimal(
            warns.len(),
        ) + " warning(s), vault: "@ + vault,
    ]
}

proof fn lemma_pairs_view(ps: Seq<(String, String)>)
    ensures
        pairs_view(ps).len() == ps.len(),
        forall|i: int| 0 <= i < ps.len() ==> #[trigger] pairs_view(ps)[i] == (ps[i].0@, ps[i].1@),
    decreases ps.len(),
{
    if ps.len() > 0 {
        lemma_pairs_view(ps.drop_last());
        assert forall|i: int| 0 <= i < ps.len() implies #[trigger] pairs_view(ps)[i] == (ps[i].0@, ps[i].1@) by {
            if i < ps.len() - 1 {
                assert(ps.drop_last()[i] == ps[i]);
            }
        }
    }
}

fn prefixed(out: &mut Vec<String>, head: &str, ps: &Vec<(String, String)>)
    ensures
        final(out).deep_view() == old(out).deep_view() + Seq::new(
            ps@.len(),
            |i: int| head@ + pairs_view(ps@)[i].0 + ": "@ + pairs_view(ps@)[i].1,
        ),
{
    proof {
        lemma_pairs_view(ps@);
    }
    let ghost start = out.deep_view();
    let ghost pv = pairs_view(ps@);
    let mut i: usize = 0;
    while i < ps.len()
        invariant
            pv == pairs_view(ps@),
            pv.len() == ps@.len(),
            forall|j: int| 0 <= j < ps@.len() ==> #[trigger] pv[j] == (ps@[j].0@, ps@[j].1@),
            i <= ps@.len(),
            out.deep_view() == start + Seq::new(i as nat, |j: int| head@ + pv[j].0 + ": "@ + pv[j].1),
        decreases ps@.len() - i,
    {
        let mut l = head.to_owned();
        append_str(&mut l, ps[i].0.as_str());
        append_str(&mut l, ": ");
        append_str(&mut l, ps[i].1.as_str());
        let ghost before = out.deep_view();
        out.push(l);
        proof {
            assert(pv[i as int] == (ps@[i as int].0@, ps@[i as int].1@));
            assert(out.deep_view() =~= before.push(l@));
            assert(start + Seq::new((i + 1) as nat, |j: int| head@ + pv[j].0 + ": "@ + pv[j].1) =~= (start
                + Seq::new(i as nat, |j: int| head@ + pv[j].0 + ": "@ + pv[j].1)).push(l@));
        }
        i += 1;
    }
}

/// The lines `check` prints for a report, and whether it fails (it does
/// when there is an error).
pub fn report_lines(r: &Report, vault: &str) -> (out: (Vec<String>, bool))
    ensures
        out.0.deep_view() == report_lines_spec(pairs_view(r.errs@), pairs_view(r.warns@), r.ok as nat, vault@),
        out.1 == (r.errs@.len() > 0),
{
    proof {
        lemma_pairs_view(r.errs@);
        lemma_pairs_view(r.warns@);
    }
    let mut lines: Vec<String> = Vec::new();
    assert(lines.deep_view() =~= Seq::<Seq<char>>::empty());
    prefixed(&mut lines, "ERR ", &r.errs);
    prefixed(&mut lines, "WARN ", &r.warns);
    let mut last = String::from_str("checked: ");
    append_str(&mut last, fmt_usize(r.ok).as_str());
    append_str(&mut last, " ok, ");
    append_str(&mut last, fmt_usize(r.errs.len()).as_str());
    append_str(&mut last, " error(s), ");
    append_str(&mut last, fmt_usize(r.warns.len()).as_str());
    append_str(&mut last, " warning(s), vault: ");
    append_str(&mut last, vault);
    let ghost before = lines.deep_view();
    lines.push(last);
    proof {
        assert(lines.deep_view() =~= before.push(last@));
        assert(lines.deep_view() =~= report_lines_spec(
            pairs_view(r.errs@),
            pairs_view(r.warns@),
            r.ok as nat,
            vault@,
        ));
    }
    (lines, r.errs.len() > 0)
}

// ------------------------------------------------------------------ search

/// What a search looks through: an entry's title, tags and body, each in
/// lowercase, separated by spaces. (`str::to_lowercase` maps every character
/// on its own but a final sigma, whose context a space ends, so this is the
/// lowercase of the joined text.)
pub open spec fn haystack(e: Entry) -> Seq<char> {
    lowercase(e.fm.title@) + " "@ + lowercase(join(e.fm.tags.deep_view(), " "@)) + " "@ + lowercase(
        e.body@,
    )
}

/// The lines among the first `k` whose lowercase holds `needle`.
pub open spec fn matching_lines(ls: Seq<Seq<char>>, needle: Seq<char>, k: int) -> Seq<Seq<char>>
    decreases k,
{
    if k <= 0 {
        Seq::empty()
    } else {
        let r = matching_lines(ls, needle, k - 1);
        if contains(lowercase(ls[k - 1]), needle) {
            r.push(ls[k - 1])
        } else {
            r
        }
    }
}

/// The context of a hit: the first three lines of its body that hold the
/// needle, trimmed.
pub open spec fn context(e: Entry, needle: Seq<char>) -> Seq<Seq<char>> {
    let ls = lines(e.body@);
    let m = matching_lines(ls, needle, ls.len() as int);
    let f = if m.len() > 3 {
        m.take(3)
    } else {
        m
    };
    Seq::new(f.len(), |i: int| trim(f[i]))
}

/// The lines printed for a hit: its path, its title and creation time,
/// and its context lines.
pub open spec fn hit_lines(e: Entry, needle: Seq<char>) -> Seq<Seq<char>> {
    let c = context(e, needle);
    seq![
        e.dir@ + "/"@ + e.stem@ + ".md"@,
        "  "@ + e.fm.title@ + " // "@ + fmt_created_spec(e.fm.created@),
    ] + Seq::new(c.len(), |i: int| "  > "@ + c[i])
}

/// The lines printed for the hits among the first `k` entries.
pub open spec fn search_hits(es: Seq<Entry>, needle: Seq<char>, k: int) -> Seq<Seq<char>>
    decreases k,
{
    if k <= 0 {
        Seq::empty()
    } else {
        search_hits(es, needle, k - 1) + if contains(haystack(es[k - 1]), needle) {
            hit_lines(es[k - 1], needle)
        } else {
            Seq::empty()
        }
    }
}

/// How many of the first `k` entries are hits.
pub open spec fn hit_count(es: Seq<Entry>, needle: Seq<char>, k: int) -> nat
    decreases k,
{
    if k <= 0 {
        0
    } else {
        hit_count(es, needle, k - 1) + if contains(haystack(es[k - 1]), needle) {
            1nat
        } else {
            0nat
        }
    }
}

/// Everything `search` prints for `query`: each hit, then the summary.
pub open spec fn search_spec(es: Seq<Entry>, query: Seq<char>) -> Seq<Seq<char>> {
    let needle = lowercase(query);
    search_hits(es, needle, es.len() as int) + seq![
        "searched "@ + decimal(es.len()) + " files, "@ + decimal(hit_count(es, needle, es.len() as int))
            + " match(es)"@,
    ]
}

fn context_of(e: &Entry, needle: &Vec<char>) -> (r: Vec<String>)
    ensures
        r.deep_view() == context(*e, needle@),
{
    let ls = lines_of(&chars_of(e.body.as_str()));
    let ghost lv = ls.deep_view();
    let mut m: Vec<Vec<char>> = Vec::new();
    let mut i: usize = 0;
    assert(m.deep_view() =~= Seq::<Seq<char>>::empty());
    while i < ls.len()
        invariant
            lv == ls.deep_view(),
            lv == lines(e.body@),
            i <= lv.len(),
            m.deep_view() == matching_lines(lv, needle@, i as int),
        decreases lv.len() - i,
    {
        let low = to_lowercase(string_of(&ls[i]).as_str());
        proof {
            assert(lv[i as int] == ls@[i as int]@);
        }
        if contains_chars(&chars_of(low.as_str()), needle) {
            let ghost before = m.deep_view();
            let x = crate::text::slice_of(&ls[i], 0, ls[i].len());
            assert(ls@[i as int]@.subrange(0, ls@[i as int]@.len() as int) =~= ls@[i as int]@);
            assert(x.deep_view() =~= x@);
            m.push(x);
            assert(m.deep_view() =~= before.push(lv[i as int]));
        }
        i += 1;
    }
    let n: usize = if m.len() > 3 {
        3
    } else {
        m.len()
    };
    let ghost mv = m.deep_view();
    let ghost f = if mv.len() > 3 {
        mv.take(3)
    } else {
        mv
    };
    let mut r: Vec<String> = Vec::new();
    let mut k: usize = 0;
    while k < n
        invariant
            mv == m.deep_view(),
            n == f.len(),
            n <= mv.len(),
            forall|j: int| 0 <= j < n ==> #[trigger] f[j] == mv[j],
            k <= n,
            r.deep_view() == Seq::new(k as nat, |j: int| trim(f[j])),
        decreases n - k,
    {
        let t = string_of(&trim_chars(&m[k]));
        let ghost before = r.deep_view();
        r.push(t);
        proof {
            assert(mv[k as int] == m@[k as int]@);
            assert(r.deep_view() =~= before.push(t@));
            assert(t@ == trim(f[k as int]));
            assert(r.deep_view() =~= Seq::new((k + 1) as nat, |j: int| trim(f[j])));
        }
        k += 1;
    }
    r
}

fn push_line(out: &mut Vec<String>, l: String)
    ensures
        final(out).deep_view() == old(out).deep_view().push(l@),
{
    let ghost before = out.deep_view();
    out.push(l);
    assert(out.deep_view() =~= before.push(l@));
}

fn hit_lines_of(e: &Entry, needle: &Vec<char>) -> (r: Vec<String>)
    ensures
        r.deep_view() == hit_lines(*e, needle@),
{
    let c = context_of(e, needle);
    let mut r: Vec<String> = Vec::new();
    let mut p = e.dir.clone();
    append_str(&mut p, "/");
    append_str(&mut p, e.stem.as_str());
    append_str(&mut p, ".md");
    let mut t = String::from_str("  ");
    append_str(&mut t, e.fm.title.as_str());
    append_str(&mut t, " // ");
    append_str(&mut t, fmt_created(e.fm.created.as_str()).as_str());
    assert(r.deep_view() =~= Seq::<Seq<char>>::empty());
    push_line(&mut r, p);
    push_line(&mut r, t);
    let ghost head = r.deep_view();
    let ghost cv = c.deep_view();
    let mut i: usize = 0;
    while i < c.len()
        invariant
            cv == c.deep_view(),
            i <= cv.len(),
            r.deep_view() == head + Seq::new(i as nat, |j: int| "  > "@ + cv[j]),
        decreases cv.len() - i,
    {
        let mut l = String::from_str("  > ");
        append_str(&mut l, c[i].as_str());
        proof {
            assert(cv[i as int] == c@[i as int]@);
        }
        let ghost before = r.deep_view();
        push_line(&mut r, l);
        proof {
            assert(head + Seq::new((i + 1) as nat, |j: int| "  > "@ + cv[j]) =~= before.push(l@));
        }
        i += 1;
    }
    r
}

fn haystack_of(e: &Entry) -> (r: String)
    ensures
        r@ == haystack(*e),
{
    let mut h = to_lowercase(e.fm.title.as_str());
    append_str(&mut h, " ");
    append_str(&mut h, to_lowercase(crate::text::join_strs(e.fm.tags.as_slice(), " ").as_str()).as_str());
    append_str(&mut h, " ");
    append_str(&mut h, to_lowercase(e.body.as_str()).as_str());
    h
}

/// Everything `search` prints (see `search_spec`).
pub fn search(entries: &[Entry], query: &str) -> (r: Vec<String>)
    ensures
        r.deep_view() == search_spec(entries@, query@),
{
    let needle = chars_of(to_lowercase(query).as_str());
    let mut out: Vec<String> = Vec::new();
    let mut hits: usize = 0;
    let mut i: usize = 0;
    assert(out.deep_view() =~= Seq::<Seq<char>>::empty());
    while i < entries.len()
        invariant
            i <= entries@.len(),
            needle@ == lowercase(query@),
            out.deep_view() == search_hits(entries@, needle@, i as int),
            hits == hit_count(entries@, needle@, i as int),
            hits <= i,
        decreases entries@.len() - i,
    {
        let e = &entries[i];
        let hay = chars_of(haystack_of(e).as_str());
        if contains_chars(&hay, &needle) {
            hits = hits + 1;
            let hl = hit_lines_of(e, &needle);
            let ghost before = out.deep_view();
            let mut k: usize = 0;
            while k < hl.len()
                invariant
                    k <= hl@.len(),
                    out.deep_view() == before + hl.deep_view().take(k as int),
                decreases hl@.len() - k,
            {
                let ghost b2 = out.deep_view();
                push_line(&mut out, hl[k].clone());
                proof {
                    assert(hl.deep_view()[k as int] == hl@[k as int]@);
                    assert(before + hl.deep_view().take(k + 1) =~= b2.push(hl@[k as int]@));
                }
                k += 1;
            }
            assert(hl.deep_view().take(hl@.len() as int) =~= hl.deep_view());
        } else {
            assert(out.deep_view() + Seq::<Seq<char>>::empty() =~= out.deep_view());
        }
        i += 1;
    }
    let mut last = String::from_str("searched ");
    append_str(&mut last, fmt_usize(entries.len()).as_str());
    append_str(&mut last, " files, ");
    append_str(&mut last, fmt_usize(hits).as_str());
    append_str(&mut last, " match(es)");
    let ghost before = out.deep_view();
    push_line(&mut out, last);
    assert(out.deep_view() =~= before + seq![last@]);
    out
}


proof fn lemma_contains_suffix(a: Seq<char>, b: Seq<char>, p: Seq<char>)
    requires
        contains(b, p),
    ensures
        contains(a + b, p),
{
    let i = choose|i: int| occurs_at(b, p, i);
    assert((a + b).subrange(a.len() + i, a.len() + i + p.len()) =~= b.subrange(i, i + p.len()));
    assert(occurs_at(a + b, p, a.len() + i));
}

proof fn lemma_hits_kept(es: Seq<Entry>, needle: Seq<char>, i: int, k: int)
    requires
        0 <= i < k <= es.len(),
        contains(haystack(es[i]), needle),
    ensures
        search_hits(es, needle, k).contains(es[i].dir@ + "/"@ + es[i].stem@ + ".md"@),
        hit_count(es, needle, k) >= 1,
    decreases k,
{
    let path = es[i].dir@ + "/"@ + es[i].stem@ + ".md"@;
    if k == i + 1 {
        let prev = search_hits(es, needle, i);
        let h = hit_lines(es[i], needle);
        assert(h[0] == path);
        assert((prev + h)[prev.len() as int] == path);
    } else {
        lemma_hits_kept(es, needle, i, k - 1);
        let prev = search_hits(es, needle, k - 1);
        let j = choose|j: int| 0 <= j < prev.len() && prev[j] == path;
        let add = if contains(haystack(es[k - 1]), needle) {
            hit_lines(es[k - 1], needle)
        } else {
            Seq::empty()
        };
        assert((prev + add)[j] == path);
    }
}

/// Search looks in the body: an entry whose lowercased body holds the
/// lowercased query is a match. Its path is printed, and the summary counts
/// at least one match.
pub proof fn law_body_text_is_found(es: Seq<Entry>, query: Seq<char>, i: int)
    requires
        0 <= i < es.len(),
        contains(lowercase(es[i].body@), lowercase(query)),
    ensures
        search_spec(es, query).contains(es[i].dir@ + "/"@ + es[i].stem@ + ".md"@),
        hit_count(es, lowercase(query), es.len() as int) >= 1,
{
    let e = es[i];
    let needle = lowercase(query);
    lemma_contains_suffix(
        lowercase(e.fm.title@) + " "@ + lowercase(join(e.fm.tags.deep_view(), " "@)) + " "@,
        lowercase(e.body@),
        needle,
    );
    lemma_hits_kept(es, needle, i, es.len() as int);
    let hits = search_hits(es, needle, es.len() as int);
    let path = e.dir@ + "/"@ + e.stem@ + ".md"@;
    let j = choose|j: int| 0 <= j < hits.len() && hits[j] == path;
    let tail = seq![
        "searched "@ + decimal(es.len()) + " files, "@ + decimal(hit_count(es, needle, es.len() as int))
            + " match(es)"@,
    ];
    assert((hits + tail)[j] == path);
}

} // verus!

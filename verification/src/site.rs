//! What the dashboard counts and lists: the distribution of the vault, the
//! daily capture counts, and the selections and orders of entries that the
//! pages show.
use vstd::prelude::*;
use crate::entry::{is_done_entry, is_done_spec, is_open_spec, is_open_todo, Entry};
use crate::render::{days_view, is_overdue_spec, lemma_segs_view, segs_view, Seg, SegView};
use crate::text::{eq_str, starts_with, starts_with_chars, chars_of};

verus! {

// ------------------------------------------------------------------ counts

pub open spec fn in_dir(e: Entry, d: Seq<char>) -> bool {
    e.dir@ == d
}

pub open spec fn in_folders(e: Entry) -> bool {
    in_dir(e, "inbox"@) || in_dir(e, "ideas"@) || in_dir(e, "notes"@) || in_dir(e, "archive"@)
}

/// The folder segment an entry that is not a todo is counted in: its folder
/// when that is `inbox/`, `ideas/`, `notes/` or `archive/`; for one filed
/// elsewhere (under `todo/`), the segment of its type: ideas for `idea` and
/// `thought`, notes for `note`, the inbox for any other type.
pub open spec fn folder_seg(e: Entry) -> Seq<char> {
    if in_folders(e) {
        e.dir@
    } else if e.fm.type_@ == "idea"@ || e.fm.type_@ == "thought"@ {
        "ideas"@
    } else if e.fm.type_@ == "note"@ {
        "notes"@
    } else {
        "inbox"@
    }
}

/// An entry of the folder segment `d`: not a todo (todos are counted by
/// their state, wherever they are filed), and of that folder segment.
pub open spec fn in_seg(e: Entry, d: Seq<char>) -> bool {
    e.fm.type_@ != "todo"@ && folder_seg(e) == d
}

/// How many of the first `k` entries are open todos, in any folder.
pub open spec fn count_open(es: Seq<Entry>, k: int) -> nat
    decreases k,
{
    if k <= 0 {
        0
    } else {
        count_open(es, k - 1) + if is_open_spec(es[k - 1]) {
            1nat
        } else {
            0nat
        }
    }
}

/// How many of the first `k` entries are done todos, in any folder.
pub open spec fn count_done(es: Seq<Entry>, k: int) -> nat
    decreases k,
{
    if k <= 0 {
        0
    } else {
        count_done(es, k - 1) + if is_done_spec(es[k - 1]) {
            1nat
        } else {
            0nat
        }
    }
}

/// How many of the first `k` entries are in the folder segment `d`.
pub open spec fn count_seg(es: Seq<Entry>, k: int, d: Seq<char>) -> nat
    decreases k,
{
    if k <= 0 {
        0
    } else {
        count_seg(es, k - 1, d) + if in_seg(es[k - 1], d) {
            1nat
        } else {
            0nat
        }
    }
}

/// How many of the first `k` entries are overdue todos, in any folder.
pub open spec fn count_overdue(es: Seq<Entry>, k: int, today: Seq<char>) -> nat
    decreases k,
{
    if k <= 0 {
        0
    } else {
        count_overdue(es, k - 1, today) + if is_overdue_spec(es[k - 1], today) {
            1nat
        } else {
            0nat
        }
    }
}

/// The vault's distribution: all entries, the six segments of the ring
/// (each entry in exactly one: todos by their state, other entries by their
/// folder segment), and the overdue todos among the open ones.
#[derive(Debug)]
pub struct Tally {
    pub total: usize,
    pub open: usize,
    pub done: usize,
    pub inbox: usize,
    pub ideas: usize,
    pub notes: usize,
    pub archive: usize,
    pub overdue: usize,
}

pub open spec fn tally_of(es: Seq<Entry>, today: Seq<char>, t: Tally) -> bool {
    let n = es.len() as int;
    &&& t.total == es.len()
    &&& t.open == count_open(es, n)
    &&& t.done == count_done(es, n)
    &&& t.inbox == count_seg(es, n, "inbox"@)
    &&& t.ideas == count_seg(es, n, "ideas"@)
    &&& t.notes == count_seg(es, n, "notes"@)
    &&& t.archive == count_seg(es, n, "archive"@)
    &&& t.overdue == count_overdue(es, n, today)
}

pub proof fn lemma_counts_bounded(es: Seq<Entry>, k: int, today: Seq<char>, d: Seq<char>)
    requires
        0 <= k,
    ensures
        count_open(es, k) <= k,
        count_done(es, k) <= k,
        count_seg(es, k, d) <= k,
        count_overdue(es, k, today) <= k,
    decreases k,
{
    if k > 0 {
        lemma_counts_bounded(es, k - 1, today, d);
    }
}

fn overdue_of(e: &Entry, today: &str) -> (b: bool)
    ensures
        b == is_overdue_spec(*e, today@),
{
    eq_str(e.fm.type_.as_str(), "todo") && !is_done_entry(e) && match &e.fm.due {
        Some(d) => crate::text::str_less(d.as_str(), today),
        None => false,
    }
}

/// The vault's distribution, counted.
pub open spec fn tally_spec(es: Seq<Entry>, today: Seq<char>) -> Tally {
    let n = es.len() as int;
    Tally {
        total: es.len() as usize,
        open: count_open(es, n) as usize,
        done: count_done(es, n) as usize,
        inbox: count_seg(es, n, "inbox"@) as usize,
        ideas: count_seg(es, n, "ideas"@) as usize,
        notes: count_seg(es, n, "notes"@) as usize,
        archive: count_seg(es, n, "archive"@) as usize,
        overdue: count_overdue(es, n, today) as usize,
    }
}

fn folder_seg_of(e: &Entry) -> (d: &str)
    ensures
        d@ == folder_seg(*e),
        d@ == "inbox"@ || d@ == "ideas"@ || d@ == "notes"@ || d@ == "archive"@,
{
    let dir = e.dir.as_str();
    if eq_str(dir, "inbox") || eq_str(dir, "ideas") || eq_str(dir, "notes") || eq_str(dir, "archive") {
        dir
    } else {
        let t = e.fm.type_.as_str();
        if eq_str(t, "idea") || eq_str(t, "thought") {
            "ideas"
        } else if eq_str(t, "note") {
            "notes"
        } else {
            "inbox"
        }
    }
}

/// Counts the vault's distribution.
pub fn tally(entries: &[Entry], today: &str) -> (t: Tally)
    ensures
        tally_of(entries@, today@, t),
        t == tally_spec(entries@, today@),
{
    let mut t = Tally { total: entries.len(), open: 0, done: 0, inbox: 0, ideas: 0, notes: 0, archive: 0, overdue: 0 };
    let mut i: usize = 0;
    while i < entries.len()
        invariant
            i <= entries@.len(),
            t.total == entries@.len(),
            t.open == count_open(entries@, i as int),
            t.done == count_done(entries@, i as int),
            t.inbox == count_seg(entries@, i as int, "inbox"@),
            t.ideas == count_seg(entries@, i as int, "ideas"@),
            t.notes == count_seg(entries@, i as int, "notes"@),
            t.archive == count_seg(entries@, i as int, "archive"@),
            t.overdue == count_overdue(entries@, i as int, today@),
        decreases entries@.len() - i,
    {
        proof {
            lemma_counts_bounded(entries@, i as int, today@, "inbox"@);
            lemma_counts_bounded(entries@, i as int, today@, "ideas"@);
            lemma_counts_bounded(entries@, i as int, today@, "notes"@);
            lemma_counts_bounded(entries@, i as int, today@, "archive"@);
            lemma_folder_names_differ();
        }
        let e = &entries[i];
        if is_open_todo(e) {
            t.open = t.open + 1;
        } else if is_done_entry(e) {
            t.done = t.done + 1;
        } else {
            let d = folder_seg_of(e);
            if eq_str(d, "inbox") {
                t.inbox = t.inbox + 1;
            } else if eq_str(d, "ideas") {
                t.ideas = t.ideas + 1;
            } else if eq_str(d, "notes") {
                t.notes = t.notes + 1;
            } else {
                t.archive = t.archive + 1;
            }
        }
        if overdue_of(e, today) {
            t.overdue = t.overdue + 1;
        }
        i += 1;
    }
    proof {
        lemma_counts_bounded(entries@, entries@.len() as int, today@, "inbox"@);
    }
    t
}

/// The six segments of the ring: inbox, open todos (the signal), done
/// todos, ideas, notes, archive; each with its label and opacity.
pub open spec fn tally_segs(t: Tally) -> Seq<SegView> {
    seq![
        SegView { label: "收件"@, en: "INBOX"@, n: t.inbox, kind: 0, op: "0.72"@ },
        SegView { label: "待办·未完成"@, en: "TODO OPEN"@, n: t.open, kind: 1, op: "1"@ },
        SegView { label: "待办·已完成"@, en: "TODO DONE"@, n: t.done, kind: 0, op: "0.50"@ },
        SegView { label: "想法"@, en: "IDEAS"@, n: t.ideas, kind: 0, op: "0.38"@ },
        SegView { label: "笔记"@, en: "NOTES"@, n: t.notes, kind: 0, op: "0.28"@ },
        SegView { label: "归档"@, en: "ARCHIVE"@, n: t.archive, kind: 0, op: "0.20"@ },
    ]
}

/// The ring's segments for a distribution.
pub fn segments(t: &Tally) -> (r: Vec<Seg>)
    ensures
        segs_view(r@) == tally_segs(*t),
{
    let mut r: Vec<Seg> = Vec::new();
    r.push(Seg { label: "收件", en: "INBOX", n: t.inbox, kind: 0, op: "0.72" });
    r.push(Seg { label: "待办·未完成", en: "TODO OPEN", n: t.open, kind: 1, op: "1" });
    r.push(Seg { label: "待办·已完成", en: "TODO DONE", n: t.done, kind: 0, op: "0.50" });
    r.push(Seg { label: "想法", en: "IDEAS", n: t.ideas, kind: 0, op: "0.38" });
    r.push(Seg { label: "笔记", en: "NOTES", n: t.notes, kind: 0, op: "0.28" });
    r.push(Seg { label: "归档", en: "ARCHIVE", n: t.archive, kind: 0, op: "0.20" });
    proof {
        lemma_segs_view(r@);
        assert(segs_view(r@) =~= tally_segs(*t));
    }
    r
}

proof fn lemma_folder_names_differ()
    ensures
        "inbox"@ != "ideas"@,
        "inbox"@ != "notes"@,
        "inbox"@ != "archive"@,
        "ideas"@ != "notes"@,
        "ideas"@ != "archive"@,
        "notes"@ != "archive"@,
{
    reveal_strlit("inbox");
    reveal_strlit("ideas");
    reveal_strlit("notes");
    reveal_strlit("archive");
    assert("inbox"@[1] != "ideas"@[1]);
    assert("inbox"@[0] != "notes"@[0]);
    assert("inbox"@.len() != "archive"@.len());
    assert("ideas"@[0] != "notes"@[0]);
    assert("ideas"@.len() != "archive"@.len());
    assert("notes"@.len() != "archive"@.len());
}

proof fn lemma_segments_sum(es: Seq<Entry>, k: int)
    requires
        0 <= k <= es.len(),
    ensures
        count_seg(es, k, "inbox"@) + count_open(es, k) + count_done(es, k) + count_seg(es, k, "ideas"@)
            + count_seg(es, k, "notes"@) + count_seg(es, k, "archive"@) == k,
    decreases k,
{
    if k > 0 {
        lemma_segments_sum(es, k - 1);
        lemma_folder_names_differ();
    }
}

/// The ring's six segments add up to the number of entries, so the ring's
/// centre agrees with the page header, for every vault.
pub proof fn law_segments_cover(es: Seq<Entry>, today: Seq<char>, t: Tally)
    requires
        tally_of(es, today, t),
    ensures
        t.inbox + t.open + t.done + t.ideas + t.notes + t.archive == t.total,
{
    lemma_segments_sum(es, es.len() as int);
}

/// Overdue means an open todo past its due date: a todo not marked done
/// whose due date sorts before `today`. A done todo is never overdue.
pub proof fn law_overdue_is_open_and_late(e: Entry, today: Seq<char>)
    ensures
        is_overdue_spec(e, today) <==> {
            &&& e.fm.type_@ == "todo"@
            &&& crate::frontmatter::opt_view(e.fm.status) != Some("done"@)
            &&& crate::frontmatter::opt_view(e.fm.due) matches Some(d) && crate::text::str_lt(d, today)
        },
        is_overdue_spec(e, today) ==> is_open_spec(e),
{
}

proof fn lemma_overdue_le_open(es: Seq<Entry>, k: int, today: Seq<char>)
    requires
        0 <= k,
    ensures
        count_overdue(es, k, today) <= count_open(es, k),
    decreases k,
{
    if k > 0 {
        lemma_overdue_le_open(es, k - 1, today);
        law_overdue_is_open_and_late(es[k - 1], today);
    }
}

/// The overdue todos are among the open ones: the legend's overdue count
/// never exceeds the open-todo segment.
pub proof fn law_overdue_within_open(es: Seq<Entry>, today: Seq<char>, t: Tally)
    requires
        tally_of(es, today, t),
    ensures
        t.overdue <= t.open,
{
    lemma_overdue_le_open(es, es.len() as int, today);
}

// ------------------------------------------------------------------ capture days

/// How many of the first `k` entries outside `archive/` have a file name
/// starting with `key` (the `YYYYMMDD` of a day).
pub open spec fn count_day(es: Seq<Entry>, k: int, key: Seq<char>) -> nat
    decreases k,
{
    if k <= 0 {
        0
    } else {
        count_day(es, k - 1, key) + if es[k - 1].dir@ != "archive"@ && starts_with(
            es[k - 1].stem@,
            key,
        ) {
            1nat
        } else {
            0nat
        }
    }
}

pub proof fn lemma_count_day_bounded(es: Seq<Entry>, k: int, key: Seq<char>)
    requires
        0 <= k,
    ensures
        count_day(es, k, key) <= k,
    decreases k,
{
    if k > 0 {
        lemma_count_day_bounded(es, k - 1, key);
    }
}

fn count_for_day(entries: &[Entry], key: &str) -> (n: usize)
    ensures
        n == count_day(entries@, entries@.len() as int, key@),
{
    let kv = chars_of(key);
    let mut n: usize = 0;
    let mut i: usize = 0;
    while i < entries.len()
        invariant
            i <= entries@.len(),
            kv@ == key@,
            n == count_day(entries@, i as int, key@),
        decreases entries@.len() - i,
    {
        proof {
            lemma_count_day_bounded(entries@, i as int, key@);
        }
        let e = &entries[i];
        if !eq_str(e.dir.as_str(), "archive") && starts_with_chars(&chars_of(e.stem.as_str()), &kv) {
            n = n + 1;
        }
        i += 1;
    }
    n
}

/// For each day `(YYYYMMDD, MM-DD)`: its label and how many entries outside
/// `archive/` were captured that day.
pub open spec fn day_counts(es: Seq<Entry>, ks: Seq<(String, String)>) -> Seq<(Seq<char>, usize)>
    decreases ks.len(),
{
    if ks.len() == 0 {
        Seq::empty()
    } else {
        day_counts(es, ks.drop_last()).push(
            (ks.last().1@, count_day(es, es.len() as int, ks.last().0@) as usize),
        )
    }
}

/// For each day `(YYYYMMDD, MM-DD)`, oldest first, the day's label and how
/// many entries outside `archive/` were captured that day (by the time stamp
/// that starts their file name).
pub fn capture_days(entries: &[Entry], days: &[(String, String)]) -> (r: Vec<(String, usize)>)
    ensures
        days_view(r@) == day_counts(entries@, days@),
{
    let mut r: Vec<(String, usize)> = Vec::new();
    let mut i: usize = 0;
    assert(days@.take(0) =~= Seq::<(String, String)>::empty());
    assert(r@ =~= Seq::<(String, usize)>::empty());
    while i < days.len()
        invariant
            i <= days@.len(),
            days_view(r@) == day_counts(entries@, days@.take(i as int)),
        decreases days@.len() - i,
    {
        let n = count_for_day(entries, days[i].0.as_str());
        let ghost before = r@;
        r.push((days[i].1.clone(), n));
        proof {
            assert(r@.drop_last() =~= before);
            assert(days@.take(i + 1).drop_last() =~= days@.take(i as int));
        }
        i += 1;
    }
    assert(days@.take(days@.len() as int) =~= days@);
    r
}

} // verus!

//! The index page and the whole dashboard: every file `build` writes, from
//! the vault's entries.
use vstd::prelude::*;
use crate::dashboard::{
    folder_page,
    folder_page_spec,
    tags_page,
    tags_page_spec,
    todo_page,
    todo_page_spec,
};
use crate::entry::Entry;


use crate::lists::{
    done_todos,
    filter_done,
    filter_open,
    indices_in,
    lemma_filter_open_in,
    lemma_recent_in,
    open_todos,
    recent,
    recent_spec,
    sort_by_due,
    sort_newest,
    stable_by_due,
    stable_newest,
};
use crate::pages::{
    count_line,
    count_line_spec,
    detail_page,
    detail_page_spec,
    fold_list,
    fold_rows,
    rows_html,
    rows_join,
    rows_ok,
    search_json,
    search_json_spec,
};
use crate::render::{
    activity,
    activity_fits,
    activity_spec,
    band,
    band_spec,
    day_sum,
    days_view,
    deref_all,
    kicker,
    kicker_spec,
    legend,
    legend_spec,
    render,
    render_spec,
    ring,
    ring_spec,
    scale,
    scale_spec,
    seg_total,
    segs_view,
    stage,
    stage_spec,
    Page,
    Seg,
    SegView,
};
use crate::site::{capture_days, day_counts, segments, tally, tally_segs, tally_spec, Tally};
use crate::tags::{tag_names, tag_order, tags_given};
use crate::text::{append_str, decimal, fmt_usize};

verus! {

// ------------------------------------------------------------------ index page

/// The entries at `idx`.
pub open spec fn picked(es: Seq<Entry>, idx: Seq<usize>) -> Seq<Entry> {
    Seq::new(idx.len(), |i: int| es[idx[i] as int])
}

/// The last row of the open todos on the index when more than twelve are
/// open: how many more there are, linking to the todo page.
pub open spec fn more_row(n: nat) -> Seq<char> {
    "<li class=\"row\"><span class=\"row-date\">…</span><div class=\"row-main\"><a class=\"row-title\" href=\"todo.html\">还有 "@
        + decimal(n) + " 条未完成</a></div><div class=\"row-side\"></div></li>"@
}

/// The search panel of the index page (filled by the page script from
/// `search.json`).
pub open spec fn search_panel() -> Seq<char> {
    "<div class=\"composer\"><label class=\"hint\" for=\"q\">关键词 KEYWORD</label><input id=\"q\" class=\"q\" type=\"search\" placeholder=\"输入关键词 / TYPE TO SEARCH\" autocomplete=\"off\"><p class=\"hint\" id=\"qstatus\" role=\"status\">正在载入索引 / LOADING INDEX</p><div id=\"results\"></div></div>"@
}

/// How many open todos the index lists (at most twelve).
pub open spec fn open_shown(n: nat) -> nat {
    if n < 12 {
        n
    } else {
        12
    }
}

/// The recent band's body: the chronology scale beside the capture stream.
pub open spec fn recent_body(es: Seq<Entry>, ticks: Seq<char>, today: Seq<char>) -> Seq<char> {
    let rec = recent_spec(es);
    "<div class=\"scale-col\">"@ + scale_spec(picked(es, rec), ticks) + (if rec.len() == 0 {
        "<p class=\"empty\">库还是空的。试试：mind new idea \"第一个想法\"</p>"@
    } else {
        fold_list(rows_join(es, rec, ""@, today, rec.len() as int), rec.len())
    }) + "</div>"@
}

/// The open band's body: the first twelve open todos and, past twelve, a
/// row saying how many more there are.
pub open spec fn open_body(es: Seq<Entry>, today: Seq<char>) -> Seq<char> {
    let open = filter_open(es, es.len() as int);
    let k = open_shown(open.len());
    let more = (open.len() - k) as nat;
    let rows = rows_join(es, open, ""@, today, k as int);
    if k == 0 {
        "<p class=\"empty\">没有未完成的待办。</p>"@
    } else {
        "<ul class=\"rows\">"@ + (if more > 0 {
            rows + "\n"@ + more_row(more)
        } else {
            rows
        }) + "</ul>"@
    }
}

/// The index page: the stage with the session line, the distribution ring
/// and legend and the capture readout; then search, the capture stream and
/// the open todos.
#[verifier::opaque]
pub open spec fn index_page_spec(
    es: Seq<Entry>,
    segs: Seq<SegView>,
    overdue: usize,
    days: Seq<(Seq<char>, usize)>,
    arcs: Seq<char>,
    ticks: Seq<char>,
    today: Seq<char>,
    built: Seq<char>,
    count: Seq<char>,
    version: Seq<char>,
) -> Seq<char> {
    let rec = recent_spec(es);
    let open = filter_open(es, es.len() as int);
    let bands = "<div class=\"bands is-split\">"@ + band_spec(
        ""@,
        "00 / SEARCH"@,
        "检索"@,
        "标题 · 标签 · 正文"@,
        search_panel(),
        "reveal reveal-2 is-wide"@,
    ) + band_spec(
        ""@,
        "01 / RECENT"@,
        "最近捕获"@,
        "<b>"@ + decimal(rec.len()) + "</b> 条（显示最近 <b>"@ + decimal(
            if rec.len() < 8 {
                rec.len()
            } else {
                8
            },
        ) + "</b> 条）"@,
        recent_body(es, ticks, today),
        "reveal reveal-3"@,
    ) + band_spec(
        ""@,
        "02 / OPEN"@,
        "未完成待办"@,
        "<b>"@ + decimal(open.len()) + "</b> 条"@,
        open_body(es, today),
        "reveal reveal-4"@,
    ) + "</div>"@;
    let st = stage_spec(
        kicker_spec("个人档案库"@, "PERSONAL ARCHIVE"@),
        "ARCHIVE"@,
        "<span class=\"en\">SESSION</span> <b>"@ + today
            + "</b> · <span class=\"en\">LOCAL</span> <b><span id=\"clock\">--:--</span></b> · <b>"@
            + decimal(es.len()) + "</b> <span class=\"en\">ENTRIES</span>"@,
        ring_spec(segs, arcs) + legend_spec(segs, overdue) + activity_spec(days),
        ""@,
        "reveal"@,
    );
    render_spec("dashboard"@, "index"@, st, bands, built, count, version)
}

/// The rows of the index page name entries that exist.
pub open spec fn index_ok(es: Seq<Entry>) -> bool {
    let open = filter_open(es, es.len() as int);
    &&& rows_ok(es, recent_spec(es))
    &&& rows_ok(es, open.take(open_shown(open.len()) as int))
}

proof fn lemma_rows_join_prefix(es: Seq<Entry>, a: Seq<usize>, b: Seq<usize>, root: Seq<char>, today: Seq<char>, k: int)
    requires
        0 <= k <= a.len(),
        k <= b.len(),
        forall|i: int| 0 <= i < k ==> a[i] == b[i],
    ensures
        rows_join(es, a, root, today, k) == rows_join(es, b, root, today, k),
    decreases k,
{
    if k > 0 {
        lemma_rows_join_prefix(es, a, b, root, today, k - 1);
    }
}

fn recent_html(entries: &[Entry], ticks: &str, today: &str) -> (r: String)
    requires
        index_ok(entries@),
    ensures
        r@ == recent_body(entries@, ticks@, today@),
{
    let rec = recent(entries);
    let mut refs: Vec<&Entry> = Vec::new();
    let mut i: usize = 0;
    while i < rec.len()
        invariant
            i <= rec@.len(),
            indices_in(rec@, entries@.len() as int),
            refs@.len() == i,
            forall|j: int| 0 <= j < i ==> *(#[trigger] refs@[j]) == entries@[rec@[j] as int],
        decreases rec@.len() - i,
    {
        assert(rec@[i as int] < entries@.len());
        refs.push(&entries[rec[i]]);
        i += 1;
    }
    assert(deref_all(refs@) =~= picked(entries@, rec@));
    let mut r = String::from_str("<div class=\"scale-col\">");
    append_str(&mut r, scale(refs.as_slice(), ticks).as_str());
    if rec.len() == 0 {
        append_str(&mut r, "<p class=\"empty\">库还是空的。试试：mind new idea \"第一个想法\"</p>");
    } else {
        let rows = rows_html(entries, rec.as_slice(), "", today);
        append_str(&mut r, fold_rows(rows.as_str(), rec.len()).as_str());
    }
    append_str(&mut r, "</div>");
    r
}

fn open_html(entries: &[Entry], today: &str) -> (r: String)
    requires
        index_ok(entries@),
    ensures
        r@ == open_body(entries@, today@),
{
    let open = open_todos(entries);
    let k: usize = if open.len() < 12 {
        open.len()
    } else {
        12
    };
    let mut first: Vec<usize> = Vec::new();
    let mut i: usize = 0;
    while i < k
        invariant
            i <= k <= open@.len(),
            first@ == open@.take(i as int),
        decreases k - i,
    {
        first.push(open[i]);
        assert(first@ =~= open@.take(i + 1));
        i += 1;
    }
    if k == 0 {
        return String::from_str("<p class=\"empty\">没有未完成的待办。</p>");
    }
    let rows = rows_html(entries, first.as_slice(), "", today);
    proof {
        lemma_rows_join_prefix(entries@, first@, open@, ""@, today@, k as int);
    }
    let more = open.len() - k;
    let mut r = String::from_str("<ul class=\"rows\">");
    if more > 0 {
        let mut items = rows;
        append_str(&mut items, "\n");
        let mut m = String::from_str(
            "<li class=\"row\"><span class=\"row-date\">…</span><div class=\"row-main\"><a class=\"row-title\" href=\"todo.html\">还有 ",
        );
        append_str(&mut m, fmt_usize(more).as_str());
        append_str(&mut m, " 条未完成</a></div><div class=\"row-side\"></div></li>");
        append_str(&mut items, m.as_str());
        append_str(&mut r, items.as_str());
    } else {
        append_str(&mut r, rows.as_str());
    }
    append_str(&mut r, "</ul>");
    r
}

/// The index page (see `index_page_spec`); `arcs` and `ticks` are the
/// floating point parts of the ring and the scale, drawn by the caller.
pub fn index_page(
    entries: &[Entry],
    segs: &[Seg],
    overdue: usize,
    days: &[(String, usize)],
    arcs: &str,
    ticks: &str,
    today: &str,
    built: &str,
    count: &str,
    version: &str,
) -> (r: String)
    requires
        index_ok(entries@),
        seg_total(segs_view(segs@)) <= usize::MAX,
        activity_fits(days_view(days@)),
    ensures
        r@ == index_page_spec(
            entries@,
            segs_view(segs@),
            overdue,
            days_view(days@),
            arcs@,
            ticks@,
            today@,
            built@,
            count@,
            version@,
        ),
{
    proof {
        reveal(index_page_spec);
    }
    let rec_n = recent(entries).len();
    let open_n = open_todos(entries).len();
    let mut rsub = String::from_str("<b>");
    append_str(&mut rsub, fmt_usize(rec_n).as_str());
    append_str(&mut rsub, "</b> 条（显示最近 <b>");
    append_str(&mut rsub, fmt_usize(if rec_n < 8 {
        rec_n
    } else {
        8
    }).as_str());
    append_str(&mut rsub, "</b> 条）");
    let mut osub = String::from_str("<b>");
    append_str(&mut osub, fmt_usize(open_n).as_str());
    append_str(&mut osub, "</b> 条");
    let mut bands = String::from_str("<div class=\"bands is-split\">");
    append_str(
        &mut bands,
        band(
            "",
            "00 / SEARCH",
            "检索",
            "标题 · 标签 · 正文",
            "<div class=\"composer\"><label class=\"hint\" for=\"q\">关键词 KEYWORD</label><input id=\"q\" class=\"q\" type=\"search\" placeholder=\"输入关键词 / TYPE TO SEARCH\" autocomplete=\"off\"><p class=\"hint\" id=\"qstatus\" role=\"status\">正在载入索引 / LOADING INDEX</p><div id=\"results\"></div></div>",
            "reveal reveal-2 is-wide",
        ).as_str(),
    );
    append_str(
        &mut bands,
        band("", "01 / RECENT", "最近捕获", rsub.as_str(), recent_html(entries, ticks, today).as_str(), "reveal reveal-3").as_str(),
    );
    append_str(
        &mut bands,
        band("", "02 / OPEN", "未完成待办", osub.as_str(), open_html(entries, today).as_str(), "reveal reveal-4").as_str(),
    );
    append_str(&mut bands, "</div>");
    let mut meta = String::from_str("<span class=\"en\">SESSION</span> <b>");
    append_str(&mut meta, today);
    append_str(
        &mut meta,
        "</b> · <span class=\"en\">LOCAL</span> <b><span id=\"clock\">--:--</span></b> · <b>",
    );
    append_str(&mut meta, fmt_usize(entries.len()).as_str());
    append_str(&mut meta, "</b> <span class=\"en\">ENTRIES</span>");
    let mut aside = ring(segs, arcs);
    append_str(&mut aside, legend(segs, overdue).as_str());
    append_str(&mut aside, activity(days).as_str());
    let st = stage(
        kicker("个人档案库", "PERSONAL ARCHIVE").as_str(),
        "ARCHIVE",
        meta.as_str(),
        aside.as_str(),
        "",
        "reveal",
    );
    let page = Page::new("dashboard", "index").stage(st).body(bands);
    render(&page, built, count, version)
}

// ------------------------------------------------------------------ the whole site

/// The detail pages of the first `k` entries, as `pages/<stem>.html`.
pub open spec fn detail_files(
    es: Seq<Entry>,
    today: Seq<char>,
    built: Seq<char>,
    count: Seq<char>,
    version: Seq<char>,
    k: int,
) -> Seq<(Seq<char>, Seq<char>)>
    decreases k,
{
    if k <= 0 {
        Seq::empty()
    } else {
        detail_files(es, today, built, count, version, k - 1).push(
            (
                "pages/"@ + es[k - 1].stem@ + ".html"@,
                detail_page_spec(es, k - 1, today, built, count, version),
            ),
        )
    }
}

/// Every file of the dashboard, by its path inside `dist/`, in the order
/// they are written: the detail pages, `search.json`, the tag page, the
/// four folder pages and the index page. `open`, `done` and `names` are the
/// orders of the todo lists and of the tag index.
pub open spec fn site_files(
    es: Seq<Entry>,
    open: Seq<usize>,
    done: Seq<usize>,
    names: Seq<Seq<char>>,
    days: Seq<(String, String)>,
    arcs: Seq<char>,
    ticks: Seq<char>,
    today: Seq<char>,
    built: Seq<char>,
    version: Seq<char>,
) -> Seq<(Seq<char>, Seq<char>)> {
    let count = count_line_spec(es.len());
    detail_files(es, today, built, count, version, es.len() as int) + list_files(
        es,
        open,
        done,
        names,
        days,
        arcs,
        ticks,
        today,
        built,
        count,
        version,
    )
}

/// The files after the detail pages: `search.json`, the tag page, the four
/// folder pages and the index page.
pub open spec fn list_files(
    es: Seq<Entry>,
    open: Seq<usize>,
    done: Seq<usize>,
    names: Seq<Seq<char>>,
    days: Seq<(String, String)>,
    arcs: Seq<char>,
    ticks: Seq<char>,
    today: Seq<char>,
    built: Seq<char>,
    count: Seq<char>,
    version: Seq<char>,
) -> Seq<(Seq<char>, Seq<char>)> {
    let t = tally_spec(es, today);
    seq![
        ("search.json"@, search_json_spec(es)),
        ("tags.html"@, tags_page_spec(es, names, today, built, count, version)),
        (
            "inbox.html"@,
            folder_page_spec(es, "inbox"@, "收件箱"@, "INBOX"@, "INBOX"@, today, built, count, version),
        ),
        ("todo.html"@, todo_page_spec(es, open, done, today, built, count, version)),
        (
            "ideas.html"@,
            folder_page_spec(es, "ideas"@, "想法"@, "IDEAS"@, "IDEAS"@, today, built, count, version),
        ),
        (
            "notes.html"@,
            folder_page_spec(es, "notes"@, "笔记"@, "NOTES"@, "NOTES"@, today, built, count, version),
        ),
        (
            "index.html"@,
            index_page_spec(
                es,
                tally_segs(t),
                t.overdue,
                day_counts(es, days),
                arcs,
                ticks,
                today,
                built,
                count,
                version,
            ),
        ),
    ]
}

/// The files as paths and contents.
pub open spec fn files_view(fs: Seq<(String, String)>) -> Seq<(Seq<char>, Seq<char>)>
    decreases fs.len(),
{
    if fs.len() == 0 {
        Seq::empty()
    } else {
        files_view(fs.drop_last()).push((fs.last().0@, fs.last().1@))
    }
}

proof fn lemma_day_counts(es: Seq<Entry>, ks: Seq<(String, String)>)
    requires
        es.len() <= usize::MAX,
    ensures
        day_counts(es, ks).len() == ks.len(),
        forall|i: int| 0 <= i < ks.len() ==> #[trigger] day_counts(es, ks)[i].1 <= es.len(),
        day_sum(day_counts(es, ks), ks.len() as int) <= ks.len() * es.len(),
    decreases ks.len(),
{
    if ks.len() > 0 {
        let prev = ks.drop_last();
        lemma_day_counts(es, prev);
        crate::site::lemma_count_day_bounded(es, es.len() as int, ks.last().0@);
        let dc = day_counts(es, ks);
        assert forall|i: int| 0 <= i < ks.len() implies #[trigger] dc[i].1 <= es.len() by {
            if i < prev.len() {
                assert(dc[i] == day_counts(es, prev)[i]);
            }
        }
        assert(dc.drop_last() =~= day_counts(es, prev));
        lemma_day_sum_prefix(dc, day_counts(es, prev), prev.len() as int);
        let n = es.len() as int;
        let m = prev.len() as int;
        assert((m + 1) * n == m * n + n) by (nonlinear_arith);
    }
}

proof fn lemma_day_sum_prefix(a: Seq<(Seq<char>, usize)>, b: Seq<(Seq<char>, usize)>, k: int)
    requires
        0 <= k <= a.len(),
        k <= b.len(),
        forall|i: int| 0 <= i < k ==> a[i] == b[i],
    ensures
        day_sum(a, k) == day_sum(b, k),
    decreases k,
{
    if k > 0 {
        lemma_day_sum_prefix(a, b, k - 1);
    }
}

fn detail_files_of(entries: &[Entry], today: &str, built: &str, count: &str, version: &str) -> (files: Vec<(String, String)>)
    ensures
        files_view(files@) == detail_files(entries@, today@, built@, count@, version@, entries@.len() as int),
{
    let ghost es = entries@;
    let n = entries.len();
    let mut files: Vec<(String, String)> = Vec::new();
    let mut i: usize = 0;
    assert(files@ =~= Seq::<(String, String)>::empty());
    while i < n
        invariant
            es == entries@,
            n == es.len(),
            i <= n,
            files_view(files@) == detail_files(es, today@, built@, count@, version@, i as int),
        decreases n - i,
    {
        let page = detail_page(entries, i, today, built, count, version);
        let mut path = String::from_str("pages/");
        append_str(&mut path, entries[i].stem.as_str());
        append_str(&mut path, ".html");
        push_file(&mut files, path.as_str(), page);
        i += 1;
    }
    files
}

proof fn lemma_index_ready(es: Seq<Entry>, days: Seq<(String, String)>, today: Seq<char>, t: Tally)
    requires
        es.len() <= usize::MAX,
        es.len() * 27 <= usize::MAX,
        es.len() * days.len() <= usize::MAX,
        t == tally_spec(es, today),
    ensures
        index_ok(es),
        seg_total(tally_segs(t)) <= usize::MAX,
        activity_fits(day_counts(es, days)),
{
    let n = es.len();
    lemma_day_counts(es, days);
    let dc = day_counts(es, days);
    assert forall|j: int| 0 <= j < dc.len() implies #[trigger] dc[j].1 * 27 <= usize::MAX by {
        assert(dc[j].1 <= es.len());
        assert(dc[j].1 * 27 <= es.len() * 27) by (nonlinear_arith)
            requires
                dc[j].1 <= es.len(),
        ;
    }
    assert(days.len() * es.len() == es.len() * days.len()) by (nonlinear_arith);
    assert(seg_total(tally_segs(t)) <= 6 * es.len()) by {
        crate::site::lemma_counts_bounded(es, n as int, today, "inbox"@);
        crate::site::lemma_counts_bounded(es, n as int, today, "ideas"@);
        crate::site::lemma_counts_bounded(es, n as int, today, "notes"@);
        crate::site::lemma_counts_bounded(es, n as int, today, "archive"@);
        reveal_with_fuel(crate::render::seg_sum, 7);
    }
    let open_all = filter_open(es, n as int);
    let k = open_shown(open_all.len());
    lemma_filter_open_in(es, n as int);
    lemma_recent_in(es);
    let rec = recent_spec(es);
    assert forall|j: int| 0 <= j < rec.len() implies #[trigger] rec[j] < es.len() by {
        assert(rec[j] < es.len());
    }
    assert forall|j: int| 0 <= j < open_all.take(k as int).len() implies #[trigger] open_all.take(
        k as int,
    )[j] < es.len() by {
        assert(open_all.take(k as int)[j] == open_all[j]);
        assert(open_all[j] < es.len());
    }
}

fn list_files_of(
    files: &mut Vec<(String, String)>,
    entries: &[Entry],
    open: &Vec<usize>,
    done: &Vec<usize>,
    names: &Vec<String>,
    days: &[(String, String)],
    arcs: &str,
    ticks: &str,
    today: &str,
    built: &str,
    count: &str,
    version: &str,
)
    requires
        entries@.len() <= usize::MAX,
        rows_ok(entries@, open@),
        rows_ok(entries@, done@),
        entries@.len() * 27 <= usize::MAX,
        entries@.len() * days@.len() <= usize::MAX,
    ensures
        files_view(final(files)@) == files_view(old(files)@) + list_files(
            entries@,
            open@,
            done@,
            names.deep_view(),
            days@,
            arcs@,
            ticks@,
            today@,
            built@,
            count@,
            version@,
        ),
{
    let ghost es = entries@;
    let ghost start = files_view(files@);
    proof {
        lemma_folder_rows_ok(es, "inbox"@);
        lemma_folder_rows_ok(es, "ideas"@);
        lemma_folder_rows_ok(es, "notes"@);
    }
    let sj = search_json(entries);
    push_file(files, "search.json", sj);
    let tp = tags_page(entries, names, today, built, count, version);
    push_file(files, "tags.html", tp);
    let ib = folder_page(entries, "inbox", "收件箱", "INBOX", "INBOX", today, built, count, version);
    push_file(files, "inbox.html", ib);
    let td = todo_page(entries, open, done, today, built, count, version);
    push_file(files, "todo.html", td);
    let id = folder_page(entries, "ideas", "想法", "IDEAS", "IDEAS", today, built, count, version);
    push_file(files, "ideas.html", id);
    let nt = folder_page(entries, "notes", "笔记", "NOTES", "NOTES", today, built, count, version);
    push_file(files, "notes.html", nt);
    let t = tally(entries, today);
    let segs = segments(&t);
    let counted = capture_days(entries, days);
    proof {
        lemma_index_ready(es, days@, today@, t);
    }
    let ix = index_page(
        entries,
        segs.as_slice(),
        t.overdue,
        counted.as_slice(),
        arcs,
        ticks,
        today,
        built,
        count,
        version,
    );
    push_file(files, "index.html", ix);
    proof {
        assert(files_view(files@) =~= start + list_files(
            es,
            open@,
            done@,
            names.deep_view(),
            days@,
            arcs@,
            ticks@,
            today@,
            built@,
            count@,
            version@,
        ));
    }
}

/// Every file of the dashboard (see `site_files`). `days` are
/// the last days as `(YYYYMMDD, MM-DD)`, oldest first; `arcs` and `ticks`
/// the caller's drawing of the ring's arcs and the scale's ticks.
pub fn build_site(
    entries: &[Entry],
    days: &[(String, String)],
    arcs: &str,
    ticks: &str,
    today: &str,
    built: &str,
    version: &str,
) -> (fs: Vec<(String, String)>)
    requires
        entries@.len() * 27 <= usize::MAX,
        entries@.len() * days@.len() <= usize::MAX,
        tags_given(entries@, entries@.len() as int) <= usize::MAX,
    ensures
        exists|
            open: Seq<usize>,
            done: Seq<usize>,
            names: Seq<Seq<char>>,
            p: Seq<int>,
            q: Seq<int>,
        |
            {
                &&& stable_by_due(entries@, filter_open(entries@, entries@.len() as int), open, p)
                &&& stable_newest(entries@, filter_done(entries@, entries@.len() as int), done, q)
                &&& tag_order(entries@, names)
                &&& files_view(fs@) == site_files(
                    entries@,
                    open,
                    done,
                    names,
                    days@,
                    arcs@,
                    ticks@,
                    today@,
                    built@,
                    version@,
                )
            },
{
    let ghost es = entries@;
    let count = count_line(entries.len());
    let mut files = detail_files_of(entries, today, built, count.as_str(), version);
    let open_sel = open_todos(entries);
    let done_sel = done_todos(entries);
    let open = sort_by_due(entries, &open_sel);
    let done = sort_newest(entries, &done_sel);
    let names = tag_names(entries);
    proof {
        assert forall|j: int| 0 <= j < open@.len() implies #[trigger] open@[j] < es.len() by {
            assert(open@[j] < es.len());
        }
        assert forall|j: int| 0 <= j < done@.len() implies #[trigger] done@[j] < es.len() by {
            assert(done@[j] < es.len());
        }
    }
    list_files_of(&mut files, entries, &open, &done, &names, days, arcs, ticks, today, built, count.as_str(), version);
    proof {
        let p = choose|p: Seq<int>| stable_by_due(es, filter_open(es, es.len() as int), open@, p);
        let q = choose|q: Seq<int>| stable_newest(es, filter_done(es, es.len() as int), done@, q);
        assert(stable_by_due(es, filter_open(es, es.len() as int), open@, p));
        assert(stable_newest(es, filter_done(es, es.len() as int), done@, q));
        assert(tag_order(es, names.deep_view()));
    }
    files
}

fn push_file(files: &mut Vec<(String, String)>, path: &str, content: String)
    ensures
        files_view(final(files)@) == files_view(old(files)@).push((path@, content@)),
{
    let ghost before = files@;
    files.push((path.to_owned(), content));
    assert(files@.drop_last() =~= before);
}

proof fn lemma_folder_rows_ok(es: Seq<Entry>, d: Seq<char>)
    requires
        es.len() <= usize::MAX,
    ensures
        rows_ok(es, crate::lists::filter_dir(es, es.len() as int, d)),
{
    crate::lists::lemma_filter_dir_in(es, es.len() as int, d);
    let f = crate::lists::filter_dir(es, es.len() as int, d);
    assert forall|j: int| 0 <= j < f.len() implies #[trigger] f[j] < es.len() by {
        assert(f[j] < es.len());
    }
}

} // verus!

//! The pages of one entry and the search index: a detail page per entry,
//! with its dossier, document and neighbours, and `search.json`.
use vstd::prelude::*;
use crate::dates::{fmt_created, fmt_created_spec};
use crate::entry::Entry;
use crate::escape::{esc, esc_spec, json_escape, json_escape_spec};
use crate::frontmatter::opt_view;
use crate::render::{
    action, action_spec, band, band_spec, entry_row, entry_row_spec, render, render_spec,
    root_of, root_of_spec, stage, stage_spec, tag_link, Page,
};
use crate::text::{append_str, decimal, eq_str, fmt_usize};

verus! {

// ------------------------------------------------------------------ markdown

/// What `comrak::markdown_to_html` makes of `body` with the table,
/// strikethrough and autolink extensions on.
pub uninterp spec fn markdown_html(body: Seq<char>) -> Seq<char>;

/// Calls `comrak::markdown_to_html` with the table, strikethrough and
/// autolink extensions on (other options at their defaults). The contract
/// only names the result: the same text gives the same HTML.
#[verifier::external_body]
fn render_md(body: &str) -> (r: String)
    ensures
        r@ == markdown_html(body@),
{
    let mut opts = comrak::Options::default();
    opts.extension.table = true;
    opts.extension.strikethrough = true;
    opts.extension.autolink = true;
    comrak::markdown_to_html(body, &opts)
}

// ------------------------------------------------------------------ shared parts

/// The header's entry count.
pub open spec fn count_line_spec(total: nat) -> Seq<char> {
    "<b class=\"num\">"@ + decimal(total) + "</b> <span class=\"en\">ENTRIES</span> 条"@
}

/// The header's entry count.
pub fn count_line(total: usize) -> (r: String)
    ensures
        r@ == count_line_spec(total as nat),
{
    let mut r = String::from_str("<b class=\"num\">");
    append_str(&mut r, fmt_usize(total).as_str());
    append_str(&mut r, "</b> <span class=\"en\">ENTRIES</span> 条");
    r
}

/// The rows of the entries at `idx[0..k]`, one per line.
pub open spec fn rows_join(es: Seq<Entry>, idx: Seq<usize>, root: Seq<char>, today: Seq<char>, k: int) -> Seq<
    char,
>
    decreases k,
{
    if k <= 0 {
        Seq::empty()
    } else if k == 1 {
        entry_row_spec(es[idx[0] as int], root, true, today)
    } else {
        rows_join(es, idx, root, today, k - 1) + "\n"@ + entry_row_spec(
            es[idx[k - 1] as int],
            root,
            true,
            today,
        )
    }
}

/// The listed entries exist: every index is in range.
pub open spec fn rows_ok(es: Seq<Entry>, idx: Seq<usize>) -> bool {
    forall|i: int| 0 <= i < idx.len() ==> #[trigger] idx[i] < es.len()
}

/// The rows of the listed entries, one per line.
pub fn rows_html(entries: &[Entry], idx: &[usize], root: &str, today: &str) -> (r: String)
    requires
        rows_ok(entries@, idx@),
    ensures
        r@ == rows_join(entries@, idx@, root@, today@, idx@.len() as int),
{
    let mut r = String::new();
    let mut i: usize = 0;
    while i < idx.len()
        invariant
            i <= idx@.len(),
            rows_ok(entries@, idx@),
            r@ == rows_join(entries@, idx@, root@, today@, i as int),
        decreases idx@.len() - i,
    {
        assert(idx@[i as int] < entries@.len());
        let row = entry_row(&entries[idx[i]], root, true, today);
        if i == 0 {
            r = row;
        } else {
            append_str(&mut r, "\n");
            append_str(&mut r, row.as_str());
        }
        i += 1;
    }
    r
}

/// A list of rows, folded after eight when it is longer.
pub open spec fn fold_list(rows: Seq<char>, n: nat) -> Seq<char> {
    if n > 8 {
        "<div class=\"foldwrap\"><ul class=\"rows\" data-fold=\"8\">"@ + rows
            + "</ul><button class=\"act foldbtn\" type=\"button\">展开全部 <span class=\"en\">SHOW ALL (+"@
            + decimal((n - 8) as nat) + ")</span></button></div>"@
    } else {
        "<ul class=\"rows\">"@ + rows + "</ul>"@
    }
}

/// A list of rows, folded after eight when it is longer.
pub fn fold_rows(rows: &str, n: usize) -> (r: String)
    ensures
        r@ == fold_list(rows@, n as nat),
{
    if n > 8 {
        let mut r = String::from_str("<div class=\"foldwrap\"><ul class=\"rows\" data-fold=\"8\">");
        append_str(&mut r, rows);
        append_str(
            &mut r,
            "</ul><button class=\"act foldbtn\" type=\"button\">展开全部 <span class=\"en\">SHOW ALL (+",
        );
        append_str(&mut r, fmt_usize(n - 8).as_str());
        append_str(&mut r, ")</span></button></div>");
        r
    } else {
        let mut r = String::from_str("<ul class=\"rows\">");
        append_str(&mut r, rows);
        append_str(&mut r, "</ul>");
        r
    }
}

// ------------------------------------------------------------------ detail page

/// The status a todo shows; a missing status reads as `open`.
pub open spec fn status_or_open(e: Entry) -> Seq<char> {
    match opt_view(e.fm.status) {
        Some(s) => s,
        None => "open"@,
    }
}

fn status_shown(e: &Entry) -> (r: &str)
    ensures
        r@ == status_or_open(*e),
{
    match &e.fm.status {
        Some(s) => s.as_str(),
        None => "open",
    }
}

/// Tag links separated by spaces.
pub open spec fn tag_links_spaced(root: Seq<char>, ts: Seq<Seq<char>>, k: int) -> Seq<char>
    decreases k,
{
    if k <= 0 {
        Seq::empty()
    } else if k == 1 {
        tag_link(root, ts[0])
    } else {
        tag_links_spaced(root, ts, k - 1) + " "@ + tag_link(root, ts[k - 1])
    }
}

fn tag_links_spaced_of(tags: &Vec<String>, root: &str) -> (r: String)
    ensures
        r@ == tag_links_spaced(root@, tags.deep_view(), tags@.len() as int),
{
    let mut out = String::new();
    let mut i: usize = 0;
    while i < tags.len()
        invariant
            i <= tags@.len(),
            out@ == tag_links_spaced(root@, tags.deep_view(), i as int),
        decreases tags@.len() - i,
    {
        let t = esc(tags[i].as_str());
        let mut it = String::from_str("<a class=\"tag\" href=\"");
        append_str(&mut it, root);
        append_str(&mut it, "tags.html#");
        append_str(&mut it, t.as_str());
        append_str(&mut it, "\">");
        append_str(&mut it, t.as_str());
        append_str(&mut it, "</a>");
        if i == 0 {
            out = it;
        } else {
            append_str(&mut out, " ");
            append_str(&mut out, it.as_str());
        }
        i += 1;
    }
    out
}

/// A line of the dossier.
pub open spec fn field(label: Seq<char>, value: Seq<char>) -> Seq<char> {
    "<div><span>"@ + label + "</span><b>"@ + value + "</b></div>"@
}

fn field_line(label: &str, value: &str) -> (r: String)
    ensures
        r@ == field(label@, value@),
{
    let mut r = String::from_str("<div><span>");
    append_str(&mut r, label);
    append_str(&mut r, "</span><b>");
    append_str(&mut r, value);
    append_str(&mut r, "</b></div>");
    r
}

/// The dossier of an entry: type, folder, created, and for todos the
/// status; the due and done dates and the tags where there are any.
pub open spec fn dossier(e: Entry, root: Seq<char>) -> Seq<char> {
    field("类型 <span class=\"en\">TYPE</span>"@, esc_spec(e.fm.type_@)) + field(
        "目录 <span class=\"en\">FOLDER</span>"@,
        esc_spec(e.dir@),
    ) + field("创建 <span class=\"en\">CREATED</span>"@, esc_spec(fmt_created_spec(e.fm.created@)))
        + (if e.fm.type_@ == "todo"@ {
        field("状态 <span class=\"en\">STATUS</span>"@, esc_spec(status_or_open(e)))
    } else {
        Seq::empty()
    }) + (match opt_view(e.fm.due) {
        Some(d) => field("截止 <span class=\"en\">DUE</span>"@, esc_spec(d)),
        None => Seq::empty(),
    }) + (match opt_view(e.fm.done) {
        Some(d) => field("完成 <span class=\"en\">DONE</span>"@, esc_spec(d)),
        None => Seq::empty(),
    }) + (if e.fm.tags.len() > 0 {
        field(
            "标签 <span class=\"en\">TAGS</span>"@,
            tag_links_spaced(root, e.fm.tags.deep_view(), e.fm.tags.len() as int),
        )
    } else {
        Seq::empty()
    })
}

fn dossier_html(e: &Entry, root: &str) -> (r: String)
    ensures
        r@ == dossier(*e, root@),
{
    let mut r = field_line("类型 <span class=\"en\">TYPE</span>", esc(e.fm.type_.as_str()).as_str());
    append_str(&mut r, field_line("目录 <span class=\"en\">FOLDER</span>", esc(e.dir.as_str()).as_str()).as_str());
    append_str(
        &mut r,
        field_line(
            "创建 <span class=\"en\">CREATED</span>",
            esc(fmt_created(e.fm.created.as_str()).as_str()).as_str(),
        ).as_str(),
    );
    if eq_str(e.fm.type_.as_str(), "todo") {
        append_str(&mut r, field_line("状态 <span class=\"en\">STATUS</span>", esc(status_shown(e)).as_str()).as_str());
    } else {
        assert(r@ + Seq::<char>::empty() =~= r@);
    }
    match &e.fm.due {
        Some(d) => append_str(&mut r, field_line("截止 <span class=\"en\">DUE</span>", esc(d.as_str()).as_str()).as_str()),
        None => assert(r@ + Seq::<char>::empty() =~= r@),
    }
    match &e.fm.done {
        Some(d) => append_str(&mut r, field_line("完成 <span class=\"en\">DONE</span>", esc(d.as_str()).as_str()).as_str()),
        None => assert(r@ + Seq::<char>::empty() =~= r@),
    }
    if e.fm.tags.len() > 0 {
        append_str(
            &mut r,
            field_line("标签 <span class=\"en\">TAGS</span>", tag_links_spaced_of(&e.fm.tags, root).as_str()).as_str(),
        );
    } else {
        assert(r@ + Seq::<char>::empty() =~= r@);
    }
    r
}

/// Link from a detail page to another entry's detail page.
pub open spec fn page_href(root: Seq<char>, e: Entry) -> Seq<char> {
    root + "pages/"@ + esc_spec(e.stem@) + ".html"@
}

fn page_href_of(root: &str, e: &Entry) -> (r: String)
    ensures
        r@ == page_href(root@, *e),
{
    let mut r = root.to_owned();
    append_str(&mut r, "pages/");
    append_str(&mut r, esc(e.stem.as_str()).as_str());
    append_str(&mut r, ".html");
    r
}

/// Where the back link of a detail page goes: the folder's page, or the
/// index for archived entries (the archive has no page of its own).
pub open spec fn back_href(root: Seq<char>, e: Entry) -> Seq<char> {
    if e.dir@ == "archive"@ {
        root + "index.html"@
    } else {
        root + esc_spec(e.dir@) + ".html"@
    }
}

/// The stage actions of entry `i`: back, and the newer and older neighbours.
pub open spec fn detail_actions(es: Seq<Entry>, i: int, root: Seq<char>) -> Seq<char> {
    action_spec(back_href(root, es[i]), "← 返回 <span class=\"en\">BACK</span>"@, "is-on-stage"@) + (if i
        > 0 {
        action_spec(
            page_href(root, es[i - 1]),
            "← 更新一条 <span class=\"en\">NEWER</span>"@,
            "is-on-stage"@,
        )
    } else {
        Seq::empty()
    }) + (if i + 1 < es.len() {
        action_spec(
            page_href(root, es[i + 1]),
            "更早一条 <span class=\"en\">OLDER</span> →"@,
            "is-on-stage"@,
        )
    } else {
        Seq::empty()
    })
}

/// The rows of the neighbours of entry `i` (newer first).
pub open spec fn detail_neighbours(es: Seq<Entry>, i: int, root: Seq<char>, today: Seq<char>) -> Seq<
    char,
> {
    (if i > 0 {
        entry_row_spec(es[i - 1], root, true, today)
    } else {
        Seq::empty()
    }) + (if i + 1 < es.len() {
        entry_row_spec(es[i + 1], root, true, today)
    } else {
        Seq::empty()
    })
}

/// The stage meta line of a detail page.
pub open spec fn detail_meta(e: Entry) -> Seq<char> {
    "<span>创建</span> <span class=\"en\">CREATED</span> <b>"@ + esc_spec(fmt_created_spec(e.fm.created@))
        + "</b>"@ + (if e.fm.type_@ == "todo"@ {
        " · <span>状态</span> <span class=\"en\">STATUS</span> <b>"@ + esc_spec(status_or_open(e))
            + "</b>"@ + match opt_view(e.fm.due) {
            Some(d) => " · <span>截止</span> <span class=\"en\">DUE</span> <b>"@ + esc_spec(d)
                + "</b>"@,
            None => Seq::empty(),
        }
    } else {
        Seq::empty()
    })
}

/// The detail page of entry `i`: stage with type and folder, title, meta
/// line and actions; the dossier; the rendered document; the neighbours.
#[verifier::opaque]
pub open spec fn detail_page_spec(
    es: Seq<Entry>,
    i: int,
    today: Seq<char>,
    built: Seq<char>,
    count: Seq<char>,
    version: Seq<char>,
) -> Seq<char> {
    let e = es[i];
    let root = root_of_spec(""@);
    let adj = detail_neighbours(es, i, root, today);
    let st = stage_spec(
        "<span class=\"en\">"@ + esc_spec(e.fm.type_@) + " / "@ + esc_spec(e.dir@) + "</span>"@,
        esc_spec(e.fm.title@),
        detail_meta(e),
        ""@,
        detail_actions(es, i, root),
        ""@,
    );
    let body = "<div class=\"dossier\">"@ + dossier(e, root) + "</div>"@ + band_spec(
        ""@,
        "01 / DOCUMENT"@,
        "正文"@,
        ""@,
        "<div class=\"doc\">"@ + markdown_html(e.body@) + "</div>"@,
        "reveal reveal-2"@,
    ) + (if adj.len() == 0 {
        Seq::empty()
    } else {
        band_spec(
            ""@,
            "02 / CHRONOLOGY"@,
            "邻接条目"@,
            "按创建时间"@,
            "<ul class=\"rows\">"@ + adj + "</ul>"@,
            "reveal reveal-3"@,
        )
    });
    render_spec(e.fm.title@, ""@, st, body, built, count, version)
}

fn detail_meta_html(e: &Entry) -> (r: String)
    ensures
        r@ == detail_meta(*e),
{
    let mut r = String::from_str("<span>创建</span> <span class=\"en\">CREATED</span> <b>");
    append_str(&mut r, esc(fmt_created(e.fm.created.as_str()).as_str()).as_str());
    append_str(&mut r, "</b>");
    if eq_str(e.fm.type_.as_str(), "todo") {
        let mut m = String::from_str(" · <span>状态</span> <span class=\"en\">STATUS</span> <b>");
        append_str(&mut m, esc(status_shown(e)).as_str());
        append_str(&mut m, "</b>");
        match &e.fm.due {
            Some(d) => {
                let mut x = String::from_str(" · <span>截止</span> <span class=\"en\">DUE</span> <b>");
                append_str(&mut x, esc(d.as_str()).as_str());
                append_str(&mut x, "</b>");
                append_str(&mut m, x.as_str());
            },
            None => assert(m@ + Seq::<char>::empty() =~= m@),
        }
        append_str(&mut r, m.as_str());
    } else {
        assert(r@ + Seq::<char>::empty() =~= r@);
    }
    r
}

fn detail_actions_html(entries: &[Entry], i: usize, root: &str) -> (r: String)
    requires
        i < entries@.len(),
    ensures
        r@ == detail_actions(entries@, i as int, root@),
{
    let e = &entries[i];
    let back = if eq_str(e.dir.as_str(), "archive") {
        let mut b = root.to_owned();
        append_str(&mut b, "index.html");
        b
    } else {
        let mut b = root.to_owned();
        append_str(&mut b, esc(e.dir.as_str()).as_str());
        append_str(&mut b, ".html");
        b
    };
    let mut r = action(back.as_str(), "← 返回 <span class=\"en\">BACK</span>", "is-on-stage");
    if i > 0 {
        let href = page_href_of(root, &entries[i - 1]);
        append_str(&mut r, action(href.as_str(), "← 更新一条 <span class=\"en\">NEWER</span>", "is-on-stage").as_str());
    } else {
        assert(r@ + Seq::<char>::empty() =~= r@);
    }
    if i + 1 < entries.len() {
        let href = page_href_of(root, &entries[i + 1]);
        append_str(&mut r, action(href.as_str(), "更早一条 <span class=\"en\">OLDER</span> →", "is-on-stage").as_str());
    } else {
        assert(r@ + Seq::<char>::empty() =~= r@);
    }
    r
}

fn detail_neighbours_html(entries: &[Entry], i: usize, root: &str, today: &str) -> (r: String)
    requires
        i < entries@.len(),
    ensures
        r@ == detail_neighbours(entries@, i as int, root@, today@),
{
    let mut r = if i > 0 {
        entry_row(&entries[i - 1], root, true, today)
    } else {
        String::new()
    };
    if i + 1 < entries.len() {
        append_str(&mut r, entry_row(&entries[i + 1], root, true, today).as_str());
    } else {
        assert(r@ + Seq::<char>::empty() =~= r@);
    }
    r
}

/// The detail page of entry `i` (see `detail_page_spec`).
pub fn detail_page(
    entries: &[Entry],
    i: usize,
    today: &str,
    built: &str,
    count: &str,
    version: &str,
) -> (r: String)
    requires
        i < entries@.len(),
    ensures
        r@ == detail_page_spec(entries@, i as int, today@, built@, count@, version@),
{
    proof {
        reveal(detail_page_spec);
    }
    let e = &entries[i];
    let root = root_of("");
    let adj = detail_neighbours_html(entries, i, root, today);
    let actions = detail_actions_html(entries, i, root);
    let meta = detail_meta_html(e);
    let mut kick = String::from_str("<span class=\"en\">");
    append_str(&mut kick, esc(e.fm.type_.as_str()).as_str());
    append_str(&mut kick, " / ");
    append_str(&mut kick, esc(e.dir.as_str()).as_str());
    append_str(&mut kick, "</span>");
    let st = stage(kick.as_str(), esc(e.fm.title.as_str()).as_str(), meta.as_str(), "", actions.as_str(), "");
    let mut doc = String::from_str("<div class=\"doc\">");
    append_str(&mut doc, render_md(e.body.as_str()).as_str());
    append_str(&mut doc, "</div>");
    let mut body = String::from_str("<div class=\"dossier\">");
    append_str(&mut body, dossier_html(e, root).as_str());
    append_str(&mut body, "</div>");
    append_str(&mut body, band("", "01 / DOCUMENT", "正文", "", doc.as_str(), "reveal reveal-2").as_str());
    if adj.as_str().is_empty() {
        assert(body@ + Seq::<char>::empty() =~= body@);
    } else {
        let mut list = String::from_str("<ul class=\"rows\">");
        append_str(&mut list, adj.as_str());
        append_str(&mut list, "</ul>");
        append_str(
            &mut body,
            band("", "02 / CHRONOLOGY", "邻接条目", "按创建时间", list.as_str(), "reveal reveal-3").as_str(),
        );
    }
    let page = Page::new(e.fm.title.as_str(), "").stage(st).body(body);
    render(&page, built, count, version)
}

// ------------------------------------------------------------------ search index

/// A JSON string literal.
pub open spec fn json_str(s: Seq<char>) -> Seq<char> {
    "\""@ + json_escape_spec(s) + "\""@
}

/// The tags of an entry as JSON strings separated by commas.
pub open spec fn json_tags(ts: Seq<Seq<char>>, k: int) -> Seq<char>
    decreases k,
{
    if k <= 0 {
        Seq::empty()
    } else if k == 1 {
        json_str(ts[0])
    } else {
        json_tags(ts, k - 1) + ","@ + json_str(ts[k - 1])
    }
}

/// One entry of the search index.
pub open spec fn search_item(e: Entry) -> Seq<char> {
    "{\"stem\":\""@ + json_escape_spec(e.stem@) + "\",\"dir\":\""@ + json_escape_spec(e.dir@)
        + "\",\"title\":\""@ + json_escape_spec(e.fm.title@) + "\",\"tags\":["@ + json_tags(
        e.fm.tags.deep_view(),
        e.fm.tags.len() as int,
    ) + "],\"created\":\""@ + json_escape_spec(e.fm.created@) + "\",\"body\":\""@
        + json_escape_spec(e.body@) + "\"}"@
}

/// The first `k` index entries separated by commas.
pub open spec fn search_items(es: Seq<Entry>, k: int) -> Seq<char>
    decreases k,
{
    if k <= 0 {
        Seq::empty()
    } else if k == 1 {
        search_item(es[0])
    } else {
        search_items(es, k - 1) + ","@ + search_item(es[k - 1])
    }
}

/// `search.json`: every entry with its file name, folder, title, tags,
/// created stamp and body, all JSON-escaped.
#[verifier::opaque]
pub open spec fn search_json_spec(es: Seq<Entry>) -> Seq<char> {
    "{\"entries\":["@ + search_items(es, es.len() as int) + "]}"@
}

fn json_str_of(s: &str) -> (r: String)
    ensures
        r@ == json_str(s@),
{
    let mut r = String::from_str("\"");
    append_str(&mut r, json_escape(s).as_str());
    append_str(&mut r, "\"");
    r
}

fn search_item_of(e: &Entry) -> (r: String)
    ensures
        r@ == search_item(*e),
{
    let mut tags = String::new();
    let mut i: usize = 0;
    while i < e.fm.tags.len()
        invariant
            i <= e.fm.tags@.len(),
            tags@ == json_tags(e.fm.tags.deep_view(), i as int),
        decreases e.fm.tags@.len() - i,
    {
        let t = json_str_of(e.fm.tags[i].as_str());
        if i == 0 {
            tags = t;
        } else {
            append_str(&mut tags, ",");
            append_str(&mut tags, t.as_str());
        }
        i += 1;
    }
    let mut r = String::from_str("{\"stem\":\"");
    append_str(&mut r, json_escape(e.stem.as_str()).as_str());
    append_str(&mut r, "\",\"dir\":\"");
    append_str(&mut r, json_escape(e.dir.as_str()).as_str());
    append_str(&mut r, "\",\"title\":\"");
    append_str(&mut r, json_escape(e.fm.title.as_str()).as_str());
    append_str(&mut r, "\",\"tags\":[");
    append_str(&mut r, tags.as_str());
    append_str(&mut r, "],\"created\":\"");
    append_str(&mut r, json_escape(e.fm.created.as_str()).as_str());
    append_str(&mut r, "\",\"body\":\"");
    append_str(&mut r, json_escape(e.body.as_str()).as_str());
    append_str(&mut r, "\"}");
    r
}

/// `search.json` (see `search_json_spec`).
pub fn search_json(entries: &[Entry]) -> (r: String)
    ensures
        r@ == search_json_spec(entries@),
{
    proof {
        reveal(search_json_spec);
    }
    let mut items = String::new();
    let mut i: usize = 0;
    while i < entries.len()
        invariant
            i <= entries@.len(),
            items@ == search_items(entries@, i as int),
        decreases entries@.len() - i,
    {
        let it = search_item_of(&entries[i]);
        if i == 0 {
            items = it;
        } else {
            append_str(&mut items, ",");
            append_str(&mut items, it.as_str());
        }
        i += 1;
    }
    let mut r = String::from_str("{\"entries\":[");
    append_str(&mut r, items.as_str());
    append_str(&mut r, "]}");
    r
}

} // verus!

//! The list pages of the dashboard: the tag index, the folder pages, the
//! todo page and the index page.
use vstd::prelude::*;
use crate::entry::Entry;
use crate::escape::{esc, esc_spec};
use crate::lists::filter_dir;
use crate::pages::{fold_list, fold_rows, rows_html, rows_join, rows_ok};
use crate::render::{
    band,
    band_spec,
    kicker,
    kicker_spec,
    render,
    render_spec,
    stage,
    stage_spec,
    Page,
};
use crate::tags::{occ, tag_members, tag_members_of, tags_of};
use crate::text::{append_str, decimal, fmt_usize};

verus! {

// ------------------------------------------------------------------ tag index

/// `n` with at least two digits.
pub open spec fn pad2(n: nat) -> Seq<char> {
    if n < 10 {
        "0"@ + decimal(n)
    } else {
        decimal(n)
    }
}

fn pad2_of(n: usize) -> (r: String)
    ensures
        r@ == pad2(n as nat),
{
    if n < 10 {
        let mut r = String::from_str("0");
        append_str(&mut r, fmt_usize(n).as_str());
        r
    } else {
        fmt_usize(n)
    }
}

/// The members of tag `t` among all entries.
pub open spec fn members(es: Seq<Entry>, t: Seq<char>) -> Seq<usize> {
    tag_members(es, es.len() as int, t)
}

pub open spec fn chip(es: Seq<Entry>, t: Seq<char>) -> Seq<char> {
    "<li><a class=\"chip\" href=\"#"@ + esc_spec(t) + "\">"@ + esc_spec(t) + "<b>"@ + decimal(
        members(es, t).len(),
    ) + "</b></a></li>"@
}

pub open spec fn chips(es: Seq<Entry>, names: Seq<Seq<char>>, k: int) -> Seq<char>
    decreases k,
{
    if k <= 0 {
        Seq::empty()
    } else {
        chips(es, names, k - 1) + chip(es, names[k - 1])
    }
}

/// The band of the `k`-th tag (from 0): anchor, number, name, count and rows.
pub open spec fn tag_band(es: Seq<Entry>, t: Seq<char>, k: int, today: Seq<char>) -> Seq<char> {
    let m = members(es, t);
    band_spec(
        esc_spec(t),
        pad2((k + 1) as nat) + " / TAG"@,
        "#"@ + esc_spec(t),
        "<b>"@ + decimal(m.len()) + "</b> 条"@,
        "<ul class=\"rows\">"@ + rows_join(es, m, ""@, today, m.len() as int) + "</ul>"@,
        ""@,
    )
}

pub open spec fn tag_bands(es: Seq<Entry>, names: Seq<Seq<char>>, k: int, today: Seq<char>) -> Seq<char>
    decreases k,
{
    if k <= 0 {
        Seq::empty()
    } else {
        tag_bands(es, names, k - 1, today) + tag_band(es, names[k - 1], k - 1, today)
    }
}

/// The bands of the tag page: the chip index and one band per tag, or a
/// hint when the vault has no tags.
pub open spec fn tags_body(es: Seq<Entry>, names: Seq<Seq<char>>, today: Seq<char>) -> Seq<char> {
    if names.len() == 0 {
        band_spec(
            ""@,
            "00 / INDEX"@,
            "标签索引"@,
            ""@,
            "<p class=\"empty\">还没有标签。给条目打标签：mind new &lt;type&gt; \"标题\" --tags \"a,b\"</p>"@,
            "reveal reveal-2"@,
        )
    } else {
        band_spec(
            ""@,
            "00 / INDEX"@,
            "标签索引"@,
            decimal(names.len()) + " 个标签 / TAGS"@,
            "<ul class=\"chips\">"@ + chips(es, names, names.len() as int) + "</ul>"@,
            "reveal reveal-2"@,
        ) + tag_bands(es, names, names.len() as int, today)
    }
}

/// The tag page, with the tags listed in the order `names`.
#[verifier::opaque]
pub open spec fn tags_page_spec(
    es: Seq<Entry>,
    names: Seq<Seq<char>>,
    today: Seq<char>,
    built: Seq<char>,
    count: Seq<char>,
    version: Seq<char>,
) -> Seq<char> {
    render_spec(
        "tags"@,
        "tags"@,
        stage_spec(
            kicker_spec("档案索引"@, "ARCHIVE INDEX"@),
            "TAGS"@,
            "<b>"@ + decimal(names.len()) + "</b> 个标签 · <b>"@ + decimal(es.len()) + "</b> 条目"@,
            ""@,
            ""@,
            "reveal"@,
        ),
        "<div class=\"bands\">"@ + tags_body(es, names, today) + "</div>"@,
        built,
        count,
        version,
    )
}

proof fn lemma_members_tagged(es: Seq<Entry>, k: int, t: Seq<char>)
    requires
        0 <= k <= es.len(),
        es.len() <= usize::MAX,
    ensures
        forall|i: int|
            0 <= i < tag_members(es, k, t).len() ==> #[trigger] tag_members(es, k, t)[i] < k && occ(
                tags_of(es[tag_members(es, k, t)[i] as int]),
                t,
            ) > 0,
    decreases k,
{
    if k > 0 {
        lemma_members_tagged(es, k - 1, t);
        let prev = tag_members(es, k - 1, t);
        let add = Seq::new(occ(tags_of(es[k - 1]), t), |j: int| (k - 1) as usize);
        assert(tag_members(es, k, t) == prev + add);
        assert forall|i: int| 0 <= i < tag_members(es, k, t).len() implies #[trigger] tag_members(
            es,
            k,
            t,
        )[i] < k && occ(tags_of(es[tag_members(es, k, t)[i] as int]), t) > 0 by {
            if i < prev.len() {
                assert(tag_members(es, k, t)[i] == prev[i]);
            } else {
                assert(tag_members(es, k, t)[i] == add[i - prev.len()]);
                assert(add.len() > 0);
            }
        }
    }
}

proof fn lemma_members_rows_ok(es: Seq<Entry>, t: Seq<char>)
    requires
        es.len() <= usize::MAX,
    ensures
        rows_ok(es, members(es, t)),
{
    lemma_members_tagged(es, es.len() as int, t);
    let m = members(es, t);
    assert forall|i: int| 0 <= i < m.len() implies #[trigger] m[i] < es.len() by {
        assert(m[i] < es.len());
    }
}

fn tag_parts(entries: &[Entry], t: &str, k: usize, today: &str) -> (r: (String, String))
    requires
        k < usize::MAX,
    ensures
        r.0@ == chip(entries@, t@),
        r.1@ == tag_band(entries@, t@, k as int, today@),
{
    let m = tag_members_of(entries, t);
    let len = entries.len();
    proof {
        assert(entries@.len() == len);
        lemma_members_rows_ok(entries@, t@);
    }
    let et = esc(t);
    let mut c = String::from_str("<li><a class=\"chip\" href=\"#");
    append_str(&mut c, et.as_str());
    append_str(&mut c, "\">");
    append_str(&mut c, et.as_str());
    append_str(&mut c, "<b>");
    append_str(&mut c, fmt_usize(m.len()).as_str());
    append_str(&mut c, "</b></a></li>");
    let mut code = pad2_of(k + 1);
    append_str(&mut code, " / TAG");
    let mut title = String::from_str("#");
    append_str(&mut title, et.as_str());
    let mut sub = String::from_str("<b>");
    append_str(&mut sub, fmt_usize(m.len()).as_str());
    append_str(&mut sub, "</b> 条");
    let mut list = String::from_str("<ul class=\"rows\">");
    append_str(&mut list, rows_html(entries, m.as_slice(), "", today).as_str());
    append_str(&mut list, "</ul>");
    let b = band(et.as_str(), code.as_str(), title.as_str(), sub.as_str(), list.as_str(), "");
    (c, b)
}

fn tag_index(entries: &[Entry], names: &Vec<String>, today: &str) -> (r: String)
    requires
        names@.len() > 0,
    ensures
        r@ == tags_body(entries@, names.deep_view(), today@),
{
    let ghost es = entries@;
    let ghost nm = names.deep_view();
    let mut ch = String::new();
    let mut bands = String::new();
    let mut k: usize = 0;
    while k < names.len()
        invariant
            es == entries@,
            nm == names.deep_view(),
            k <= nm.len(),
            ch@ == chips(es, nm, k as int),
            bands@ == tag_bands(es, nm, k as int, today@),
        decreases nm.len() - k,
    {
        let t = names[k].as_str();
        assert(t@ == nm[k as int]);
        let (c, b) = tag_parts(entries, t, k, today);
        append_str(&mut ch, c.as_str());
        append_str(&mut bands, b.as_str());
        k += 1;
    }
    let mut head_sub = fmt_usize(names.len());
    append_str(&mut head_sub, " 个标签 / TAGS");
    let mut chip_list = String::from_str("<ul class=\"chips\">");
    append_str(&mut chip_list, ch.as_str());
    append_str(&mut chip_list, "</ul>");
    let mut b = band("", "00 / INDEX", "标签索引", head_sub.as_str(), chip_list.as_str(), "reveal reveal-2");
    append_str(&mut b, bands.as_str());
    b
}

/// The tag page (see `tags_page_spec`); `names` gives the order of the tags.
pub fn tags_page(
    entries: &[Entry],
    names: &Vec<String>,
    today: &str,
    built: &str,
    count: &str,
    version: &str,
) -> (r: String)
    ensures
        r@ == tags_page_spec(entries@, names.deep_view(), today@, built@, count@, version@),
{
    proof {
        reveal(tags_page_spec);
    }
    let ghost es = entries@;
    let ghost nm = names.deep_view();
    let body = if names.len() == 0 {
        band(
            "",
            "00 / INDEX",
            "标签索引",
            "",
            "<p class=\"empty\">还没有标签。给条目打标签：mind new &lt;type&gt; \"标题\" --tags \"a,b\"</p>",
            "reveal reveal-2",
        )
    } else {
        tag_index(entries, names, today)
    };
    let mut meta = String::from_str("<b>");
    append_str(&mut meta, fmt_usize(names.len()).as_str());
    append_str(&mut meta, "</b> 个标签 · <b>");
    append_str(&mut meta, fmt_usize(entries.len()).as_str());
    append_str(&mut meta, "</b> 条目");
    let st = stage(kicker("档案索引", "ARCHIVE INDEX").as_str(), "TAGS", meta.as_str(), "", "", "reveal");
    let mut wrapped = String::from_str("<div class=\"bands\">");
    append_str(&mut wrapped, body.as_str());
    append_str(&mut wrapped, "</div>");
    let page = Page::new("tags", "tags").stage(st).body(wrapped);
    render(&page, built, count, version)
}

// ------------------------------------------------------------------ folder and todo pages

/// A list of rows, or a hint when it is empty.
pub open spec fn rows_or(es: Seq<Entry>, idx: Seq<usize>, today: Seq<char>, empty: Seq<char>) -> Seq<
    char,
> {
    if idx.len() == 0 {
        empty
    } else {
        "<ul class=\"rows\">"@ + rows_join(es, idx, ""@, today, idx.len() as int) + "</ul>"@
    }
}

fn rows_or_html(entries: &[Entry], idx: &Vec<usize>, today: &str, empty: &str) -> (r: String)
    requires
        rows_ok(entries@, idx@),
    ensures
        r@ == rows_or(entries@, idx@, today@, empty@),
{
    if idx.len() == 0 {
        empty.to_owned()
    } else {
        let mut r = String::from_str("<ul class=\"rows\">");
        append_str(&mut r, rows_html(entries, idx.as_slice(), "", today).as_str());
        append_str(&mut r, "</ul>");
        r
    }
}

/// A folder's page: kicker, identifier, count and the list of its entries.
#[verifier::opaque]
pub open spec fn folder_page_spec(
    es: Seq<Entry>,
    dir: Seq<char>,
    kicker_cjk: Seq<char>,
    kicker_en: Seq<char>,
    ident: Seq<char>,
    today: Seq<char>,
    built: Seq<char>,
    count: Seq<char>,
    version: Seq<char>,
) -> Seq<char> {
    let list = filter_dir(es, es.len() as int, dir);
    let bands = band_spec(
        ""@,
        "01 / LIST"@,
        "全部条目"@,
        "<b>"@ + decimal(list.len()) + "</b> 条"@,
        rows_or(
            es,
            list,
            today,
            "<p class=\"empty\">这里还没有内容。可以这样写入：mind new idea \"标题\"</p>"@,
        ),
        "reveal reveal-2"@,
    );
    render_spec(
        dir,
        dir,
        stage_spec(
            kicker_spec(kicker_cjk, kicker_en),
            ident,
            "<b>"@ + decimal(list.len()) + "</b> 条"@,
            ""@,
            ""@,
            "reveal"@,
        ),
        "<div class=\"bands\">"@ + bands + "</div>"@,
        built,
        count,
        version,
    )
}

/// The page of folder `dir` (see `folder_page_spec`).
pub fn folder_page(
    entries: &[Entry],
    dir: &str,
    kicker_cjk: &str,
    kicker_en: &str,
    ident: &str,
    today: &str,
    built: &str,
    count: &str,
    version: &str,
) -> (r: String)
    requires
        rows_ok(entries@, filter_dir(entries@, entries@.len() as int, dir@)),
    ensures
        r@ == folder_page_spec(
            entries@,
            dir@,
            kicker_cjk@,
            kicker_en@,
            ident@,
            today@,
            built@,
            count@,
            version@,
        ),
{
    proof {
        reveal(folder_page_spec);
    }
    let list = crate::lists::in_folder(entries, dir);
    let mut sub = String::from_str("<b>");
    append_str(&mut sub, fmt_usize(list.len()).as_str());
    append_str(&mut sub, "</b> 条");
    let body = rows_or_html(
        entries,
        &list,
        today,
        "<p class=\"empty\">这里还没有内容。可以这样写入：mind new idea \"标题\"</p>",
    );
    let bands = band("", "01 / LIST", "全部条目", sub.as_str(), body.as_str(), "reveal reveal-2");
    let st = stage(kicker(kicker_cjk, kicker_en).as_str(), ident, sub.as_str(), "", "", "reveal");
    let mut wrapped = String::from_str("<div class=\"bands\">");
    append_str(&mut wrapped, bands.as_str());
    append_str(&mut wrapped, "</div>");
    let page = Page::new(dir, dir).stage(st).body(wrapped);
    render(&page, built, count, version)
}

/// The todo page: the open todos in the order `open`, the done ones in the
/// order `done` (folded after eight; no band when there are none).
#[verifier::opaque]
pub open spec fn todo_page_spec(
    es: Seq<Entry>,
    open: Seq<usize>,
    done: Seq<usize>,
    today: Seq<char>,
    built: Seq<char>,
    count: Seq<char>,
    version: Seq<char>,
) -> Seq<char> {
    let bands = band_spec(
        ""@,
        "01 / OPEN"@,
        "未完成"@,
        "<b>"@ + decimal(open.len()) + "</b> 条 <span class=\"en\">OPEN</span>"@,
        rows_or(es, open, today, "<p class=\"empty\">没有未完成的待办。</p>"@),
        "reveal reveal-2"@,
    ) + (if done.len() > 0 {
        band_spec(
            ""@,
            "02 / DONE"@,
            "已完成"@,
            "<b>"@ + decimal(done.len()) + "</b> 条 <span class=\"en\">DONE</span>"@,
            fold_list(rows_join(es, done, ""@, today, done.len() as int), done.len()),
            "reveal reveal-3"@,
        )
    } else {
        Seq::empty()
    });
    render_spec(
        "todo"@,
        "todo"@,
        stage_spec(
            kicker_spec("待办"@, "TODOS"@),
            "TODOS"@,
            "<b>"@ + decimal(open.len()) + "</b> 条未完成 · <b>"@ + decimal(done.len()) + "</b> 条已完成"@,
            ""@,
            ""@,
            "reveal"@,
        ),
        "<div class=\"bands\">"@ + bands + "</div>"@,
        built,
        count,
        version,
    )
}

/// The todo page (see `todo_page_spec`).
pub fn todo_page(
    entries: &[Entry],
    open: &Vec<usize>,
    done: &Vec<usize>,
    today: &str,
    built: &str,
    count: &str,
    version: &str,
) -> (r: String)
    requires
        rows_ok(entries@, open@),
        rows_ok(entries@, done@),
    ensures
        r@ == todo_page_spec(entries@, open@, done@, today@, built@, count@, version@),
{
    proof {
        reveal(todo_page_spec);
    }
    let mut open_sub = String::from_str("<b>");
    append_str(&mut open_sub, fmt_usize(open.len()).as_str());
    append_str(&mut open_sub, "</b> 条 <span class=\"en\">OPEN</span>");
    let open_body = rows_or_html(entries, open, today, "<p class=\"empty\">没有未完成的待办。</p>");
    let mut bands = band("", "01 / OPEN", "未完成", open_sub.as_str(), open_body.as_str(), "reveal reveal-2");
    if done.len() > 0 {
        let mut done_sub = String::from_str("<b>");
        append_str(&mut done_sub, fmt_usize(done.len()).as_str());
        append_str(&mut done_sub, "</b> 条 <span class=\"en\">DONE</span>");
        let inner = rows_html(entries, done.as_slice(), "", today);
        let done_body = fold_rows(inner.as_str(), done.len());
        append_str(
            &mut bands,
            band("", "02 / DONE", "已完成", done_sub.as_str(), done_body.as_str(), "reveal reveal-3").as_str(),
        );
    } else {
        assert(bands@ + Seq::<char>::empty() =~= bands@);
    }
    let mut sub = String::from_str("<b>");
    append_str(&mut sub, fmt_usize(open.len()).as_str());
    append_str(&mut sub, "</b> 条未完成 · <b>");
    append_str(&mut sub, fmt_usize(done.len()).as_str());
    append_str(&mut sub, "</b> 条已完成");
    let st = stage(kicker("待办", "TODOS").as_str(), "TODOS", sub.as_str(), "", "", "reveal");
    let mut wrapped = String::from_str("<div class=\"bands\">");
    append_str(&mut wrapped, bands.as_str());
    append_str(&mut wrapped, "</div>");
    let page = Page::new("todo", "todo").stage(st).body(wrapped);
    render(&page, built, count, version)
}

} // verus!

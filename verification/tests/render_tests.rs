use mindcache::entry::Entry;
use mindcache::escape::{esc, json_escape};
use mindcache::frontmatter::Fm;
use mindcache::render::{
    action, activity, band, entry_row, kicker, legend, rail, render, ring, root_of, row_state, scale,
    scale_times, seg_stroke, stage, Page, Seg,
};

fn todo(stem: &str, created: &str, status: Option<&str>, due: Option<&str>, done: Option<&str>) -> Entry {
    Entry {
        dir: "todo".to_string(),
        stem: stem.to_string(),
        fm: Fm {
            type_: "todo".to_string(),
            title: "T".to_string(),
            created: created.to_string(),
            status: status.map(|s| s.to_string()),
            due: due.map(|s| s.to_string()),
            done: done.map(|s| s.to_string()),
            tags: Vec::new(),
        },
        body: String::new(),
    }
}

#[test]
fn html_escaping() {
    assert_eq!(esc("<a href=\"x\">Tom & Jerry's</a>"), "&lt;a href=&quot;x&quot;&gt;Tom &amp; Jerry&#39;s&lt;/a&gt;");
    assert_eq!(esc("中文"), "中文");
}

#[test]
fn json_escaping() {
    assert_eq!(json_escape("a\"b\\c\nd\te\r\u{8}\u{c}"), "a\\\"b\\\\c\\nd\\te\\r\\b\\f");
    assert_eq!(json_escape("\u{1}\u{1f}"), "\\u0001\\u001f");
    assert_eq!(json_escape("中文 ok"), "中文 ok");
}

fn shown(t: &str) -> String {
    t.replace("&lt;", "<")
        .replace("&gt;", ">")
        .replace("&quot;", "\"")
        .replace("&#39;", "'")
        .replace("&amp;", "&")
}

#[test]
fn escaped_html_shows_the_original_text() {
    for s in ["&lt; is not <", "a&amp;b", "'\"<>&", "中文 & more"] {
        assert_eq!(shown(&esc(s)), s);
    }
}

fn read_json_body(t: &str) -> String {
    let mut out = String::new();
    let mut it = t.chars();
    while let Some(c) = it.next() {
        assert!(c != '"' && (c as u32) >= 0x20);
        if c != '\\' {
            out.push(c);
            continue;
        }
        match it.next().unwrap() {
            '"' => out.push('"'),
            '\\' => out.push('\\'),
            'b' => out.push('\u{8}'),
            't' => out.push('\t'),
            'n' => out.push('\n'),
            'f' => out.push('\u{c}'),
            'r' => out.push('\r'),
            'u' => {
                let hex: String = (0..4).map(|_| it.next().unwrap()).collect();
                out.push(char::from_u32(u32::from_str_radix(&hex, 16).unwrap()).unwrap());
            }
            other => panic!("unexpected escape {other}"),
        }
    }
    out
}

#[test]
fn escaped_json_reads_back() {
    for s in ["plain", "q\"uote\\slash", "line\nbreak\ttab\r", "\u{1}\u{1f}\u{8}\u{c}", "中文 \\u0041"] {
        assert_eq!(read_json_body(&json_escape(s)), s);
    }
}

#[test]
fn roots() {
    assert_eq!(root_of(""), "../");
    assert_eq!(root_of("index"), "");
}

#[test]
fn rail_marks_the_current_page() {
    let r = rail("todo", "");
    assert!(r.starts_with("<nav class=\"rail\" aria-label=\"档案导航\"><ul class=\"rail-list\"><li><a class=\"rail-link\" href=\"index.html\"><span class=\"rail-idx\">01</span><span class=\"rail-label\">索引</span></a></li>"));
    assert!(r.contains("<li><a class=\"rail-link\" href=\"todo.html\" aria-current=\"page\"><span class=\"rail-idx\">03</span><span class=\"rail-label\">待办</span></a></li>"));
    assert_eq!(r.matches("aria-current").count(), 1);
    assert!(r.ends_with("<span class=\"rail-label\">标签</span></a></li></ul></nav>"));
    let d = rail("", "../");
    assert!(d.contains("href=\"../tags.html\""));
    assert!(!d.contains("aria-current"));
}

#[test]
fn stage_with_and_without_parts() {
    assert_eq!(
        stage("K", "ID", "M", "", "", "reveal"),
        "<section class=\"stage reveal\" aria-label=\"档案标识\"><div class=\"stage-layer\" aria-hidden=\"true\"></div><div class=\"stage-body\"><p class=\"stage-kicker\">K</p><h1 class=\"stage-id\">ID</h1><p class=\"stage-meta\">M</p></div></section>"
    );
    assert_eq!(
        stage("K", "ID", "M", "A", "B", ""),
        "<section class=\"stage \" aria-label=\"档案标识\"><div class=\"stage-layer\" aria-hidden=\"true\"></div><div class=\"stage-body\"><p class=\"stage-kicker\">K</p><h1 class=\"stage-id\">ID</h1><p class=\"stage-meta\">M</p><div class=\"stage-actions\">B</div></div><div class=\"stage-aside\">A</div></section>"
    );
}

#[test]
fn kicker_band_action() {
    assert_eq!(
        kicker("待办", "TODOS"),
        "<span class=\"mark\" aria-hidden=\"true\">MindCache</span> <span>待办</span> <span class=\"en\">TODOS</span>"
    );
    assert_eq!(
        band("", "01 / LIST", "全部条目", "", "B", "reveal"),
        "<section class=\"band reveal\"><div class=\"band-head\"><span class=\"band-code\">01 / LIST</span><h2 class=\"band-title\">全部条目</h2><span class=\"band-rule\" aria-hidden=\"true\"></span></div><div class=\"band-body\">B</div></section>"
    );
    assert_eq!(
        band("x", "C", "T", "S", "B", ""),
        "<section class=\"band \" id=\"x\"><div class=\"band-head\"><span class=\"band-code\">C</span><h2 class=\"band-title\">T</h2><span class=\"band-sub\">S</span><span class=\"band-rule\" aria-hidden=\"true\"></span></div><div class=\"band-body\">B</div></section>"
    );
    assert_eq!(action("a.html", "Go", "is-on-stage"), "<a class=\"act is-on-stage\" href=\"a.html\">Go</a>");
}

fn segs() -> Vec<Seg> {
    vec![
        Seg { label: "收件", en: "INBOX", n: 2, kind: 0, op: "0.72" },
        Seg { label: "待办·未完成", en: "TODO OPEN", n: 1, kind: 1, op: "1" },
    ]
}

#[test]
fn ring_counts_and_describes() {
    assert_eq!(
        ring(&segs(), "<arcs/>"),
        "<svg class=\"ring\" viewBox=\"0 0 132 132\" role=\"img\" aria-label=\"库内分布：收件 2、待办·未完成 1，共 3 条\"><circle cx=\"66\" cy=\"66\" r=\"54\" fill=\"none\" stroke=\"var(--ark-stage-line)\" stroke-width=\"6\"/><arcs/><text class=\"ring-num\" x=\"66\" y=\"64\" text-anchor=\"middle\">3</text><text class=\"ring-cap\" x=\"66\" y=\"80\" text-anchor=\"middle\">ENTRIES</text></svg>"
    );
    let empty = vec![Seg { label: "收件", en: "INBOX", n: 0, kind: 0, op: "0.72" }];
    let r = ring(&empty, "<arcs/>");
    assert!(!r.contains("<arcs/>"));
    assert!(r.contains("aria-label=\"库内分布：收件 0，共 0 条\""));
    assert_eq!(seg_stroke(1), "var(--ark-signal)");
    assert_eq!(seg_stroke(2), "var(--ark-state)");
    assert_eq!(seg_stroke(0), "var(--ark-stage-ink)");
}

#[test]
fn legend_lines_and_overdue() {
    assert_eq!(
        legend(&segs(), 0),
        "<ul class=\"legend\"><li><span class=\"swatch\" style=\"opacity:0.72\"></span><span>收件</span><span class=\"en\">INBOX</span><b>2</b></li><li><span class=\"swatch is-signal\" style=\"opacity:1\"></span><span>待办·未完成</span><span class=\"en\">TODO OPEN</span><b>1</b></li></ul>"
    );
    assert!(legend(&segs(), 4).ends_with("<li><span class=\"swatch is-state\"></span><span>其中逾期</span><span class=\"en\">OVERDUE</span><b>4</b></li></ul>"));
}

#[test]
fn activity_bars_scale_to_busiest_day() {
    let days = vec![("09-01".to_string(), 0usize), ("09-02".to_string(), 2), ("09-03".to_string(), 1)];
    assert_eq!(
        activity(&days),
        "<div class=\"stage-readout\"><span>最近 3 天捕获</span><span class=\"en\">CAPTURE</span><div class=\"activity\" role=\"img\" aria-label=\"最近 3 天共捕获 3 条\"><span class=\"activity-day\" style=\"height:3px\" title=\"09-01 · 0 条\"></span><span class=\"activity-day has\" style=\"height:30px\" title=\"09-02 · 2 条\"></span><span class=\"activity-day has\" style=\"height:16px\" title=\"09-03 · 1 条\"></span></div></div>"
    );
}

#[test]
fn scale_ends_and_ticks() {
    let a = todo("a", "2026-09-20", None, None, None);
    let b = todo("b", "bad", None, None, None);
    let c = todo("c", "2026-09-01", None, None, None);
    let list = vec![&a, &b, &c];
    assert_eq!(scale_times(&list), vec![1789862400, 1788220800]);
    assert_eq!(
        scale(&list, "<t/>"),
        "<div class=\"scale\" aria-hidden=\"true\"><t/><span class=\"scale-tick is-end is-top\"></span><span class=\"scale-tick is-end is-bottom\"></span><span class=\"scale-end is-top\">09-20</span><span class=\"scale-end is-bottom\">09-01</span></div>"
    );
    let d = todo("d", "2026-09-03", None, None, None);
    let short = vec![&d, &c];
    assert!(!scale(&short, "<t/>").contains("<t/>"));
    let one = vec![&a, &b];
    assert_eq!(scale(&one, "<t/>"), "");
}

#[test]
fn row_states() {
    let note = Entry { fm: Fm { type_: "note".to_string(), ..todo("n", "x", None, None, None).fm }, ..todo("n", "x", None, None, None) };
    assert_eq!(row_state(&note, "2026-09-05"), "");
    let done = todo("a", "x", Some("done"), None, Some("2026-09-03"));
    assert_eq!(
        row_state(&done, "2026-09-05"),
        "<span class=\"badge is-done\"><span class=\"badge-mark\"></span><span>完成</span><span class=\"en\">DONE</span> <span class=\"num\">09-03</span></span>"
    );
    let late = todo("a", "x", None, Some("2026-09-01"), None);
    assert_eq!(
        row_state(&late, "2026-09-05"),
        "<span class=\"badge is-open\"><span class=\"badge-mark\"></span><span>进行中</span><span class=\"en\">OPEN</span></span><span class=\"badge is-overdue\"><span class=\"badge-mark\"></span><span>逾期</span><span class=\"en\">DUE</span> <span class=\"num\">09-01</span></span>"
    );
    let later = todo("a", "x", Some("open"), Some("2026-09-30"), None);
    assert_eq!(
        row_state(&later, "2026-09-05"),
        "<span class=\"badge is-open\"><span class=\"badge-mark\"></span><span>进行中</span><span class=\"en\">OPEN</span></span><span class=\"badge\"><span>截止</span><span class=\"en\">DUE</span> <span class=\"num\">09-30</span></span>"
    );
    let odd = todo("a", "x", Some("open"), Some("<script>"), None);
    let r = row_state(&odd, "2026-09-05");
    assert!(r.contains("<span class=\"num\"><script></span>"));
}

#[test]
fn rows_link_to_detail_pages() {
    let mut e = todo("20260901-0900-fix", "2026-09-01T09:00:00+08:00", Some("done"), None, Some(""));
    e.fm.title = "Fix <kbd>".to_string();
    e.fm.tags = vec!["hw".to_string(), "a&b".to_string()];
    assert_eq!(
        entry_row(&e, "../", true, "2026-09-05"),
        "<li class=\"row is-done\"><span class=\"row-date\">2026-09-01 09:00</span><div class=\"row-main\"><a class=\"row-title is-done\" href=\"../pages/20260901-0900-fix.html\">Fix &lt;kbd&gt;</a><span class=\"row-kind\">todo</span><span class=\"row-facets\"><a class=\"tag\" href=\"../tags.html#hw\">hw</a><a class=\"tag\" href=\"../tags.html#a&amp;b\">a&amp;b</a></span></div><div class=\"row-side\"><span class=\"badge is-done\"><span class=\"badge-mark\"></span><span>完成</span><span class=\"en\">DONE</span></span></div></li>"
    );
}

#[test]
fn pages_assemble_the_document() {
    let p = Page::new("A & B", "index").stage("<S/>".to_string()).body("<B/>".to_string());
    assert_eq!(p.title, "A & B");
    assert_eq!(p.nav, "index");
    let html = render(&p, "2026-09-05 10:00", "<b class=\"num\">3</b>", "0.1.0");
    assert!(html.starts_with("<!DOCTYPE html>\n<html lang=\"zh\" data-ark-theme=\"exa\" data-ark-depth=\"moderate\" data-ark-appearance=\"auto\" data-ark-layout=\"list\">\n<head>\n<meta charset=\"utf-8\">\n<script>(function(){try{"));
    assert!(html.contains("<title>A &amp; B · MindCache</title>"));
    assert!(html.contains("<link rel=\"stylesheet\" href=\"style.css\">"));
    assert!(html.contains("<span class=\"hint\"><b class=\"num\">3</b></span>"));
    assert!(html.contains("aria-current=\"page\"><span class=\"rail-idx\">01</span>"));
    assert!(html.contains("\n<main id=\"main\" class=\"field\">\n<S/>\n<B/>\n</main>\n"));
    assert!(html.contains("<span>MindCache <b>v0.1.0</b></span><span><span class=\"en\">LAST BUILD</span> <span>上次构建</span> <b>2026-09-05 10:00</b></span>"));
    assert!(html.ends_with("</script>\n</body>\n</html>\n"));
    let detail = render(&Page::new("x", ""), "b", "c", "v");
    assert!(detail.contains("<link rel=\"stylesheet\" href=\"../style.css\">"));
}

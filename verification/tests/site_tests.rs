use mindcache::entry::Entry;
use mindcache::frontmatter::Fm;
use mindcache::lists::{done_todos, in_folder, open_todos, recent, sort_by_due, sort_newest};
use mindcache::pages::{count_line, detail_page, fold_rows, search_json};
use mindcache::site::{capture_days, segments, tally};
use mindcache::site_build::build_site;
use mindcache::tags::{tag_members_of, tag_names};

fn e(dir: &str, stem: &str, type_: &str, created: &str, tags: &[&str]) -> Entry {
    Entry {
        dir: dir.to_string(),
        stem: stem.to_string(),
        fm: Fm {
            type_: type_.to_string(),
            title: format!("title {stem}"),
            created: created.to_string(),
            status: None,
            due: None,
            done: None,
            tags: tags.iter().map(|t| t.to_string()).collect(),
        },
        body: String::new(),
    }
}

fn vault() -> Vec<Entry> {
    let mut done = e("todo", "20260904-0900-d", "todo", "2026-09-04", &["rust"]);
    done.fm.status = Some("done".to_string());
    done.fm.done = Some("2026-09-05".to_string());
    let mut late = e("todo", "20260903-0900-l", "todo", "2026-09-03", &["Rust", "hw"]);
    late.fm.due = Some("2026-09-01".to_string());
    let mut soon = e("todo", "20260902-0900-s", "todo", "2026-09-02", &[]);
    soon.fm.due = Some("2026-09-30".to_string());
    vec![
        e("inbox", "20260906-0900-i", "idea", "2026-09-06", &["rust", "rust"]),
        e("ideas", "20260905-0900-x", "idea", "2026-09-05", &["hw"]),
        done,
        late,
        soon,
        e("archive", "20260901-0900-a", "note", "2026-09-01", &[]),
    ]
}

#[test]
fn distribution_counts() {
    let v = vault();
    let t = tally(&v, "2026-09-05");
    assert_eq!((t.total, t.open, t.done, t.inbox, t.ideas, t.notes, t.archive, t.overdue), (6, 2, 1, 1, 1, 0, 1, 1));
    let s = segments(&t);
    let labels: Vec<(&str, usize)> = s.iter().map(|x| (x.label, x.n)).collect();
    assert_eq!(
        labels,
        vec![("收件", 1), ("待办·未完成", 2), ("待办·已完成", 1), ("想法", 1), ("笔记", 0), ("归档", 1)]
    );
    assert_eq!(s.iter().map(|x| x.n).sum::<usize>(), t.total);
}

#[test]
fn an_open_todo_in_the_inbox_is_counted_once() {
    let mut late = e("inbox", "20260901-0930-x", "todo", "2026-09-01", &[]);
    late.fm.due = Some("2026-09-02".to_string());
    let v = vec![late];
    let t = tally(&v, "2026-09-05");
    assert_eq!((t.total, t.open, t.done, t.inbox, t.overdue), (1, 1, 0, 0, 1));
    assert_eq!(segments(&t).iter().map(|x| x.n).sum::<usize>(), 1);
}

#[test]
fn entries_filed_under_todo_that_are_not_todos_count_by_type() {
    let v = vec![
        e("todo", "20260901-0930-n", "note", "2026-09-01", &[]),
        e("todo", "20260901-0931-i", "thought", "2026-09-01", &[]),
        e("todo", "20260901-0932-m", "memo", "2026-09-01", &[]),
        e("archive", "20260901-0933-t", "todo", "2026-09-01", &[]),
    ];
    let t = tally(&v, "2026-09-05");
    assert_eq!((t.open, t.done, t.inbox, t.ideas, t.notes, t.archive), (1, 0, 1, 1, 1, 0));
    assert_eq!(segments(&t).iter().map(|x| x.n).sum::<usize>(), t.total);
}

#[test]
fn capture_days_count_stamps_outside_archive() {
    let v = vault();
    let days = vec![
        ("20260901".to_string(), "09-01".to_string()),
        ("20260906".to_string(), "09-06".to_string()),
        ("20260907".to_string(), "09-07".to_string()),
    ];
    let c = capture_days(&v, &days);
    assert_eq!(c, vec![("09-01".to_string(), 0), ("09-06".to_string(), 1), ("09-07".to_string(), 0)]);
}

#[test]
fn lists_and_orders() {
    let v = vault();
    assert_eq!(open_todos(&v), vec![3, 4]);
    assert_eq!(done_todos(&v), vec![2]);
    assert_eq!(in_folder(&v, "inbox"), vec![0]);
    assert_eq!(recent(&v), vec![0, 1, 3, 4]);
    assert_eq!(sort_by_due(&v, &vec![4, 3]), vec![3, 4]);
    assert_eq!(sort_newest(&v, &vec![4, 2, 3]), vec![2, 3, 4]);
}

#[test]
fn recent_keeps_twenty() {
    let v: Vec<Entry> = (0..25).map(|i| e("notes", &format!("s{i}"), "note", "2026-09-01", &[])).collect();
    assert_eq!(recent(&v), (0..20).collect::<Vec<usize>>());
}

#[test]
fn tag_index_orders_by_use_then_name() {
    let v = vault();
    // rust: 3 times (twice in one entry), hw: 2, Rust: 1
    assert_eq!(tag_names(&v), vec!["rust", "hw", "Rust"]);
    assert_eq!(tag_members_of(&v, "rust"), vec![0, 0, 2]);
    assert_eq!(tag_members_of(&v, "hw"), vec![1, 3]);
}

#[test]
fn search_index_is_json() {
    let mut x = e("notes", "n", "note", "2026-09-01", &["a\"b"]);
    x.body = "line1\nline2".to_string();
    assert_eq!(
        search_json(&[x]),
        "{\"entries\":[{\"stem\":\"n\",\"dir\":\"notes\",\"title\":\"title n\",\"tags\":[\"a\\\"b\"],\"created\":\"2026-09-01\",\"body\":\"line1\\nline2\"}]}"
    );
    assert_eq!(search_json(&[]), "{\"entries\":[]}");
}

#[test]
fn counts_and_folds() {
    assert_eq!(count_line(6), "<b class=\"num\">6</b> <span class=\"en\">ENTRIES</span> 条");
    assert_eq!(fold_rows("R", 3), "<ul class=\"rows\">R</ul>");
    assert_eq!(
        fold_rows("R", 10),
        "<div class=\"foldwrap\"><ul class=\"rows\" data-fold=\"8\">R</ul><button class=\"act foldbtn\" type=\"button\">展开全部 <span class=\"en\">SHOW ALL (+2)</span></button></div>"
    );
}

#[test]
fn detail_page_has_dossier_document_and_neighbours() {
    let mut v = vault();
    v[1].body = "**bold**".to_string();
    let page = detail_page(&v, 1, "2026-09-05", "B", "C", "V");
    assert!(page.contains("<title>title 20260905-0900-x · MindCache</title>"));
    assert!(page.contains("<div class=\"dossier\"><div><span>类型 <span class=\"en\">TYPE</span></span><b>idea</b></div><div><span>目录 <span class=\"en\">FOLDER</span></span><b>ideas</b></div>"));
    assert!(page.contains("<div class=\"doc\"><p><strong>bold</strong></p>\n</div>"));
    assert!(page.contains("href=\"../ideas.html\">← 返回 <span class=\"en\">BACK</span></a>"));
    assert!(page.contains("href=\"../pages/20260906-0900-i.html\">← 更新一条 <span class=\"en\">NEWER</span></a>"));
    assert!(page.contains("href=\"../pages/20260904-0900-d.html\">更早一条 <span class=\"en\">OLDER</span> →</a>"));
    assert!(page.contains("<h2 class=\"band-title\">邻接条目</h2>"));
    let last = detail_page(&v, 5, "2026-09-05", "B", "C", "V");
    assert!(last.contains("href=\"../index.html\">← 返回"));
    assert!(!last.contains("更早一条"));
}

#[test]
fn whole_site_files() {
    let v = vault();
    let days = vec![("20260906".to_string(), "09-06".to_string())];
    let files = build_site(&v, &days, "<arcs/>", "<ticks/>", "2026-09-05", "2026-09-05 10:00", "0.1.0");
    let names: Vec<&str> = files.iter().map(|f| f.0.as_str()).collect();
    assert_eq!(
        names,
        vec![
            "pages/20260906-0900-i.html",
            "pages/20260905-0900-x.html",
            "pages/20260904-0900-d.html",
            "pages/20260903-0900-l.html",
            "pages/20260902-0900-s.html",
            "pages/20260901-0900-a.html",
            "search.json",
            "tags.html",
            "inbox.html",
            "todo.html",
            "ideas.html",
            "notes.html",
            "index.html",
        ]
    );
    let index = &files[12].1;
    assert!(index.contains("<arcs/>"));
    assert!(index.contains("<b>6</b> <span class=\"en\">ENTRIES</span>"));
    assert!(index.contains("<b>4</b> 条（显示最近 <b>4</b> 条）"));
    let todo = &files[9].1;
    assert!(todo.contains("<b>2</b> 条未完成 · <b>1</b> 条已完成"));
    let tags = &files[7].1;
    assert!(tags.contains("<li><a class=\"chip\" href=\"#rust\">rust<b>3</b></a></li><li><a class=\"chip\" href=\"#hw\">hw<b>2</b></a></li>"));
    let notes = &files[11].1;
    assert!(notes.contains("这里还没有内容"));
}

#[test]
fn dates_that_cannot_be_cut_are_shown_as_written() {
    let mut v = vault();
    v[3].fm.due = Some("下周三之前完成".to_string());
    let files = build_site(&v, &[], "", "", "2026-09-05", "b", "v");
    let todo = &files.iter().find(|(p, _)| p == "todo.html").unwrap().1;
    assert!(todo.contains("<span class=\"num\">下周三之前完成</span>"));
}

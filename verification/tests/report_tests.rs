use mindcache::entry::Entry;
use mindcache::frontmatter::Fm;
use mindcache::report::{check_file, check_vault, report_lines, search};

fn e(dir: &str, stem: &str, type_: &str, title: &str, created: &str, tags: &[&str], body: &str) -> Entry {
    Entry {
        dir: dir.to_string(),
        stem: stem.to_string(),
        fm: Fm {
            type_: type_.to_string(),
            title: title.to_string(),
            created: created.to_string(),
            status: None,
            due: None,
            done: None,
            tags: tags.iter().map(|t| t.to_string()).collect(),
        },
        body: body.to_string(),
    }
}

#[test]
fn vault_check_collects_errors_and_warnings() {
    let v = vec![
        e("notes", "20260901-0900-ok", "note", "fine", "2026-09-01", &[], ""),
        e("ideas", "bad", "note", "t", "2026-09-01", &[], ""),
    ];
    let parse = vec![("todo/x.md".to_string(), "缺少 frontmatter 块（文件需以 --- 开头）".to_string())];
    let r = check_vault(&v, &parse);
    assert_eq!(r.ok, 1);
    assert_eq!(
        r.errs,
        vec![
            ("todo/x.md".to_string(), "缺少 frontmatter 块（文件需以 --- 开头）".to_string()),
            ("ideas/bad.md".to_string(), "文件名不符合 YYYYMMDD-HHMM-slug 格式（slug 仅限小写字母、数字、连字符与中日韩字符）".to_string()),
        ]
    );
    assert_eq!(r.warns, vec![("ideas/bad.md".to_string(), "type note 一般放 notes/，当前在 ideas/".to_string())]);
    let (lines, failed) = report_lines(&r, "/home/u/mind");
    assert!(failed);
    assert_eq!(
        lines,
        vec![
            "ERR todo/x.md: 缺少 frontmatter 块（文件需以 --- 开头）",
            "ERR ideas/bad.md: 文件名不符合 YYYYMMDD-HHMM-slug 格式（slug 仅限小写字母、数字、连字符与中日韩字符）",
            "WARN ideas/bad.md: type note 一般放 notes/，当前在 ideas/",
            "checked: 1 ok, 2 error(s), 1 warning(s), vault: /home/u/mind",
        ]
    );
}

#[test]
fn single_file_check() {
    let r = check_file("20260901-0900-ok.md", "ideas", "---\ntype: note\ntitle: t\ncreated: 2026-09-01\ntags: []\n---\n");
    assert_eq!(r.ok, 1);
    assert!(r.errs.is_empty());
    assert_eq!(r.warns, vec![("20260901-0900-ok.md".to_string(), "type note 一般放 notes/，当前在 ideas/".to_string())]);
    let r = check_file("x.md", "notes", "no block");
    assert_eq!(r.ok, 0);
    assert_eq!(r.errs, vec![("x.md".to_string(), "缺少 frontmatter 块（文件需以 --- 开头）".to_string())]);
    let (lines, failed) = report_lines(&check_file("y.md", "notes", "---\ntype: note\ntitle: t\ncreated: 2026-09-01\n---\n"), "/v");
    assert!(failed);
    assert_eq!(lines.last().unwrap(), "checked: 0 ok, 1 error(s), 0 warning(s), vault: /v");
}

#[test]
fn search_matches_title_tags_and_body_case_blind() {
    let v = vec![
        e("notes", "a", "note", "Rust Notes", "2026-09-01T08:00:00+08:00", &[], "first\n  Uses RUST daily  \nother\nrust again\nrust 3\nrust 4"),
        e("ideas", "b", "idea", "Other", "2026-09-02", &["rust"], "nothing here"),
        e("archive", "c", "note", "Cooking", "x", &[], "no match"),
    ];
    let out = search(&v, "RUST");
    assert_eq!(
        out,
        vec![
            "notes/a.md",
            "  Rust Notes // 2026-09-01 08:00",
            "  > Uses RUST daily",
            "  > rust again",
            "  > rust 3",
            "ideas/b.md",
            "  Other // 2026-09-02",
            "searched 3 files, 2 match(es)",
        ]
    );
}

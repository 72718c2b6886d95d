use mindcache::entry::{
    check_entry, is_done_entry, is_entry_file, is_open_todo, load_entry, slugify, sort_by_created,
    stem_of_name, type_dir, valid_filename, Entry,
};
use mindcache::frontmatter::Fm;

fn fm(type_: &str, title: &str, created: &str) -> Fm {
    Fm {
        type_: type_.to_string(),
        title: title.to_string(),
        created: created.to_string(),
        status: None,
        due: None,
        done: None,
        tags: Vec::new(),
    }
}

fn entry(dir: &str, stem: &str, f: Fm) -> Entry {
    Entry { dir: dir.to_string(), stem: stem.to_string(), fm: f, body: String::new() }
}

#[test]
fn file_names_follow_the_stamp_slug_form() {
    assert!(valid_filename("20260831-1840-agent-attention"));
    assert!(valid_filename("20260831-1840-a"));
    assert!(!valid_filename("20260831-1840-"));
    assert!(!valid_filename("20260831-1840-Agent"));
    assert!(valid_filename("20260831-1840-agent-注意力分配"));
    assert!(!valid_filename("20260831-1840-a😀"));
    assert!(!valid_filename("20260831-1840-a.b"));
    assert!(!valid_filename("2026083-11840-x"));
    assert!(!valid_filename("20260831_1840-x"));
    assert!(!valid_filename("short"));
}

#[test]
fn types_map_to_folders() {
    assert_eq!(type_dir("todo"), Some("todo"));
    assert_eq!(type_dir("idea"), Some("ideas"));
    assert_eq!(type_dir("thought"), Some("ideas"));
    assert_eq!(type_dir("note"), Some("notes"));
    assert_eq!(type_dir("memo"), None);
}

#[test]
fn slugs_keep_letters_digits_and_cjk() {
    assert_eq!(slugify("Hello, World!"), "hello-world");
    assert_eq!(slugify("  Fix Ctrl+F  "), "fix-ctrl-f");
    assert_eq!(slugify("AI 与注意力分配"), "ai-与注意力分配");
    assert_eq!(slugify("注意力分配"), "注意力分配");
    assert_eq!(slugify("😀 x"), "x");
    assert_eq!(slugify("--a--b--"), "a-b");
}

#[test]
fn names_and_stems() {
    assert!(is_entry_file("20260831-1840-x.md"));
    assert!(!is_entry_file("notes.txt"));
    assert_eq!(stem_of_name("20260831-1840-x.md"), "20260831-1840-x");
    assert_eq!(stem_of_name("a.md.md"), "a");
}

#[test]
fn loading_keeps_folder_stem_and_body() {
    let e = load_entry("notes", "20260831-1840-x.md", "---\ntype: note\ntitle: X\n---\nhello\n").ok().unwrap();
    assert_eq!(e.dir, "notes");
    assert_eq!(e.stem, "20260831-1840-x");
    assert_eq!(e.fm.title, "X");
    assert_eq!(e.body, "hello\n");
    let err = load_entry("notes", "bad.md", "no block").err().unwrap();
    assert_eq!(err.0, "notes/bad.md");
    assert_eq!(err.1, "缺少 frontmatter 块（文件需以 --- 开头）");
}

#[test]
fn check_reports_errors_in_order() {
    let mut f = fm("todo", "  ", "later");
    f.status = Some("doing".to_string());
    f.due = Some("next week".to_string());
    f.done = Some("2026-09-01".to_string());
    let (errs, warns) = check_entry("todo", "bad name", &f);
    assert_eq!(
        errs,
        vec![
            "文件名不符合 YYYYMMDD-HHMM-slug 格式（slug 仅限小写字母、数字、连字符与中日韩字符）",
            "title 缺失或为空",
            "created 无法解析: \"later\"",
            "status 无效: \"doing\"（应为 open|done）",
            "due 无法解析: \"next week\"（应为 YYYY-MM-DD）",
        ]
    );
    assert!(warns.is_empty());
}

#[test]
fn check_unknown_type_and_missing_created() {
    let f = fm("memo", "t", "");
    let (errs, warns) = check_entry("notes", "20260831-1840-x", &f);
    assert_eq!(errs, vec!["type 无效: \"memo\"", "created 缺失"]);
    assert!(warns.is_empty());
}

#[test]
fn check_warns_about_folders_only() {
    let f = fm("note", "t", "2026-09-01");
    let (errs, warns) = check_entry("ideas", "20260831-1840-x", &f);
    assert!(errs.is_empty());
    assert_eq!(warns, vec!["type note 一般放 notes/，当前在 ideas/"]);
    let (_, warns) = check_entry("inbox", "20260831-1840-x", &f);
    assert!(warns.is_empty());
    let (_, warns) = check_entry("archive", "20260831-1840-x", &f);
    assert!(warns.is_empty());
}

#[test]
fn todo_state() {
    let mut f = fm("todo", "t", "2026-09-01");
    let open = entry("todo", "s", f.clone());
    assert!(is_open_todo(&open) && !is_done_entry(&open));
    f.status = Some("done".to_string());
    let done = entry("todo", "s", f);
    assert!(is_done_entry(&done) && !is_open_todo(&done));
    let note = entry("notes", "s", fm("note", "t", "2026-09-01"));
    assert!(!is_done_entry(&note) && !is_open_todo(&note));
}

#[test]
fn sorting_is_newest_first_and_stable() {
    let mut v = vec![
        entry("notes", "a", fm("note", "a", "2026-09-01")),
        entry("notes", "b", fm("note", "b", "2026-09-03")),
        entry("notes", "c", fm("note", "c", "bad")),
        entry("notes", "d", fm("note", "d", "2026-09-01")),
        entry("notes", "e", fm("note", "e", "2026-09-02T00:00:00+00:00")),
    ];
    sort_by_created(&mut v);
    let order: Vec<&str> = v.iter().map(|e| e.stem.as_str()).collect();
    assert_eq!(order, vec!["b", "e", "a", "d", "c"]);
}

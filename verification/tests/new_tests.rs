use mindcache::entry::{check_entry, stem_of_name};
use mindcache::frontmatter::{parse_fm, split_fm};
use mindcache::newentry::{new_entry_text, new_file_name, plan_new};

#[test]
fn plans_use_the_type_folder_and_slug() {
    let p = plan_new("thought", "Hello, World!", false).ok().unwrap();
    assert_eq!((p.type_.as_str(), p.dir.as_str(), p.slug.as_str()), ("idea", "ideas", "hello-world"));
    let p = plan_new("todo", "修键盘", false).ok().unwrap();
    assert_eq!((p.type_.as_str(), p.dir.as_str(), p.slug.as_str()), ("todo", "todo", "修键盘"));
    let p = plan_new("todo", "!!!", false).ok().unwrap();
    assert_eq!((p.type_.as_str(), p.dir.as_str(), p.slug.as_str()), ("todo", "todo", "todo"));
    let p = plan_new("note", "x", true).ok().unwrap();
    assert_eq!(p.dir, "inbox");
    let long = "a".repeat(50);
    let p = plan_new("note", &long, false).ok().unwrap();
    assert_eq!(p.slug, "a".repeat(40));
}

#[test]
fn unknown_types_are_refused() {
    assert_eq!(plan_new("memo", "x", false).err().unwrap(), "未知类型 \"memo\"，可选: idea | todo | note");
}

#[test]
fn file_names_count_up() {
    assert_eq!(new_file_name("20260909-0930", "fix", 0), "20260909-0930-fix.md");
    assert_eq!(new_file_name("20260909-0930", "fix", 2), "20260909-0930-fix-2.md");
}

#[test]
fn new_names_pass_check() {
    for (slug, n) in [("hello-world", 0usize), ("hello-world", 1), ("hello-world", 12), ("注意力分配", 0), ("ai-注意力", 3)] {
        let name = new_file_name("20260909-0930", slug, n);
        let stem = stem_of_name(&name);
        let (errs, _) = check_entry(
            "ideas",
            &stem,
            &parse_fm(&new_entry_text("idea", "Hello", "2026-09-09T09:30:00+08:00", &[], "")).unwrap(),
        );
        assert!(errs.is_empty(), "{errs:?}");
    }
}

#[test]
fn texts_of_new_entries() {
    assert_eq!(
        new_entry_text("todo", "修键盘", "2026-09-09T09:30:00+08:00", &["hw".to_string(), "home".to_string()], "拆开看看"),
        "---\ntype: todo\ntitle: 修键盘\ncreated: 2026-09-09T09:30:00+08:00\nstatus: open\ntags: [hw, home]\n---\n\n拆开看看\n"
    );
    assert_eq!(
        new_entry_text("note", "N", "2026-09-09T09:30:00+08:00", &[], ""),
        "---\ntype: note\ntitle: N\ncreated: 2026-09-09T09:30:00+08:00\ntags: []\n---\n\n"
    );
    assert_eq!(
        new_entry_text("idea", "I", "2026-09-09T09:30:00+08:00", &["a".to_string(), "b,c".to_string()], ""),
        "---\ntype: idea\ntitle: I\ncreated: 2026-09-09T09:30:00+08:00\ntags: [a, \"b,c\"]\n---\n\n"
    );
}

#[test]
fn new_entries_read_back() {
    let text = new_entry_text("todo", "修键盘", "2026-09-09T09:30:00+08:00", &["hw".to_string(), "home".to_string()], "body");
    let fm = parse_fm(&text).unwrap();
    assert_eq!(fm.type_, "todo");
    assert_eq!(fm.title, "修键盘");
    assert_eq!(fm.created, "2026-09-09T09:30:00+08:00");
    assert_eq!(fm.status, Some("open".to_string()));
    assert_eq!(fm.tags, vec!["hw", "home"]);
    assert_eq!(split_fm(&text).unwrap().1, "\nbody\n");
    let text = new_entry_text("note", "N", "2026-09-09T09:30:00+08:00", &["b,c".to_string(), "d".to_string()], "");
    assert_eq!(parse_fm(&text).unwrap().tags, vec!["b,c", "d"]);
}

use mindcache::frontmatter::{parse_fm, split_fm, split_tags_flow, strip_paired_quotes};

const THOUGHT: &str = "---\ntype: thought\ntitle: AI 与注意力分配\ncreated: 2026-08-31T18:40:00+08:00\ntags:\n  - ai\n  - agent\n---\n\n我突然觉得个人 AI 真正改变的可能不是生产力，\n";

#[test]
fn split_finds_block_and_body() {
    let (block, body) = split_fm("---\ntype: note\n---\nbody\n").unwrap();
    assert_eq!(block, "type: note\n");
    assert_eq!(body, "body\n");
}

#[test]
fn split_tolerates_bom_crlf_and_trailing_blanks() {
    let (block, body) = split_fm("\u{feff}---  \r\ntype: note\r\n---  \r\nrest").unwrap();
    assert_eq!(block, "type: note\r\n");
    assert_eq!(body, "  \r\nrest");
    let (_, body) = split_fm("---\ntype: note\n---\r\nrest").unwrap();
    assert_eq!(body, "rest");
}

#[test]
fn split_needs_an_opening_and_a_closing_line() {
    assert!(split_fm("no front matter").is_none());
    assert!(split_fm("---x\ntype: note\n---\n").is_none());
    assert!(split_fm("---\ntype: note\n").is_none());
}

#[test]
fn split_closing_line_without_newline() {
    let (block, body) = split_fm("---\na: 1\n---").unwrap();
    assert_eq!(block, "a: 1\n");
    assert_eq!(body, "");
}

#[test]
fn quotes_are_stripped_only_in_pairs() {
    assert_eq!(strip_paired_quotes("\"好\""), "好");
    assert_eq!(strip_paired_quotes("'x'"), "x");
    assert_eq!(strip_paired_quotes("他说的\"好\""), "他说的\"好\"");
    assert_eq!(strip_paired_quotes("\"x'"), "\"x'");
    assert_eq!(strip_paired_quotes("\""), "\"");
}

#[test]
fn flow_list_keeps_quoted_commas() {
    assert_eq!(split_tags_flow("a, \"b,c\", d"), vec!["a", "b,c", "d"]);
    assert_eq!(split_tags_flow(" , x ,, "), vec!["x"]);
    assert_eq!(split_tags_flow(""), Vec::<String>::new());
}

#[test]
fn parse_reads_block_list_tags_and_thought_alias() {
    let fm = parse_fm(THOUGHT).unwrap();
    assert_eq!(fm.type_, "idea");
    assert_eq!(fm.title, "AI 与注意力分配");
    assert_eq!(fm.created, "2026-08-31T18:40:00+08:00");
    assert_eq!(fm.tags, vec!["ai", "agent"]);
    assert_eq!(fm.status, None);
}

#[test]
fn parse_reads_todo_fields_and_flow_tags() {
    let text = "---\ntype: todo\ntitle: \"修复 Sleephat 的 Ctrl+F\"\ncreated: 2026-08-31T09:12:00+08:00\nstatus: open\ndue: 2026-09-01\ntags: [a, 'b']\nextra: ignored\n---\n\n拆键盘检查排线。\n";
    let fm = parse_fm(text).unwrap();
    assert_eq!(fm.type_, "todo");
    assert_eq!(fm.title, "修复 Sleephat 的 Ctrl+F");
    assert_eq!(fm.status, Some("open".to_string()));
    assert_eq!(fm.due, Some("2026-09-01".to_string()));
    assert_eq!(fm.done, None);
    assert_eq!(fm.tags, vec!["a", "b"]);
}

#[test]
fn parse_empty_flow_list_and_missing_closing_bracket() {
    let fm = parse_fm("---\ntags: []\n---\n").unwrap();
    assert!(fm.tags.is_empty());
    let fm = parse_fm("---\ntags: [x, y\n---\n").unwrap();
    assert_eq!(fm.tags, vec!["x", "y"]);
}

#[test]
fn parse_errors_name_the_problem() {
    assert_eq!(parse_fm("plain text").unwrap_err(), "缺少 frontmatter 块（文件需以 --- 开头）");
    assert_eq!(
        parse_fm("---\ntype: note\nno colon here\n---\n").unwrap_err(),
        "frontmatter 行无法解析: \"no colon here\""
    );
}

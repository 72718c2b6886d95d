use mindcache::state::{changed, refusal, transition, StateCmd, StateError};

const OPEN: &str = "---\ntype: todo\ntitle: 修复键盘\ncreated: 2026-08-31T09:12:00+08:00\nstatus: open\ndue: 2026-09-01\ntags: []\n---\n\n拆键盘检查排线。\n";

#[test]
fn done_sets_status_and_dates_it() {
    let t = transition(OPEN, StateCmd::Done, "2026-09-09").ok().unwrap();
    assert_eq!(
        t,
        "---\ntype: todo\ntitle: 修复键盘\ncreated: 2026-08-31T09:12:00+08:00\nstatus: done\ndone: 2026-09-09\ndue: 2026-09-01\ntags: []\n---\n\n拆键盘检查排线。\n"
    );
}

#[test]
fn done_without_status_inserts_after_type() {
    let text = "---\ntitle: x\ntype: todo\ncreated: 2026-09-01\n---\nbody";
    let t = transition(text, StateCmd::Done, "2026-09-09").ok().unwrap();
    assert_eq!(t, "---\ntitle: x\ntype: todo\nstatus: done\ndone: 2026-09-09\ncreated: 2026-09-01\n---\nbody");
}

#[test]
fn done_dates_a_stale_done_line_with_today() {
    let text = "---\ntype: todo\ndone: 2026-01-01\nstatus: open\n---\n";
    let t = transition(text, StateCmd::Done, "2026-09-09").ok().unwrap();
    assert_eq!(t, "---\ntype: todo\ndone: 2026-09-09\nstatus: done\n---\n");
}

#[test]
fn reopen_restores_open_and_drops_the_date() {
    let done = transition(OPEN, StateCmd::Done, "2026-09-09").ok().unwrap();
    let back = transition(&done, StateCmd::Reopen, "2026-09-10").ok().unwrap();
    assert_eq!(back, OPEN);
}

#[test]
fn reopen_rewrites_the_status_line() {
    let text = "---\ntype: todo\nstatus: done\n---\n";
    let t = transition(text, StateCmd::Reopen, "x").ok().unwrap();
    assert_eq!(t, "---\ntype: todo\nstatus: open\n---\n");
}

#[test]
fn refusals_have_their_reasons() {
    assert!(matches!(transition("no block", StateCmd::Done, "d"), Err(StateError::MissingBlock)));
    assert!(matches!(transition("---\nbad line\n---\n", StateCmd::Done, "d"), Err(StateError::Parse(_))));
    assert!(matches!(transition("---\ntype: note\n---\n", StateCmd::Done, "d"), Err(StateError::NotTodo)));
    assert!(matches!(
        transition("---\ntype: todo\nstatus: done\n---\n", StateCmd::Done, "d"),
        Err(StateError::AlreadyDone)
    ));
    assert!(matches!(transition(OPEN, StateCmd::Reopen, "d"), Err(StateError::NotDone)));
}

#[test]
fn refusal_messages() {
    assert_eq!(refusal(&StateError::MissingBlock, "/v/todo/a.md"), "缺少 frontmatter 块: /v/todo/a.md");
    assert_eq!(refusal(&StateError::Parse("bad".to_string()), "/v/a.md"), "/v/a.md: bad");
    assert_eq!(refusal(&StateError::NotTodo, "p"), "不是 todo 条目（仅 todo 支持 done / reopen）");
    assert_eq!(refusal(&StateError::AlreadyDone, "p"), "该条目已经是 done 状态");
    assert_eq!(refusal(&StateError::NotDone, "p"), "该条目不是 done 状态");
}

#[test]
fn change_messages() {
    assert_eq!(changed(StateCmd::Done, "/v/todo/a.md", "2026-09-09"), "/v/todo/a.md -> done (2026-09-09)");
    assert_eq!(changed(StateCmd::Reopen, "/v/todo/a.md", "x"), "/v/todo/a.md -> open（已删除 done 日期）");
}

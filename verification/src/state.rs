//! The todo state machine: `done` marks an open todo done and dates it,
//! `reopen` makes a done todo open again and drops its date. Only the front
//! matter lines that carry the state are touched.
use vstd::prelude::*;
use crate::frontmatter::{parse_fm, parse_fm_spec, split_fm_chars, split_fm_spec, FmView};
use crate::text::{
    append_str,
    cat,
    chars_of,
    eq_str,
    find_from,
    is_lit,
    join,
    lemma_first_index,
    line_key,
    lines,
    lines_of,
    slice_of,
    string_of,
    trim_chars,
};

verus! {

/// The two transitions of a todo.
#[derive(Clone, Copy, PartialEq, Eq)]
pub enum StateCmd {
    Done,
    Reopen,
}

/// Why a transition was refused.
#[derive(Debug)]
pub enum StateError {
    /// The entry has no front matter block.
    MissingBlock,
    /// The front matter does not parse; the message says why.
    Parse(String),
    /// Only todo entries have a state.
    NotTodo,
    /// `done` on a todo that is done already.
    AlreadyDone,
    /// `reopen` on a todo that is not done.
    NotDone,
}

// ------------------------------------------------------------------ line model

/// The line `l` is a `k: …` line.
pub open spec fn key_is(l: Seq<char>, k: Seq<char>) -> bool {
    line_key(l) == Some(k)
}

/// Index of the first `k: …` line, or `ls.len()`.
pub open spec fn first_key(ls: Seq<Seq<char>>, k: Seq<char>) -> int
    decreases ls.len(),
{
    if ls.len() == 0 {
        0
    } else if key_is(ls[0], k) {
        0
    } else {
        1 + first_key(ls.drop_first(), k)
    }
}

pub open spec fn has_key(ls: Seq<Seq<char>>, k: Seq<char>) -> bool {
    exists|i: int| 0 <= i < ls.len() && key_is(#[trigger] ls[i], k)
}

/// Just after the first `k: …` line, or `dflt` when there is none.
pub open spec fn after_key(ls: Seq<Seq<char>>, k: Seq<char>, dflt: int) -> int {
    let i = first_key(ls, k);
    if i < ls.len() {
        i + 1
    } else {
        dflt
    }
}

pub open spec fn insert_at(ls: Seq<Seq<char>>, i: int, l: Seq<char>) -> Seq<Seq<char>> {
    ls.take(i) + seq![l] + ls.skip(i)
}

/// Every `status: …` line replaced by `line`.
pub open spec fn set_status(ls: Seq<Seq<char>>, line: Seq<char>) -> Seq<Seq<char>> {
    Seq::new(ls.len(), |i: int| if key_is(ls[i], "status"@) { line } else { ls[i] })
}

/// Every `done: …` line replaced by `line`.
pub open spec fn set_done(ls: Seq<Seq<char>>, line: Seq<char>) -> Seq<Seq<char>> {
    Seq::new(ls.len(), |i: int| if key_is(ls[i], "done"@) { line } else { ls[i] })
}

/// The `done: …` lines left out.
pub open spec fn drop_done(ls: Seq<Seq<char>>) -> Seq<Seq<char>>
    decreases ls.len(),
{
    if ls.len() == 0 {
        Seq::empty()
    } else if key_is(ls.last(), "done"@) {
        drop_done(ls.drop_last())
    } else {
        drop_done(ls.drop_last()).push(ls.last())
    }
}

pub open spec fn status_line(v: Seq<char>) -> Seq<char> {
    "status: "@ + v
}

pub open spec fn done_line(day: Seq<char>) -> Seq<char> {
    "done: "@ + day
}

/// Front matter lines after `done`: every status line says `done` (one is
/// added after the type line when there is none), and every done line says
/// `done: <day>` (one is added after the first status line when there is
/// none).
pub open spec fn done_lines(ls: Seq<Seq<char>>, day: Seq<char>) -> Seq<Seq<char>> {
    let r1 = set_status(ls, status_line("done"@));
    let r2 = if has_key(ls, "status"@) {
        r1
    } else {
        insert_at(r1, after_key(r1, "type"@, 0), status_line("done"@))
    };
    if has_key(ls, "done"@) {
        set_done(r2, done_line(day))
    } else {
        insert_at(r2, after_key(r2, "status"@, r2.len() as int), done_line(day))
    }
}

/// Front matter lines after `reopen`: done lines dropped, every status line
/// says `open` (one is added after the type line when there is none).
pub open spec fn reopen_lines(ls: Seq<Seq<char>>) -> Seq<Seq<char>> {
    let r1 = set_status(drop_done(ls), status_line("open"@));
    if has_key(ls, "status"@) {
        r1
    } else {
        insert_at(r1, after_key(r1, "type"@, 0), status_line("open"@))
    }
}

/// An entry written back from its front matter lines and its body.
pub open spec fn entry_text(ls: Seq<Seq<char>>, body: Seq<char>) -> Seq<char> {
    "---\n"@ + join(ls, "\n"@) + "\n---\n"@ + body
}

pub open spec fn is_done_fm(fm: FmView) -> bool {
    fm.status == Some("done"@)
}

/// The text after a transition, when the transition is allowed.
pub open spec fn transition_spec(text: Seq<char>, cmd: StateCmd, day: Seq<char>) -> Option<
    Seq<char>,
> {
    match (split_fm_spec(text), parse_fm_spec(text)) {
        (Some((block, body)), Ok(fm)) => {
            if fm.type_ != "todo"@ {
                None
            } else if cmd == StateCmd::Done {
                if is_done_fm(fm) {
                    None
                } else {
                    Some(entry_text(done_lines(lines(block), day), body))
                }
            } else if !is_done_fm(fm) {
                None
            } else {
                Some(entry_text(reopen_lines(lines(block)), body))
            }
        },
        _ => None,
    }
}

// ------------------------------------------------------------------ exec

/// The key of a `key: value` line, if it has one.
pub fn key_of(l: &[char]) -> (r: Option<Vec<char>>)
    ensures
        match (r, line_key(l@)) {
            (Some(k), Some(m)) => k@ == m,
            (None, None) => true,
            _ => false,
        },
{
    let i = find_from(l, ':', 0);
    proof {
        assert(l@.skip(0) =~= l@);
        lemma_first_index(l@, ':');
    }
    if i == l.len() {
        None
    } else {
        let k = slice_of(l, 0, i);
        proof {
            assert(l@.take(i as int) =~= k@);
        }
        Some(trim_chars(&k))
    }
}

pub fn is_key(l: &[char], k: &str) -> (b: bool)
    ensures
        b == key_is(l@, k@),
{
    match key_of(l) {
        Some(x) => is_lit(&x, k),
        None => false,
    }
}

fn first_key_exec(ls: &Vec<Vec<char>>, k: &str) -> (r: usize)
    ensures
        r == first_key(ls.deep_view(), k@),
        r <= ls@.len(),
{
    let ghost lv = ls.deep_view();
    let mut i: usize = 0;
    assert(lv.skip(0) =~= lv);
    while i < ls.len()
        invariant
            i <= ls@.len(),
            lv == ls.deep_view(),
            first_key(lv, k@) == i + first_key(lv.skip(i as int), k@),
        decreases ls@.len() - i,
    {
        proof {
            assert(ls@[i as int].deep_view() =~= ls@[i as int]@);
            assert(lv.skip(i as int)[0] == lv[i as int]);
        }
        if is_key(ls[i].as_slice(), k) {
            return i;
        }
        proof {
            assert(lv.skip(i as int).drop_first() =~= lv.skip(i + 1));
        }
        i += 1;
    }
    i
}

fn insert_line(ls: &mut Vec<Vec<char>>, at: usize, l: Vec<char>)
    requires
        at <= old(ls)@.len(),
    ensures
        final(ls).deep_view() == insert_at(old(ls).deep_view(), at as int, l@),
{
    let ghost before = ls.deep_view();
    ls.insert(at, l);
    proof {
        assert(l.deep_view() =~= l@);
        assert(ls.deep_view() =~= insert_at(before, at as int, l@));
    }
}

fn copy_chars(v: &[char]) -> (r: Vec<char>)
    ensures
        r@ == v@,
{
    slice_of(v, 0, v.len())
}

/// The lines of `ls` joined by `\n`.
pub fn join_lines(ls: &Vec<Vec<char>>) -> (r: String)
    ensures
        r@ == join(ls.deep_view(), "\n"@),
{
    let ghost lv = ls.deep_view();
    let mut r = String::new();
    let mut i: usize = 0;
    while i < ls.len()
        invariant
            i <= ls@.len(),
            lv == ls.deep_view(),
            r@ == join(lv.take(i as int), "\n"@),
        decreases ls@.len() - i,
    {
        proof {
            assert(lv.take(i + 1).drop_last() =~= lv.take(i as int));
            assert(ls@[i as int].deep_view() =~= ls@[i as int]@);
        }
        if i > 0 {
            append_str(&mut r, "\n");
        }
        let l = string_of(ls[i].as_slice());
        append_str(&mut r, l.as_str());
        proof {
            if i == 0 {
                assert(lv.take(1) =~= seq![lv[0]]);
                assert(r@ =~= lv[0]);
            }
        }
        i += 1;
    }
    proof {
        assert(lv.take(lv.len() as int) =~= lv);
    }
    r
}

/// Applies `done` or `reopen` to the text of an entry: the new text, or why
/// the transition is refused. `day` is the date written into `done:`.
pub fn transition(text: &str, cmd: StateCmd, day: &str) -> (r: Result<String, StateError>)
    ensures
        match r {
            Ok(t) => transition_spec(text@, cmd, day@) == Some(t@),
            Err(StateError::MissingBlock) => split_fm_spec(text@) is None,
            Err(StateError::Parse(m)) => split_fm_spec(text@) is Some && parse_fm_spec(text@)
                == Err::<FmView, Seq<char>>(m@),
            Err(StateError::NotTodo) => split_fm_spec(text@) is Some && (parse_fm_spec(text@) matches Ok(fm)
                && fm.type_ != "todo"@),
            Err(StateError::AlreadyDone) => cmd == StateCmd::Done && split_fm_spec(text@) is Some
                && (parse_fm_spec(text@) matches Ok(fm) && fm.type_ == "todo"@ && is_done_fm(fm)),
            Err(StateError::NotDone) => cmd == StateCmd::Reopen && split_fm_spec(text@) is Some
                && (parse_fm_spec(text@) matches Ok(fm) && fm.type_ == "todo"@ && !is_done_fm(fm)),
        },
        r is Ok <==> transition_spec(text@, cmd, day@) is Some,
{
    let v = chars_of(text);
    let (block, body) = match split_fm_chars(&v) {
        Some(p) => p,
        None => {
            return Err(StateError::MissingBlock);
        },
    };
    let parsed = match parse_fm(text) {
        Ok(p) => p,
        Err(e) => {
            return Err(StateError::Parse(e));
        },
    };
    if !eq_str(parsed.type_.as_str(), "todo") {
        return Err(StateError::NotTodo);
    }
    let is_done = match &parsed.status {
        Some(s) => eq_str(s.as_str(), "done"),
        None => false,
    };
    let ls = lines_of(&block);
    let ghost lv = ls.deep_view();
    let out = match cmd {
        StateCmd::Done => {
            if is_done {
                return Err(StateError::AlreadyDone);
            }
            done_exec(&ls, day)
        },
        StateCmd::Reopen => {
            if !is_done {
                return Err(StateError::NotDone);
            }
            reopen_exec(&ls)
        },
    };
    let mut t = String::from_str("---\n");
    let j = join_lines(&out);
    append_str(&mut t, j.as_str());
    append_str(&mut t, "\n---\n");
    append_str(&mut t, string_of(&body).as_str());
    Ok(t)
}

fn done_exec(ls: &Vec<Vec<char>>, day: &str) -> (out: Vec<Vec<char>>)
    ensures
        out.deep_view() == done_lines(ls.deep_view(), day@),
{
    let ghost lv = ls.deep_view();
    let sline = chars_of(cat("status: ", "done").as_str());
    let mut out: Vec<Vec<char>> = Vec::new();
    let mut status_seen = false;
    let mut done_seen = false;
    let mut i: usize = 0;
    assert(out.deep_view() =~= set_status(lv.take(0), sline@));
    while i < ls.len()
        invariant
            i <= ls@.len(),
            lv == ls.deep_view(),
            sline@ == status_line("done"@),
            out.deep_view() == set_status(lv.take(i as int), sline@),
            out@.len() == i,
            status_seen == has_key(lv.take(i as int), "status"@),
            done_seen == has_key(lv.take(i as int), "done"@),
        decreases ls@.len() - i,
    {
        let ghost before = out.deep_view();
        proof {
            assert(ls@[i as int].deep_view() =~= ls@[i as int]@);
            assert(lv.take(i + 1)[i as int] == lv[i as int]);
            reveal_strlit("status");
            reveal_strlit("done");
        }
        if is_key(ls[i].as_slice(), "status") {
            out.push(copy_chars(sline.as_slice()));
            status_seen = true;
        } else {
            if is_key(ls[i].as_slice(), "done") {
                done_seen = true;
            }
            out.push(copy_chars(ls[i].as_slice()));
        }
        proof {
            let x = if key_is(lv[i as int], "status"@) { sline@ } else { lv[i as int] };
            let last = out@[i as int];
            assert(last.deep_view() =~= last@);
            assert(last@ == x);
            assert(out.deep_view() =~= before.push(x));
            assert(set_status(lv.take(i + 1), sline@) =~= set_status(lv.take(i as int), sline@).push(x));
            assert(has_key(lv.take(i + 1), "status"@) == (has_key(lv.take(i as int), "status"@)
                || key_is(lv[i as int], "status"@)));
            assert(has_key(lv.take(i + 1), "done"@) == (has_key(lv.take(i as int), "done"@)
                || key_is(lv[i as int], "done"@)));
        }
        i += 1;
    }
    assert(lv.take(lv.len() as int) =~= lv);
    if !status_seen {
        let at = first_key_exec(&out, "type");
        let at = if at < out.len() {
            at + 1
        } else {
            0
        };
        insert_line(&mut out, at, copy_chars(sline.as_slice()));
    }
    let dl = chars_of(cat("done: ", day).as_str());
    if !done_seen {
        let at = first_key_exec(&out, "status");
        let at = if at < out.len() {
            at + 1
        } else {
            out.len()
        };
        insert_line(&mut out, at, dl);
        out
    } else {
        redate(&out, &dl)
    }
}

/// Every `done: …` line of `ls` replaced by `dl`.
fn redate(ls: &Vec<Vec<char>>, dl: &Vec<char>) -> (out: Vec<Vec<char>>)
    ensures
        out.deep_view() == set_done(ls.deep_view(), dl@),
{
    let ghost lv = ls.deep_view();
    let mut out: Vec<Vec<char>> = Vec::new();
    let mut i: usize = 0;
    while i < ls.len()
        invariant
            i <= ls@.len(),
            lv == ls.deep_view(),
            out@.len() == i,
            forall|j: int| 0 <= j < i ==> #[trigger] out.deep_view()[j] == set_done(lv, dl@)[j],
        decreases ls@.len() - i,
    {
        proof {
            assert(ls@[i as int].deep_view() =~= ls@[i as int]@);
            reveal_strlit("done");
        }
        let ghost before = out.deep_view();
        if is_key(ls[i].as_slice(), "done") {
            out.push(copy_chars(dl.as_slice()));
        } else {
            out.push(copy_chars(ls[i].as_slice()));
        }
        proof {
            let last = out@[i as int];
            assert(last.deep_view() =~= last@);
            assert forall|j: int| 0 <= j <= i implies #[trigger] out.deep_view()[j] == set_done(lv, dl@)[j] by {
                if j < i {
                    assert(out.deep_view()[j] == before[j]);
                }
            }
        }
        i += 1;
    }
    assert(out.deep_view() =~= set_done(lv, dl@));
    out
}

fn reopen_exec(ls: &Vec<Vec<char>>) -> (out: Vec<Vec<char>>)
    ensures
        out.deep_view() == reopen_lines(ls.deep_view()),
{
    let ghost lv = ls.deep_view();
    let sline = chars_of(cat("status: ", "open").as_str());
    let mut kept: Vec<Vec<char>> = Vec::new();
    let mut out: Vec<Vec<char>> = Vec::new();
    let mut status_seen = false;
    let mut i: usize = 0;
    assert(out.deep_view() =~= set_status(drop_done(lv.take(0)), sline@));
    assert(kept.deep_view() =~= drop_done(lv.take(0)));
    while i < ls.len()
        invariant
            i <= ls@.len(),
            lv == ls.deep_view(),
            sline@ == status_line("open"@),
            kept.deep_view() == drop_done(lv.take(i as int)),
            out@.len() == kept@.len(),
            out.deep_view() == set_status(kept.deep_view(), sline@),
            status_seen == has_key(lv.take(i as int), "status"@),
        decreases ls@.len() - i,
    {
        proof {
            assert(ls@[i as int].deep_view() =~= ls@[i as int]@);
            assert(lv.take(i + 1)[i as int] == lv[i as int]);
            assert(lv.take(i + 1).drop_last() =~= lv.take(i as int));
            assert(has_key(lv.take(i + 1), "status"@) == (has_key(lv.take(i as int), "status"@)
                || key_is(lv[i as int], "status"@)));
        }
        proof {
            reveal_strlit("status");
            reveal_strlit("done");
        }
        let ghost kb = kept.deep_view();
        let ghost ob = out.deep_view();
        if is_key(ls[i].as_slice(), "status") {
            kept.push(copy_chars(ls[i].as_slice()));
            out.push(copy_chars(sline.as_slice()));
            status_seen = true;
        } else if is_key(ls[i].as_slice(), "done") {
        } else {
            kept.push(copy_chars(ls[i].as_slice()));
            out.push(copy_chars(ls[i].as_slice()));
        }
        proof {
            assert(lv.take(i + 1).last() == lv[i as int]);
            assert(drop_done(lv.take(i + 1)) == if key_is(lv[i as int], "done"@) {
                drop_done(lv.take(i as int))
            } else {
                drop_done(lv.take(i as int)).push(lv[i as int])
            });
            reveal_strlit("status");
            reveal_strlit("done");
            assert("status"@.len() == 6);
            assert("done"@.len() == 4);
            assert("status"@ != "done"@);
            assert(kept@.len() > kb.len() <==> !key_is(lv[i as int], "done"@));
            if kept@.len() > kb.len() {
                let a = kept@[kb.len() as int];
                assert(a.deep_view() =~= a@);
                let b = out@[ob.len() as int];
                assert(b.deep_view() =~= b@);
                assert(kept.deep_view() =~= kb.push(lv[i as int]));
                let y = if key_is(lv[i as int], "status"@) { sline@ } else { lv[i as int] };
                assert(out.deep_view() =~= ob.push(y));
                assert(set_status(kb.push(lv[i as int]), sline@) =~= set_status(kb, sline@).push(y));
            } else {
                assert(kept.deep_view() =~= kb);
            }
            assert(out.deep_view() =~= set_status(kept.deep_view(), sline@));
        }
        i += 1;
    }
    assert(lv.take(lv.len() as int) =~= lv);
    if !status_seen {
        let at = first_key_exec(&out, "type");
        let at = if at < out.len() {
            at + 1
        } else {
            0
        };
        insert_line(&mut out, at, copy_chars(sline.as_slice()));
    }
    out
}

// ------------------------------------------------------------------ messages

/// What `done` / `reopen` says when it refuses an entry at `path`.
pub open spec fn refusal_spec(e: StateError, path: Seq<char>) -> Seq<char> {
    match e {
        StateError::MissingBlock => "缺少 frontmatter 块: "@ + path,
        StateError::Parse(m) => path + ": "@ + m@,
        StateError::NotTodo => "不是 todo 条目（仅 todo 支持 done / reopen）"@,
        StateError::AlreadyDone => "该条目已经是 done 状态"@,
        StateError::NotDone => "该条目不是 done 状态"@,
    }
}

/// What `done` / `reopen` says when it refuses an entry at `path`.
pub fn refusal(e: &StateError, path: &str) -> (r: String)
    ensures
        r@ == refusal_spec(*e, path@),
{
    match e {
        StateError::MissingBlock => cat("缺少 frontmatter 块: ", path),
        StateError::Parse(m) => {
            let mut r = cat(path, ": ");
            append_str(&mut r, m.as_str());
            r
        },
        StateError::NotTodo => String::from_str("不是 todo 条目（仅 todo 支持 done / reopen）"),
        StateError::AlreadyDone => String::from_str("该条目已经是 done 状态"),
        StateError::NotDone => String::from_str("该条目不是 done 状态"),
    }
}

/// What `done` / `reopen` says after changing the entry at `path`.
pub open spec fn changed_spec(cmd: StateCmd, path: Seq<char>, day: Seq<char>) -> Seq<char> {
    match cmd {
        StateCmd::Done => path + " -> done ("@ + day + ")"@,
        StateCmd::Reopen => path + " -> open（已删除 done 日期）"@,
    }
}

/// What `done` / `reopen` says after changing the entry at `path`.
pub fn changed(cmd: StateCmd, path: &str, day: &str) -> (r: String)
    ensures
        r@ == changed_spec(cmd, path@, day@),
{
    match cmd {
        StateCmd::Done => {
            let mut r = cat(path, " -> done (");
            append_str(&mut r, day);
            append_str(&mut r, ")");
            r
        },
        StateCmd::Reopen => cat(path, " -> open（已删除 done 日期）"),
    }
}

} // verus!

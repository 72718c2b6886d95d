//! What the todo transitions guarantee of the front matter that is read back
//! afterwards, and the line-level facts those guarantees rest on.
use vstd::prelude::*;
use crate::frontmatter::{
    after_opening, closing_from, normalize, dashes, strip_bom, strip_one_newline,
    assign, dash_space, init_state, parse_fm_spec, run, split_fm_spec, step, strip_paired_quotes_spec,
    FmView, PState,
};
use crate::state::{after_key, first_key, has_key, insert_at, key_is, set_status, status_line, done_line};
use crate::text::{
    first_index, is_ws, join, lines, strip_cr, lemma_trim_strip_cr, lemma_first_index, lemma_first_index_unique, lemma_line_key_trim,
    lemma_trim_from_bounds, lemma_trim_start_ws_prefix, lemma_trim_ws_suffix, lemma_trim_end_len,
    line_key, split_once, starts_with, trim, trim_end, trim_shape, trim_start, trailing_ws as trailing_ws_pub,
};

verus! {

/// A value that reads back as itself after `key: ` on one line: no whitespace
/// at its ends, no pair of outer quotes, no line break.
pub open spec fn plain_value(v: Seq<char>) -> bool {
    &&& trim(v) == v
    &&& strip_paired_quotes_spec(v) == v
    &&& forall|i: int| 0 <= i < v.len() ==> v[i] != '\n'
}

/// The value of a `key: value` line as the parser reads it.
pub open spec fn line_value(l: Seq<char>) -> Seq<char> {
    match split_once(trim(l), ':') {
        Some((_, v)) => strip_paired_quotes_spec(trim(v)),
        None => Seq::empty(),
    }
}

/// `st` with its status (`which`) or done date (`!which`) replaced by `x`.
pub open spec fn ovr(st: PState, which: bool, x: Option<Seq<char>>) -> PState {
    if which {
        PState { fm: FmView { status: x, ..st.fm }, in_tags: st.in_tags }
    } else {
        PState { fm: FmView { done: x, ..st.fm }, in_tags: st.in_tags }
    }
}

pub open spec fn field(st: PState, which: bool) -> Option<Seq<char>> {
    if which {
        st.fm.status
    } else {
        st.fm.done
    }
}

pub open spec fn which_key(which: bool) -> Seq<char> {
    if which {
        "status"@
    } else {
        "done"@
    }
}

/// A trimmed, nonempty text starts and ends with non-whitespace.
proof fn lemma_trim_ends(s: Seq<char>)
    ensures
        trim(s).len() > 0 ==> !is_ws(trim(s)[0]) && !is_ws(trim(s).last()),
{
    let (lo, hi) = trim_shape(s);
    if lo < hi {
        assert(trim(s)[0] == s[lo]);
        assert(trim(s).last() == s[hi - 1]);
    }
}

/// A line whose key starts with something other than `-` is read as that key.
pub proof fn lemma_key_line_step(st: PState, l: Seq<char>, k: Seq<char>)
    requires
        key_is(l, k),
        k.len() > 0,
        k[0] != '-',
    ensures
        step(st, l) == Ok::<PState, Seq<char>>(assign(st.fm, k, line_value(l))),
{
    let t = trim(l);
    lemma_line_key_trim(l);
    lemma_first_index(t, ':');
    let j = first_index(t, ':');
    assert(j < t.len());
    let p = t.take(j);
    assert(trim(p) == k);
    lemma_trim_ends(l);
    if j == 0 {
        assert(p =~= Seq::<char>::empty());
        assert(trim_start(p) =~= Seq::<char>::empty());
    }
    assert(j > 0);
    assert(p[0] == t[0]);
    // trimming the key keeps its first character
    assert(trim_start(p) == p);
    lemma_trim_end_len(p);
    assert(k[0] == p[0]);
    if st.in_tags && starts_with(t, dash_space()) {
        assert(t.take(2)[0] == t[0]);
        assert(dash_space()[0] == '-');
        assert(false);
    }
}

/// A line without the key of `which` leaves that field alone, and reads the
/// same whatever that field holds.
pub proof fn lemma_step_ovr(st: PState, l: Seq<char>, which: bool, x: Option<Seq<char>>)
    requires
        !key_is(l, which_key(which)),
    ensures
        match step(st, l) {
            Ok(s2) => step(ovr(st, which, x), l) == Ok::<PState, Seq<char>>(ovr(s2, which, x))
                && field(s2, which) == field(st, which),
            Err(e) => step(ovr(st, which, x), l) == Err::<PState, Seq<char>>(e),
        },
{
    let t = trim(l);
    lemma_line_key_trim(l);
    reveal_strlit("status");
    reveal_strlit("done");
    reveal_strlit("type");
    reveal_strlit("title");
    reveal_strlit("created");
    reveal_strlit("due");
    reveal_strlit("tags");
}

/// `k: v` read back: the key `k` and the value `v`.
pub proof fn lemma_kv_line(st: PState, k: Seq<char>, v: Seq<char>)
    requires
        k.len() > 0,
        forall|i: int| 0 <= i < k.len() ==> k[i] != ':' && k[i] != '\n',
        !is_ws(k[0]),
        !is_ws(k.last()),
        k[0] != '-',
        plain_value(v),
    ensures
        key_is(k + seq![':', ' '] + v, k),
        line_value(k + seq![':', ' '] + v) == v,
        step(st, k + seq![':', ' '] + v) == Ok::<PState, Seq<char>>(assign(st.fm, k, v)),
        forall|i: int|
            0 <= i < (k + seq![':', ' '] + v).len() ==> (k + seq![':', ' '] + v)[i] != '\n',
        (k + seq![':', ' '] + v)[0] == k[0],
{
    let l = k + seq![':', ' '] + v;
    let n = k.len() as int;
    assert forall|i: int| 0 <= i < n implies l[i] != ':' by {
        assert(l[i] == k[i]);
    }
    assert(l[n] == ':');
    lemma_first_index_unique(l, ':', n);
    assert(l.take(n) =~= k);
    lemma_trim_from_bounds(k, 0, n);
    assert(k.subrange(0, n) =~= k);
    assert(line_key(l) == Some(k));
    assert forall|i: int| 0 <= i < l.len() implies l[i] != '\n' by {
        if i < n {
            assert(l[i] == k[i]);
        } else if i >= n + 2 {
            assert(l[i] == v[i - n - 2]);
        } else if i == n {
            assert(l[i] == ':');
        } else {
            assert(l[i] == ' ');
        }
    }
    // the value
    let (lo, hi) = trim_shape(l);
    assert(l[0] == k[0]);
    let t = trim(l);
    lemma_line_key_trim(l);
    if lo > 0 {
        assert(is_ws(l[0]));
    }
    assert(lo == 0);
    assert(hi > n) by {
        if hi <= n {
            assert(!is_ws(l[n - 1])) by {
                assert(l[n - 1] == k.last());
            }
        }
    }
    assert forall|i: int| 0 <= i < n implies t[i] != ':' by {
        assert(t[i] == l[i]);
    }
    assert(t[n] == ':');
    lemma_first_index_unique(t, ':', n);
    let after = t.skip(n + 1);
    let lafter = l.skip(n + 1);
    let w = l.skip(hi);
    assert(lafter =~= after + w);
    lemma_trim_ws_suffix(after, w);
    assert(lafter =~= seq![' '] + v);
    lemma_trim_start_ws_prefix(seq![' '], v);
    assert(trim(after) == v);
    assert(line_value(l) == v);
    lemma_key_line_step(st, l, k);
}

// ------------------------------------------------------------------ runs

/// One more line read.
pub proof fn lemma_run_take(ls: Seq<Seq<char>>, s: PState, i: int)
    requires
        0 <= i < ls.len(),
    ensures
        run(ls.take(i + 1), s) == match run(ls.take(i), s) {
            Ok(x) => step(x, ls[i]),
            Err(e) => Err(e),
        },
{
    assert(ls.take(i + 1).drop_last() =~= ls.take(i));
    assert(ls.take(i + 1).last() == ls[i]);
}

/// A reading that succeeds succeeds on every prefix.
pub proof fn lemma_run_prefix_ok(ls: Seq<Seq<char>>, s: PState, i: int)
    requires
        0 <= i <= ls.len(),
        run(ls, s) is Ok,
    ensures
        run(ls.take(i), s) is Ok,
    decreases ls.len() - i,
{
    if i == ls.len() {
        assert(ls.take(i) =~= ls);
    } else {
        lemma_run_prefix_ok(ls, s, i + 1);
        lemma_run_take(ls, s, i);
    }
}

pub open spec fn status_map(st: PState, v: Seq<char>) -> PState {
    ovr(st, true, if st.fm.status is Some { Some(v) } else { None })
}

pub proof fn lemma_status_line(st: PState, v: Seq<char>)
    requires
        plain_value(v),
    ensures
        key_is(status_line(v), "status"@),
        step(st, status_line(v)) == Ok::<PState, Seq<char>>(assign(st.fm, "status"@, v)),
        forall|i: int| 0 <= i < status_line(v).len() ==> status_line(v)[i] != '\n',
        status_line(v)[0] == 's',
{
    reveal_strlit("status: ");
    reveal_strlit("status");
    let k = "status"@;
    assert(status_line(v) =~= k + seq![':', ' '] + v);
    lemma_kv_line(st, k, v);
}

pub proof fn lemma_done_line(st: PState, v: Seq<char>)
    requires
        plain_value(v),
    ensures
        key_is(done_line(v), "done"@),
        step(st, done_line(v)) == Ok::<PState, Seq<char>>(assign(st.fm, "done"@, v)),
        forall|i: int| 0 <= i < done_line(v).len() ==> done_line(v)[i] != '\n',
        done_line(v)[0] == 'd',
{
    reveal_strlit("done: ");
    reveal_strlit("done");
    let k = "done"@;
    assert(done_line(v) =~= k + seq![':', ' '] + v);
    lemma_kv_line(st, k, v);
}

/// Reading the lines with every status line replaced by `status: v` gives what
/// reading the original lines gives, with `v` as the status wherever one was
/// set.
pub proof fn lemma_set_status_run(xs: Seq<Seq<char>>, s0: PState, v: Seq<char>, i: int)
    requires
        0 <= i <= xs.len(),
        plain_value(v),
        s0.fm.status is None,
    ensures
        match run(xs.take(i), s0) {
            Ok(s) => run(crate::state::set_status(xs, status_line(v)).take(i), s0) == Ok::<
                PState,
                Seq<char>,
            >(status_map(s, v)),
            Err(e) => run(crate::state::set_status(xs, status_line(v)).take(i), s0) == Err::<
                PState,
                Seq<char>,
            >(e),
        },
    decreases i,
{
    let ys = crate::state::set_status(xs, status_line(v));
    if i == 0 {
        assert(xs.take(0) =~= Seq::<Seq<char>>::empty());
        assert(ys.take(0) =~= Seq::<Seq<char>>::empty());
        assert(status_map(s0, v) == s0);
    } else {
        lemma_set_status_run(xs, s0, v, i - 1);
        lemma_run_take(xs, s0, i - 1);
        lemma_run_take(ys, s0, i - 1);
        let l = xs[i - 1];
        match run(xs.take(i - 1), s0) {
            Ok(s) => {
                reveal_strlit("status");
                reveal_strlit("type");
                reveal_strlit("title");
                reveal_strlit("created");
                if key_is(l, "status"@) {
                    assert(ys[i - 1] == status_line(v));
                    lemma_key_line_step(s, l, "status"@);
                    lemma_status_line(status_map(s, v), v);
                    let x = assign(s.fm, "status"@, line_value(l));
                    assert(run(xs.take(i), s0) == Ok::<PState, Seq<char>>(x));
                    assert(run(ys.take(i), s0) == step(status_map(s, v), status_line(v)));
                    lemma_key_literals();
                    assert(assign(status_map(s, v).fm, "status"@, v) == PState { fm: FmView { status: Some(v), ..status_map(s, v).fm }, in_tags: false });
                    assert(assign(status_map(s, v).fm, "status"@, v) == status_map(x, v));
                } else {
                    assert(ys[i - 1] == l);
                    lemma_step_ovr(s, l, true, if s.fm.status is Some { Some(v) } else { None });
                    assert(run(ys.take(i), s0) == step(status_map(s, v), l));
                }
            },
            Err(e) => {},
        }
    }
}

pub open spec fn done_map(st: PState, v: Seq<char>) -> PState {
    ovr(st, false, if st.fm.done is Some { Some(v) } else { None })
}

/// Reading the lines with every done line replaced by `done: v` gives what
/// reading the original lines gives, with `v` as the done date wherever one
/// was set.
proof fn lemma_set_done_run(xs: Seq<Seq<char>>, s0: PState, v: Seq<char>, i: int)
    requires
        0 <= i <= xs.len(),
        plain_value(v),
        s0.fm.done is None,
    ensures
        match run(xs.take(i), s0) {
            Ok(s) => run(crate::state::set_done(xs, done_line(v)).take(i), s0) == Ok::<
                PState,
                Seq<char>,
            >(done_map(s, v)),
            Err(e) => run(crate::state::set_done(xs, done_line(v)).take(i), s0) == Err::<
                PState,
                Seq<char>,
            >(e),
        },
    decreases i,
{
    let ys = crate::state::set_done(xs, done_line(v));
    if i == 0 {
        assert(xs.take(0) =~= Seq::<Seq<char>>::empty());
        assert(ys.take(0) =~= Seq::<Seq<char>>::empty());
        assert(done_map(s0, v) == s0);
    } else {
        lemma_set_done_run(xs, s0, v, i - 1);
        lemma_run_take(xs, s0, i - 1);
        lemma_run_take(ys, s0, i - 1);
        let l = xs[i - 1];
        match run(xs.take(i - 1), s0) {
            Ok(s) => {
                reveal_strlit("done");
                reveal_strlit("status");
                reveal_strlit("type");
                reveal_strlit("title");
                reveal_strlit("created");
                if key_is(l, "done"@) {
                    assert(ys[i - 1] == done_line(v));
                    lemma_key_line_step(s, l, "done"@);
                    lemma_done_line(done_map(s, v), v);
                    let x = assign(s.fm, "done"@, line_value(l));
                    assert(run(xs.take(i), s0) == Ok::<PState, Seq<char>>(x));
                    assert(run(ys.take(i), s0) == step(done_map(s, v), done_line(v)));
                    lemma_key_literals();
                    assert(assign(done_map(s, v).fm, "done"@, v) == PState { fm: FmView { done: Some(v), ..done_map(s, v).fm }, in_tags: false });
                    assert(assign(done_map(s, v).fm, "done"@, v) == done_map(x, v));
                } else {
                    assert(ys[i - 1] == l);
                    lemma_step_ovr(s, l, false, if s.fm.done is Some { Some(v) } else { None });
                    assert(run(ys.take(i), s0) == step(done_map(s, v), l));
                }
            },
            Err(e) => {},
        }
    }
}

/// The keys the parser knows are distinct, and none starts with `-`.
pub proof fn lemma_key_literals()
    ensures
        "status"@ != "type"@,
        "status"@ != "title"@,
        "status"@ != "created"@,
        "status"@ != "done"@,
        "status"@ != "due"@,
        "status"@ != "tags"@,
        "done"@ != "type"@,
        "done"@ != "title"@,
        "done"@ != "created"@,
        "done"@ != "due"@,
        "done"@ != "tags"@,
        "type"@ != "title"@,
        "type"@ != "created"@,
        "type"@ != "due"@,
        "type"@ != "tags"@,
        "status"@.len() > 0 && "status"@[0] == 's',
        "done"@.len() > 0 && "done"@[0] == 'd',
        "type"@.len() > 0 && "type"@[0] == 't',
        "todo"@ != "thought"@,
        "todo"@ != "idea"@,
        "type"@[0] != '-',
{

    reveal_strlit("status");
    reveal_strlit("done");
    reveal_strlit("type");
    reveal_strlit("title");
    reveal_strlit("created");
    reveal_strlit("due");
    reveal_strlit("tags");
    reveal_strlit("todo");
    reveal_strlit("thought");
    assert("status"@.len() == 6);
    assert("done"@.len() == 4);
    assert("type"@.len() == 4);
    assert("title"@.len() == 5);
    assert("created"@.len() == 7);
    assert("due"@.len() == 3);
    assert("tags"@.len() == 4);
    assert("todo"@.len() == 4);
    assert("thought"@.len() == 7);
    assert("done"@[0] != "type"@[0]);
    assert("done"@[0] != "tags"@[0]);
    assert("type"@[1] != "tags"@[1]);
    reveal_strlit("idea");
    assert("idea"@.len() == 4);
    assert("idea"@[0] != "todo"@[0]);
}

pub open spec fn kv_line(which: bool, w: Seq<char>) -> Seq<char> {
    if which {
        status_line(w)
    } else {
        done_line(w)
    }
}

proof fn lemma_kv_line_step(st: PState, which: bool, w: Seq<char>)
    requires
        plain_value(w),
    ensures
        key_is(kv_line(which, w), which_key(which)),
        !st.in_tags ==> step(st, kv_line(which, w)) == Ok::<PState, Seq<char>>(ovr(st, which, Some(w))),
        forall|i: int| 0 <= i < kv_line(which, w).len() ==> kv_line(which, w)[i] != '\n',
        kv_line(which, w)[0] != '-',
{
    lemma_key_literals();
    if which {
        lemma_status_line(st, w);
    } else {
        lemma_done_line(st, w);
    }
}

/// Reading the lines with a `status`/`done` line inserted where no tag list is
/// open, and no such line after it, gives what reading the original lines
/// gives, with the inserted value in that field.
pub proof fn lemma_insert_run(
    xs: Seq<Seq<char>>,
    s0: PState,
    p: int,
    which: bool,
    w: Seq<char>,
    j: int,
)
    requires
        0 <= p <= j <= xs.len(),
        run(xs.take(p), s0) matches Ok(s) && !s.in_tags,
        forall|m: int| p <= m < xs.len() ==> !key_is(#[trigger] xs[m], which_key(which)),
        plain_value(w),
    ensures
        match run(xs.take(j), s0) {
            Ok(s) => run(crate::state::insert_at(xs, p, kv_line(which, w)).take(j + 1), s0)
                == Ok::<PState, Seq<char>>(ovr(s, which, Some(w))),
            Err(e) => run(crate::state::insert_at(xs, p, kv_line(which, w)).take(j + 1), s0)
                == Err::<PState, Seq<char>>(e),
        },
    decreases j - p,
{
    let l = kv_line(which, w);
    let ins = crate::state::insert_at(xs, p, l);
    assert(ins.take(p) =~= xs.take(p));
    assert(ins[p] == l);
    lemma_run_take(ins, s0, p);
    if j == p {
        let s = run(xs.take(p), s0)->Ok_0;
        lemma_kv_line_step(s, which, w);
    } else {
        lemma_insert_run(xs, s0, p, which, w, j - 1);
        lemma_run_take(xs, s0, j - 1);
        lemma_run_take(ins, s0, j);
        assert(ins[j] == xs[j - 1]);
        match run(xs.take(j - 1), s0) {
            Ok(s) => {
                lemma_step_ovr(s, xs[j - 1], which, Some(w));
            },
            Err(e) => {},
        }
    }
}

/// A field is set exactly when a line with its key was read.
pub proof fn lemma_presence(xs: Seq<Seq<char>>, s0: PState, i: int, which: bool)
    requires
        0 <= i <= xs.len(),
        field(s0, which) is None,
    ensures
        run(xs.take(i), s0) matches Ok(s) ==> (field(s, which) is Some <==> crate::state::has_key(
            xs.take(i),
            which_key(which),
        )),
    decreases i,
{
    let k = which_key(which);
    if i == 0 {
        assert(xs.take(0) =~= Seq::<Seq<char>>::empty());
    } else {
        lemma_presence(xs, s0, i - 1, which);
        lemma_run_take(xs, s0, i - 1);
        let l = xs[i - 1];
        assert(xs.take(i)[i - 1] == l);
        assert forall|m: int| 0 <= m < i - 1 implies xs.take(i)[m] == xs.take(i - 1)[m] by {}
        if key_is(l, k) {
            assert(crate::state::has_key(xs.take(i), k));
            match run(xs.take(i - 1), s0) {
                Ok(s) => {
                    lemma_key_literals();
                    lemma_key_line_step(s, l, k);
                },
                Err(_) => {},
            }
        } else {
            assert(crate::state::has_key(xs.take(i), k) == crate::state::has_key(xs.take(i - 1), k))
                by {
                if crate::state::has_key(xs.take(i), k) {
                    let m = choose|m: int| 0 <= m < i && key_is(#[trigger] xs.take(i)[m], k);
                    assert(m < i - 1);
                    assert(xs.take(i - 1)[m] == xs.take(i)[m]);
                }
                if crate::state::has_key(xs.take(i - 1), k) {
                    let m = choose|m: int| 0 <= m < i - 1 && key_is(#[trigger] xs.take(i - 1)[m], k);
                    assert(xs.take(i)[m] == xs.take(i - 1)[m]);
                }
            }
            match run(xs.take(i - 1), s0) {
                Ok(s) => {
                    lemma_step_ovr(s, l, which, None);
                },
                Err(_) => {},
            }
        }
    }
}

// ------------------------------------------------------------------ texts

/// Lines each followed by a newline.
pub open spec fn unlines(ls: Seq<Seq<char>>) -> Seq<char>
    decreases ls.len(),
{
    if ls.len() == 0 {
        Seq::empty()
    } else {
        unlines(ls.drop_last()) + ls.last() + seq!['\n']
    }
}

pub open spec fn no_newline(l: Seq<char>) -> bool {
    forall|i: int| 0 <= i < l.len() ==> l[i] != '\n'
}

/// Lines that can stand inside a front matter block.
pub open spec fn block_lines(ls: Seq<Seq<char>>) -> bool {
    forall|i: int| 0 <= i < ls.len() ==> no_newline(#[trigger] ls[i]) && trim_end(ls[i]) != dashes()
}

pub proof fn lemma_join_unlines(ls: Seq<Seq<char>>)
    requires
        ls.len() > 0,
    ensures
        join(ls, "\n"@) + seq!['\n'] == unlines(ls),
    decreases ls.len(),
{
    reveal_strlit("\n");
    if ls.len() == 1 {
        assert(ls.drop_last() =~= Seq::<Seq<char>>::empty());
        assert(unlines(ls.drop_last()) =~= Seq::<char>::empty());
        assert(unlines(ls) =~= ls[0] + seq!['\n']);
    } else {
        lemma_join_unlines(ls.drop_last());
        assert(join(ls, "\n"@) + seq!['\n'] =~= (join(ls.drop_last(), "\n"@) + seq!['\n']) + ls.last() + seq!['\n']);
    }
}

pub proof fn lemma_unlines_front(ls: Seq<Seq<char>>)
    requires
        ls.len() > 0,
    ensures
        unlines(ls) == ls[0] + seq!['\n'] + unlines(ls.drop_first()),
    decreases ls.len(),
{
    if ls.len() == 1 {
        assert(ls.drop_last() =~= Seq::<Seq<char>>::empty());
        assert(ls.drop_first() =~= Seq::<Seq<char>>::empty());
        assert(unlines(ls.drop_last()) =~= Seq::<char>::empty());
        assert(unlines(ls.drop_first()) =~= Seq::<char>::empty());
        assert(ls.last() == ls[0]);
        assert(unlines(ls) =~= ls[0] + seq!['\n'] + unlines(ls.drop_first()));
    } else {
        lemma_unlines_front(ls.drop_last());
        assert(ls.drop_last().drop_first() =~= ls.drop_first().drop_last());
        assert(ls.drop_first().last() == ls.last());
        assert(unlines(ls) =~= ls[0] + seq!['\n'] + unlines(ls.drop_first()));
    }
}

/// The line before the first newline, and the text after it.
proof fn lemma_lines_cons(l: Seq<char>, rest: Seq<char>)
    requires
        no_newline(l),
    ensures
        lines(l + seq!['\n'] + rest) == seq![strip_cr(l)] + lines(rest),
{
    let s = l + seq!['\n'] + rest;
    assert forall|j: int| 0 <= j < l.len() implies s[j] != '\n' by {
        assert(s[j] == l[j]);
    }
    assert(s[l.len() as int] == '\n');
    lemma_first_index_unique(s, '\n', l.len() as int);
    assert(s.take(l.len() as int) =~= l);
    assert(s.skip(l.len() as int + 1) =~= rest);
}

pub proof fn lemma_lines_unlines(ls: Seq<Seq<char>>)
    requires
        forall|i: int| 0 <= i < ls.len() ==> no_newline(#[trigger] ls[i]),
    ensures
        lines(unlines(ls)) == Seq::new(ls.len(), |i: int| strip_cr(ls[i])),
    decreases ls.len(),
{
    if ls.len() == 0 {
        assert(lines(Seq::<char>::empty()) =~= Seq::<Seq<char>>::empty());
        assert(Seq::new(0, |i: int| strip_cr(ls[i])) =~= Seq::<Seq<char>>::empty());
    } else {
        lemma_unlines_front(ls);
        let t = ls.drop_first();
        assert forall|i: int| 0 <= i < t.len() implies no_newline(#[trigger] t[i]) by {
            assert(t[i] == ls[i + 1]);
        }
        lemma_lines_unlines(t);
        assert(no_newline(ls[0]));
        lemma_lines_cons(ls[0], unlines(t));
        assert(Seq::new(ls.len(), |i: int| strip_cr(ls[i])) =~= seq![strip_cr(ls[0])] + Seq::new(
            t.len(),
            |i: int| strip_cr(t[i]),
        ));
    }
}

/// Reading is blind to a `\r` at the end of a line.
pub proof fn lemma_run_strip_cr(ls: Seq<Seq<char>>, s: PState)
    ensures
        run(Seq::new(ls.len(), |i: int| strip_cr(ls[i])), s) == run(ls, s),
    decreases ls.len(),
{
    let ys = Seq::new(ls.len(), |i: int| strip_cr(ls[i]));
    if ls.len() > 0 {
        assert(ys.drop_last() =~= Seq::new(ls.drop_last().len(), |i: int| strip_cr(ls.drop_last()[i])));
        lemma_run_strip_cr(ls.drop_last(), s);
        lemma_trim_strip_cr(ls.last());
        assert(ys.last() == strip_cr(ls.last()));
    }
}

/// Looking for the closing line past a prefix.
pub proof fn lemma_closing_shift(p: Seq<char>, t: Seq<char>, off: int)
    requires
        0 <= off,
    ensures
        closing_from(p + t, p.len() + off) == match closing_from(t, off) {
            Some(e) => Some(e + p.len()),
            None => None,
        },
    decreases t.len() - off,
{
    let a = p + t;
    let o = p.len() + off;
    if off < t.len() {
        assert(a.skip(o) =~= t.skip(off));
        let n = first_index(t.skip(off), '\n');
        lemma_first_index(t.skip(off), '\n');
        if off + n < t.len() {
            assert(a.subrange(o, o + n) =~= t.subrange(off, off + n));
            lemma_closing_shift(p, t, off + n + 1);
        }
    }
}

pub proof fn lemma_closing_unlines(ls: Seq<Seq<char>>, r: Seq<char>)
    requires
        block_lines(ls),
    ensures
        closing_from(unlines(ls) + r, 0) == match closing_from(r, 0) {
            Some(e) => Some(e + unlines(ls).len()),
            None => None,
        },
    decreases ls.len(),
{
    if ls.len() == 0 {
        assert(unlines(ls) + r =~= r);
    } else {
        lemma_unlines_front(ls);
        let t = ls.drop_first();
        assert(block_lines(t)) by {
            assert forall|i: int| 0 <= i < t.len() implies no_newline(#[trigger] t[i]) && trim_end(t[i]) != dashes() by {
                assert(t[i] == ls[i + 1]);
            }
        }
        lemma_closing_unlines(t, r);
        let l = ls[0];
        assert(no_newline(l) && trim_end(l) != dashes());
        let pre = l + seq!['\n'];
        let a = unlines(ls) + r;
        assert(a =~= pre + (unlines(t) + r));
        assert forall|j: int| 0 <= j < l.len() implies a.skip(0)[j] != '\n' by {
            assert(a.skip(0)[j] == l[j]);
        }
        assert(a.skip(0)[l.len() as int] == '\n');
        lemma_first_index_unique(a.skip(0), '\n', l.len() as int);
        assert(a.subrange(0, l.len() as int) =~= l);
        lemma_closing_shift(pre, unlines(t) + r, 0);
    }
}

/// The text of an entry rebuilt from block lines splits back into those lines
/// and the body.
pub proof fn lemma_split_rebuilt(ls: Seq<Seq<char>>, body: Seq<char>)
    requires
        ls.len() > 0,
        block_lines(ls),
    ensures
        split_fm_spec(crate::state::entry_text(ls, body)) == Some((unlines(ls), body)),
{
    reveal_strlit("---\n");
    reveal_strlit("\n---\n");
    lemma_join_unlines(ls);
    let u = unlines(ls);
    let r = dashes() + seq!['\n'] + body;
    let text = crate::state::entry_text(ls, body);
    assert(text =~= dashes() + seq!['\n'] + u + r);
    assert(strip_bom(text) == text);
    assert(text.take(3) =~= dashes());
    let rest = text.skip(3);
    assert(rest[0] == '\n');
    lemma_first_index_unique(rest, '\n', 0);
    assert(rest.take(0) =~= Seq::<char>::empty());
    let a = rest.skip(1);
    assert(a =~= u + r);
    assert(after_opening(text) == Some(a));
    // the closing line of `r`
    assert forall|j: int| 0 <= j < 3 implies r.skip(0)[j] != '\n' by {
        assert(r.skip(0)[j] == r[j]);
    }
    assert(r.skip(0)[3] == '\n');
    lemma_first_index_unique(r.skip(0), '\n', 3);
    assert(r.subrange(0, 3) =~= dashes());
    assert(trim_end(dashes()) == dashes());
    assert(closing_from(r, 0) == Some(0int));
    lemma_closing_unlines(ls, r);
    assert(a.take(u.len() as int) =~= u);
    assert(a.skip(u.len() as int + 3) =~= seq!['\n'] + body);
    assert(strip_one_newline(seq!['\n'] + body) =~= body);
}

/// The lines of a front matter block are single lines none of which reads
/// `---`.
pub proof fn lemma_block_lines_from(a: Seq<char>, off: int, end: int)
    requires
        0 <= off,
        closing_from(a, off) == Some(end),
    ensures
        off <= end <= a.len(),
        block_lines(lines(a.subrange(off, end))),
    decreases a.len() - off,
{
    let n = first_index(a.skip(off), '\n');
    lemma_first_index(a.skip(off), '\n');
    if off + n < a.len() && trim_end(a.subrange(off, off + n)) != dashes() {
        lemma_block_lines_from(a, off + n + 1, end);
        let raw = a.subrange(off, off + n);
        let rest = a.subrange(off + n + 1, end);
        assert forall|j: int| 0 <= j < n implies raw[j] != '\n' by {
            assert(raw[j] == a.skip(off)[j]);
        }
        assert(a.skip(off)[n] == '\n');
        assert(a.subrange(off, end) =~= raw + seq!['\n'] + rest);
        lemma_lines_cons(raw, rest);
        let first = strip_cr(raw);
        assert(no_newline(first));
        if raw.len() > 0 && raw.last() == '\r' {
            assert(trim_end(raw) == trim_end(raw.drop_last()));
        }
        assert(trim_end(first) != dashes());
        let ls = lines(a.subrange(off, end));
        assert forall|i: int| 0 <= i < ls.len() implies no_newline(#[trigger] ls[i]) && trim_end(ls[i]) != dashes() by {
            if i > 0 {
                assert(ls[i] == lines(rest)[i - 1]);
            }
        }
    } else {
        assert(end == off);
        assert(a.subrange(off, end) =~= Seq::<char>::empty());
        assert(lines(Seq::<char>::empty()) =~= Seq::<Seq<char>>::empty());
    }
}

pub proof fn lemma_block_lines(text: Seq<char>)
    requires
        split_fm_spec(text) is Some,
    ensures
        block_lines(lines(split_fm_spec(text)->Some_0.0)),
{
    let a = after_opening(text)->Some_0;
    let end = closing_from(a, 0)->Some_0;
    lemma_block_lines_from(a, 0, end);
    assert(a.subrange(0, end) =~= a.take(end));
}

// ------------------------------------------------------------------ the laws

pub proof fn lemma_first_key(ls: Seq<Seq<char>>, k: Seq<char>)
    ensures
        0 <= first_key(ls, k) <= ls.len(),
        first_key(ls, k) < ls.len() ==> key_is(ls[first_key(ls, k)], k),
        forall|j: int| 0 <= j < first_key(ls, k) ==> !key_is(#[trigger] ls[j], k),
        has_key(ls, k) <==> first_key(ls, k) < ls.len(),
    decreases ls.len(),
{
    if ls.len() > 0 && !key_is(ls[0], k) {
        let t = ls.drop_first();
        lemma_first_key(t, k);
        assert forall|j: int| 0 <= j < first_key(ls, k) implies !key_is(#[trigger] ls[j], k) by {
            if j > 0 {
                assert(ls[j] == t[j - 1]);
            }
        }
        if first_key(ls, k) < ls.len() {
            assert(ls[first_key(ls, k)] == t[first_key(t, k)]);
        }
        if has_key(ls, k) {
            let m = choose|m: int| 0 <= m < ls.len() && key_is(#[trigger] ls[m], k);
            assert(m > 0);
            assert(t[m - 1] == ls[m]);
        }
        if first_key(ls, k) < ls.len() {
            assert(key_is(ls[first_key(ls, k)], k));
        }
    } else if ls.len() > 0 {
        assert(key_is(ls[0], k));
    }
}

/// After a `type:` or `status:` line no tag list is open.
proof fn lemma_settled_after(xs: Seq<Seq<char>>, s0: PState, f: int, k: Seq<char>)
    requires
        0 <= f < xs.len(),
        key_is(xs[f], k),
        k == "type"@ || k == "status"@,
        run(xs, s0) is Ok,
    ensures
        run(xs.take(f + 1), s0) matches Ok(s) && !s.in_tags,
{
    lemma_key_literals();
    lemma_run_prefix_ok(xs, s0, f);
    lemma_run_prefix_ok(xs, s0, f + 1);
    lemma_run_take(xs, s0, f);
    let s = run(xs.take(f), s0)->Ok_0;
    lemma_key_line_step(s, xs[f], k);
}

pub proof fn lemma_plain_literals()
    ensures
        plain_value("done"@),
        plain_value("open"@),
{
    reveal_strlit("done");
    reveal_strlit("open");
    let d = "done"@;
    let o = "open"@;
    assert(!is_ws(d[0]) && !is_ws(d[3]));
    assert(!is_ws(o[0]) && !is_ws(o[3]));
    lemma_trim_from_bounds(d, 0, 4);
    lemma_trim_from_bounds(o, 0, 4);
    assert(d.subrange(0, 4) =~= d);
    assert(o.subrange(0, 4) =~= o);
}

/// A line that does not start with `-` never reads `---`.
proof fn lemma_not_dashes(l: Seq<char>)
    requires
        l.len() > 0,
        l[0] != '-',
    ensures
        trim_end(l) != dashes(),
{
    lemma_trim_end_len(l);
    if trim_end(l) == dashes() {
        assert(trim_end(l)[0] == l[0]);
    }
}

/// The front matter of a text whose block and body are known.
proof fn lemma_parse_parts(text: Seq<char>)
    requires
        split_fm_spec(text) is Some,
    ensures
        parse_fm_spec(text) == match run(lines(split_fm_spec(text)->Some_0.0), init_state()) {
            Ok(st) => Ok(normalize(st.fm)),
            Err(e) => Err(e),
        },
{
}

/// The front matter read back from lines written by a transition.
proof fn lemma_parse_rebuilt(out: Seq<Seq<char>>, body: Seq<char>)
    requires
        out.len() > 0,
        block_lines(out),
    ensures
        split_fm_spec(crate::state::entry_text(out, body)) == Some((unlines(out), body)),
        parse_fm_spec(crate::state::entry_text(out, body)) == match run(out, init_state()) {
            Ok(st) => Ok(normalize(st.fm)),
            Err(e) => Err(e),
        },
{
    lemma_split_rebuilt(out, body);
    assert forall|i: int| 0 <= i < out.len() implies no_newline(#[trigger] out[i]) by {}
    lemma_lines_unlines(out);
    lemma_run_strip_cr(out, init_state());
}

/// The status lines written by `done`.
pub open spec fn done_status_lines(ls: Seq<Seq<char>>) -> Seq<Seq<char>> {
    let r1 = set_status(ls, status_line("done"@));
    if has_key(ls, "status"@) {
        r1
    } else {
        insert_at(r1, after_key(r1, "type"@, 0), status_line("done"@))
    }
}

/// Every status line replaced.
proof fn lemma_replaced(ls: Seq<Seq<char>>, s: PState, v: Seq<char>)
    requires
        run(ls, init_state()) == Ok::<PState, Seq<char>>(s),
        block_lines(ls),
        plain_value(v),
    ensures
        run(set_status(ls, status_line(v)), init_state()) == Ok::<PState, Seq<char>>(status_map(s, v)),
        block_lines(set_status(ls, status_line(v))),
        has_key(ls, "status"@) ==> has_key(set_status(ls, status_line(v)), "status"@),
        !has_key(ls, "done"@) ==> !has_key(set_status(ls, status_line(v)), "done"@),
        has_key(ls, "status"@) <==> s.fm.status is Some,
        has_key(ls, "done"@) <==> s.fm.done is Some,
        set_status(ls, status_line(v)).len() == ls.len(),
{
    lemma_key_literals();
    let n = ls.len() as int;
    let sl = status_line(v);
    lemma_status_line(init_state(), v);
    lemma_not_dashes(sl);
    let r1 = set_status(ls, sl);
    lemma_set_status_run(ls, init_state(), v, n);
    assert(ls.take(n) =~= ls);
    assert(r1.take(n) =~= r1);
    lemma_presence(ls, init_state(), n, true);
    lemma_presence(ls, init_state(), n, false);
    assert forall|i: int| 0 <= i < r1.len() implies no_newline(#[trigger] r1[i]) && trim_end(r1[i]) != dashes() by {
        if key_is(ls[i], "status"@) {
            assert(r1[i] == sl);
        } else {
            assert(r1[i] == ls[i]);
        }
    }
    if has_key(ls, "status"@) {
        let m = choose|m: int| 0 <= m < ls.len() && key_is(#[trigger] ls[m], "status"@);
        assert(r1[m] == sl);
    }
    if has_key(r1, "done"@) {
        let m = choose|m: int| 0 <= m < r1.len() && key_is(#[trigger] r1[m], "done"@);
        if key_is(ls[m], "status"@) {
            assert(r1[m] == sl);
        } else {
            assert(r1[m] == ls[m]);
        }
        assert(has_key(ls, "done"@));
    }
}

/// A status line inserted after the type line where there was none.
proof fn lemma_status_inserted(r1: Seq<Seq<char>>, s: PState, v: Seq<char>)
    requires
        run(r1, init_state()) == Ok::<PState, Seq<char>>(s),
        block_lines(r1),
        plain_value(v),
        !has_key(r1, "status"@),
    ensures
        run(insert_at(r1, after_key(r1, "type"@, 0), status_line(v)), init_state()) == Ok::<
            PState,
            Seq<char>,
        >(ovr(s, true, Some(v))),
        block_lines(insert_at(r1, after_key(r1, "type"@, 0), status_line(v))),
        has_key(insert_at(r1, after_key(r1, "type"@, 0), status_line(v)), "status"@),
        !has_key(r1, "done"@) ==> !has_key(insert_at(r1, after_key(r1, "type"@, 0), status_line(v)), "done"@),
{
    lemma_key_literals();
    let n = r1.len() as int;
    let sl = status_line(v);
    lemma_status_line(init_state(), v);
    lemma_not_dashes(sl);
    let p = after_key(r1, "type"@, 0);
    lemma_first_key(r1, "type"@);
    if first_key(r1, "type"@) < r1.len() {
        lemma_settled_after(r1, init_state(), first_key(r1, "type"@), "type"@);
    } else {
        assert(r1.take(0) =~= Seq::<Seq<char>>::empty());
    }
    assert forall|m: int| p <= m < r1.len() implies !key_is(#[trigger] r1[m], which_key(true)) by {
        if key_is(r1[m], "status"@) {
            assert(has_key(r1, "status"@));
        }
    }
    lemma_insert_run(r1, init_state(), p, true, v, n);
    assert(r1.take(n) =~= r1);
    let r2 = insert_at(r1, p, sl);
    assert(r2.take(n + 1) =~= r2);
    assert(r2[p] == sl);
    assert forall|i: int| 0 <= i < r2.len() implies no_newline(#[trigger] r2[i]) && trim_end(r2[i]) != dashes() by {
        if i < p {
            assert(r2[i] == r1[i]);
        } else if i > p {
            assert(r2[i] == r1[i - 1]);
        }
    }
    if has_key(r2, "done"@) {
        let m = choose|m: int| 0 <= m < r2.len() && key_is(#[trigger] r2[m], "done"@);
        if m < p {
            assert(r2[m] == r1[m]);
        } else if m > p {
            assert(r2[m] == r1[m - 1]);
        }
        assert(has_key(r1, "done"@));
    }
}

/// A line inserted after the first status line.
proof fn lemma_date_inserted(r2: Seq<Seq<char>>, s: PState, day: Seq<char>)
    requires
        run(r2, init_state()) == Ok::<PState, Seq<char>>(s),
        block_lines(r2),
        plain_value(day),
        has_key(r2, "status"@),
        !has_key(r2, "done"@),
    ensures
        run(insert_at(r2, after_key(r2, "status"@, r2.len() as int), done_line(day)), init_state())
            == Ok::<PState, Seq<char>>(ovr(s, false, Some(day))),
        block_lines(insert_at(r2, after_key(r2, "status"@, r2.len() as int), done_line(day))),
{
    lemma_key_literals();
    let n = r2.len() as int;
    let dl = done_line(day);
    lemma_done_line(init_state(), day);
    lemma_not_dashes(dl);
    lemma_first_key(r2, "status"@);
    let f = first_key(r2, "status"@);
    let q = f + 1;
    assert(after_key(r2, "status"@, n) == q);
    lemma_settled_after(r2, init_state(), f, "status"@);
    assert forall|m: int| q <= m < r2.len() implies !key_is(#[trigger] r2[m], which_key(false)) by {
        if key_is(r2[m], "done"@) {
            assert(has_key(r2, "done"@));
        }
    }
    lemma_insert_run(r2, init_state(), q, false, day, n);
    assert(r2.take(n) =~= r2);
    let r3 = insert_at(r2, q, dl);
    assert(r3.take(n + 1) =~= r3);
    assert(r3[q] == dl);
    assert forall|i: int| 0 <= i < r3.len() implies no_newline(#[trigger] r3[i]) && trim_end(r3[i]) != dashes() by {
        if i < q {
            assert(r3[i] == r2[i]);
        } else if i > q {
            assert(r3[i] == r2[i - 1]);
        }
    }
}

/// Every done line rewritten with `day`.
proof fn lemma_redated(r2: Seq<Seq<char>>, s: PState, day: Seq<char>)
    requires
        run(r2, init_state()) == Ok::<PState, Seq<char>>(s),
        block_lines(r2),
        plain_value(day),
    ensures
        run(crate::state::set_done(r2, done_line(day)), init_state()) == Ok::<PState, Seq<char>>(
            done_map(s, day),
        ),
        block_lines(crate::state::set_done(r2, done_line(day))),
        crate::state::set_done(r2, done_line(day)).len() == r2.len(),
{
    lemma_key_literals();
    let n = r2.len() as int;
    let dl = done_line(day);
    lemma_done_line(init_state(), day);
    lemma_not_dashes(dl);
    let r3 = crate::state::set_done(r2, dl);
    lemma_set_done_run(r2, init_state(), day, n);
    assert(r2.take(n) =~= r2);
    assert(r3.take(n) =~= r3);
    assert forall|i: int| 0 <= i < r3.len() implies no_newline(#[trigger] r3[i]) && trim_end(r3[i]) != dashes() by {
        if key_is(r2[i], "done"@) {
            assert(r3[i] == dl);
        } else {
            assert(r3[i] == r2[i]);
        }
    }
}

/// The lines `done` writes, read back.
proof fn lemma_done_lines_run(ls: Seq<Seq<char>>, s: PState, day: Seq<char>)
    requires
        run(ls, init_state()) == Ok::<PState, Seq<char>>(s),
        block_lines(ls),
        plain_value(day),
    ensures
        run(crate::state::done_lines(ls, day), init_state()) == Ok::<PState, Seq<char>>(PState {
            fm: FmView { status: Some("done"@), done: Some(day), ..s.fm },
            in_tags: run(crate::state::done_lines(ls, day), init_state())->Ok_0.in_tags,
        }),
        block_lines(crate::state::done_lines(ls, day)),
        crate::state::done_lines(ls, day).len() > 0,
{
    lemma_plain_literals();
    lemma_replaced(ls, s, "done"@);
    let r1 = set_status(ls, status_line("done"@));
    let s2 = ovr(s, true, Some("done"@));
    let r2 = done_status_lines(ls);
    if has_key(ls, "status"@) {
        assert(r2 == r1);
        assert(status_map(s, "done"@) == s2);
    } else {
        assert(status_map(s, "done"@) == s);
        lemma_status_inserted(r1, s, "done"@);
    }
    assert(run(r2, init_state()) == Ok::<PState, Seq<char>>(s2));
    let out = crate::state::done_lines(ls, day);
    if has_key(ls, "done"@) {
        lemma_redated(r2, s2, day);
        assert(out == crate::state::set_done(r2, done_line(day)));
    } else {
        lemma_date_inserted(r2, s2, day);
        assert(out == insert_at(r2, after_key(r2, "status"@, r2.len() as int), done_line(day)));
    }
    if r2.len() == 0 {
        let m = choose|m: int| 0 <= m < r2.len() && key_is(#[trigger] r2[m], "status"@);
    }
}

/// The front matter that was read is that of a todo, so no `thought` alias.
proof fn lemma_todo_normal(fm: FmView)
    requires
        normalize(fm).type_ == "todo"@,
    ensures
        normalize(fm) == fm,
{
    lemma_key_literals();
}

/// `done` on an open todo: the front matter read back says `status: done`
/// and carries the given day as its `done` date; every other field, and the
/// body, stay as they were.
pub proof fn law_done(text: Seq<char>, day: Seq<char>)
    requires
        crate::state::transition_spec(text, crate::state::StateCmd::Done, day) is Some,
        plain_value(day),
    ensures
        ({
            let new = crate::state::transition_spec(text, crate::state::StateCmd::Done, day)->Some_0;
            let old = parse_fm_spec(text)->Ok_0;
            &&& parse_fm_spec(text) is Ok
            &&& parse_fm_spec(new) == Ok::<FmView, Seq<char>>(FmView {
                status: Some("done"@),
                done: Some(day),
                ..old
            })
            &&& split_fm_spec(new) matches Some((_, b)) && b == split_fm_spec(text)->Some_0.1
        }),
{
    let (block, body) = split_fm_spec(text)->Some_0;
    let ls = lines(block);
    lemma_block_lines(text);
    lemma_parse_parts(text);
    let s = run(ls, init_state())->Ok_0;
    lemma_done_lines_run(ls, s, day);
    let out = crate::state::done_lines(ls, day);
    lemma_parse_rebuilt(out, body);
    lemma_todo_normal(s.fm);
    let fs = run(out, init_state())->Ok_0;
    lemma_key_literals();
    assert(normalize(fs.fm) == fs.fm);
}

// ------------------------------------------------------------------ reopen

/// `a` was read from the lines of `b` without their done lines: the scalar
/// fields other than the done date agree, and `a` has none.
pub open spec fn weak_rel(a: PState, b: PState) -> bool {
    &&& a.fm.type_ == b.fm.type_
    &&& a.fm.title == b.fm.title
    &&& a.fm.created == b.fm.created
    &&& a.fm.status == b.fm.status
    &&& a.fm.due == b.fm.due
    &&& a.fm.done is None
    &&& b.in_tags ==> a.in_tags
}

/// No done line of `ls` stands where a tag list is open.
pub open spec fn done_outside_tags(ls: Seq<Seq<char>>) -> bool {
    forall|i: int|
        0 <= i < ls.len() && key_is(#[trigger] ls[i], "done"@) ==> (run(ls.take(i), init_state()) matches Ok(
            st,
        ) && !st.in_tags)
}

/// The key of a line that starts with `-` starts with `-`.
proof fn lemma_dash_key(l: Seq<char>)
    requires
        starts_with(trim(l), dash_space()),
    ensures
        line_key(l) matches Some(k) ==> k.len() > 0 && k[0] == '-',
{
    let t = trim(l);
    lemma_line_key_trim(l);
    lemma_first_index(t, ':');
    let j = first_index(t, ':');
    assert(t.take(2)[0] == t[0]);
    assert(t[0] == '-');
    if j < t.len() {
        assert(j > 0);
        let p = t.take(j);
        assert(p[0] == '-');
        assert(trim_start(p) == p);
        lemma_trim_end_len(p);
        assert(trim_end(p).len() > 0) by {
            if trim_end(p).len() == 0 {
                let k = trailing_ws_pub(p);
            }
        }
        assert(trim_end(p)[0] == p[0]);
    }
}

proof fn lemma_weak_step(a: PState, b: PState, l: Seq<char>)
    requires
        weak_rel(a, b),
        step(b, l) is Ok,
        !key_is(l, "done"@),
    ensures
        step(a, l) matches Ok(a2) && weak_rel(a2, step(b, l)->Ok_0),
{
    let t = trim(l);
    lemma_line_key_trim(l);
    lemma_key_literals();
    reveal_strlit("title");
    reveal_strlit("created");
    reveal_strlit("due");
    reveal_strlit("tags");
    if t.len() > 0 && (a.in_tags && starts_with(t, dash_space()) || b.in_tags && starts_with(t, dash_space())) {
        lemma_dash_key(l);
    }
}

proof fn lemma_drop_done_take(ls: Seq<Seq<char>>, i: int)
    requires
        0 <= i < ls.len(),
    ensures
        crate::state::drop_done(ls.take(i + 1)) == if key_is(ls[i], "done"@) {
            crate::state::drop_done(ls.take(i))
        } else {
            crate::state::drop_done(ls.take(i)).push(ls[i])
        },
{
    assert(ls.take(i + 1).drop_last() =~= ls.take(i));
    assert(ls.take(i + 1).last() == ls[i]);
}

proof fn lemma_drop_done_run(ls: Seq<Seq<char>>, i: int)
    requires
        0 <= i <= ls.len(),
        run(ls.take(i), init_state()) is Ok,
    ensures
        run(crate::state::drop_done(ls.take(i)), init_state()) matches Ok(a) && weak_rel(
            a,
            run(ls.take(i), init_state())->Ok_0,
        ),
        done_outside_tags(ls) ==> run(crate::state::drop_done(ls.take(i)), init_state()) == Ok::<
            PState,
            Seq<char>,
        >(ovr(run(ls.take(i), init_state())->Ok_0, false, None)),
    decreases i,
{
    if i == 0 {
        assert(ls.take(0) =~= Seq::<Seq<char>>::empty());
        assert(crate::state::drop_done(ls.take(0)) =~= Seq::<Seq<char>>::empty());
        assert(ovr(init_state(), false, None) == init_state());
    } else {
        lemma_run_take(ls, init_state(), i - 1);
        lemma_drop_done_run(ls, i - 1);
        lemma_drop_done_take(ls, i - 1);
        let l = ls[i - 1];
        let b = run(ls.take(i - 1), init_state())->Ok_0;
        let a = run(crate::state::drop_done(ls.take(i - 1)), init_state())->Ok_0;
        let dd = crate::state::drop_done(ls.take(i - 1));
        lemma_key_literals();
        if key_is(l, "done"@) {
            lemma_key_line_step(b, l, "done"@);
            if done_outside_tags(ls) {
                assert(key_is(ls[i - 1], "done"@));
                assert(!b.in_tags);
            }
        } else {
            assert(dd.push(l).drop_last() =~= dd);
            assert(dd.push(l).last() == l);
            lemma_weak_step(a, b, l);
            if done_outside_tags(ls) {
                lemma_step_ovr(b, l, false, None);
            }
        }
    }
}

proof fn lemma_drop_done_lines(ls: Seq<Seq<char>>)
    requires
        block_lines(ls),
    ensures
        block_lines(crate::state::drop_done(ls)),
        has_key(ls, "status"@) ==> has_key(crate::state::drop_done(ls), "status"@),
        !has_key(crate::state::drop_done(ls), "done"@),
    decreases ls.len(),
{
    lemma_key_literals();
    if ls.len() > 0 {
        let t = ls.drop_last();
        assert(block_lines(t)) by {
            assert forall|i: int| 0 <= i < t.len() implies no_newline(#[trigger] t[i]) && trim_end(t[i]) != dashes() by {
                assert(t[i] == ls[i]);
            }
        }
        lemma_drop_done_lines(t);
        let d = crate::state::drop_done(ls);
        let dt = crate::state::drop_done(t);
        if !key_is(ls.last(), "done"@) {
            assert(d == dt.push(ls.last()));
            assert forall|i: int| 0 <= i < d.len() implies no_newline(#[trigger] d[i]) && trim_end(d[i]) != dashes() by {
                if i < dt.len() {
                    assert(d[i] == dt[i]);
                }
            }
            if has_key(d, "done"@) {
                let m = choose|m: int| 0 <= m < d.len() && key_is(#[trigger] d[m], "done"@);
                assert(m < dt.len());
                assert(d[m] == dt[m]);
            }
        }
        if has_key(ls, "status"@) {
            let m = choose|m: int| 0 <= m < ls.len() && key_is(#[trigger] ls[m], "status"@);
            if m < t.len() {
                assert(t[m] == ls[m]);
                assert(has_key(t, "status"@));
                let m2 = choose|m2: int| 0 <= m2 < dt.len() && key_is(#[trigger] dt[m2], "status"@);
                if !key_is(ls.last(), "done"@) {
                    assert(d[m2] == dt[m2]);
                }
            } else {
                assert(ls.last() == ls[m]);
                assert(d.last() == ls.last());
                assert(d[d.len() - 1] == ls[m]);
            }
        }
    }
}

/// `reopen` on a done todo: the front matter read back says `status: open`
/// and has no `done` date; type, title, created and due stay as they were, and
/// so does the body. The tags stay as they were too where no done date stands
/// inside a tag list.
pub proof fn law_reopen(text: Seq<char>, day: Seq<char>)
    requires
        crate::state::transition_spec(text, crate::state::StateCmd::Reopen, day) is Some,
    ensures
        ({
            let new = crate::state::transition_spec(text, crate::state::StateCmd::Reopen, day)->Some_0;
            let old = parse_fm_spec(text)->Ok_0;
            &&& parse_fm_spec(text) is Ok
            &&& parse_fm_spec(new) matches Ok(f) && {
                &&& f.status == Some("open"@)
                &&& f.done is None
                &&& f.type_ == old.type_
                &&& f.title == old.title
                &&& f.created == old.created
                &&& f.due == old.due
                &&& done_outside_tags(lines(split_fm_spec(text)->Some_0.0)) ==> f.tags == old.tags
            }
            &&& split_fm_spec(new) matches Some((_, b)) && b == split_fm_spec(text)->Some_0.1
        }),
{
    let (block, body) = split_fm_spec(text)->Some_0;
    let ls = lines(block);
    lemma_block_lines(text);
    lemma_parse_parts(text);
    let n = ls.len() as int;
    assert(ls.take(n) =~= ls);
    let b = run(ls, init_state())->Ok_0;
    lemma_drop_done_run(ls, n);
    let dd = crate::state::drop_done(ls);
    let a = run(dd, init_state())->Ok_0;
    lemma_drop_done_lines(ls);
    lemma_plain_literals();
    lemma_replaced(dd, a, "open"@);
    lemma_presence(ls, init_state(), n, true);
    lemma_key_literals();
    let out = crate::state::reopen_lines(ls);
    assert(has_key(ls, "status"@));
    assert(out == set_status(dd, status_line("open"@)));
    let m = choose|m: int| 0 <= m < dd.len() && key_is(#[trigger] dd[m], "status"@);
    assert(out.len() > 0);
    lemma_parse_rebuilt(out, body);
    lemma_todo_normal(b.fm);
    let fs = run(out, init_state())->Ok_0;
    assert(normalize(fs.fm) == fs.fm);
}

/// `done` and then `reopen`: the todo reads as open again, with no done date,
/// and with type, title, created, due and body as before.
pub proof fn law_done_then_reopen(text: Seq<char>, day: Seq<char>, day2: Seq<char>)
    requires
        crate::state::transition_spec(text, crate::state::StateCmd::Done, day) is Some,
        plain_value(day),
    ensures
        ({
            let mid = crate::state::transition_spec(text, crate::state::StateCmd::Done, day)->Some_0;
            let old = parse_fm_spec(text)->Ok_0;
            &&& crate::state::transition_spec(mid, crate::state::StateCmd::Reopen, day2) is Some
            &&& parse_fm_spec(crate::state::transition_spec(mid, crate::state::StateCmd::Reopen, day2)->Some_0)
                matches Ok(f) && {
                &&& f.status == Some("open"@)
                &&& f.done is None
                &&& f.type_ == old.type_
                &&& f.title == old.title
                &&& f.created == old.created
                &&& f.due == old.due
            }
            &&& split_fm_spec(crate::state::transition_spec(mid, crate::state::StateCmd::Reopen, day2)->Some_0)
                matches Some((_, b)) && b == split_fm_spec(text)->Some_0.1
        }),
{
    law_done(text, day);
    let mid = crate::state::transition_spec(text, crate::state::StateCmd::Done, day)->Some_0;
    let old = parse_fm_spec(text)->Ok_0;
    assert(old.type_ == "todo"@);
    assert(split_fm_spec(mid) is Some);
    law_reopen(mid, day2);
}

proof fn lemma_drop_done_concat(a: Seq<Seq<char>>, b: Seq<Seq<char>>)
    ensures
        crate::state::drop_done(a + b) == crate::state::drop_done(a) + crate::state::drop_done(b),
    decreases b.len(),
{
    if b.len() == 0 {
        assert(a + b =~= a);
        assert(crate::state::drop_done(a) + crate::state::drop_done(b) =~= crate::state::drop_done(a));
    } else {
        lemma_drop_done_concat(a, b.drop_last());
        assert((a + b).drop_last() =~= a + b.drop_last());
        assert((a + b).last() == b.last());
        let da = crate::state::drop_done(a);
        let db = crate::state::drop_done(b.drop_last());
        assert((da + db).push(b.last()) =~= da + db.push(b.last()));
    }
}

proof fn lemma_drop_done_none(a: Seq<Seq<char>>)
    requires
        !has_key(a, "done"@),
    ensures
        crate::state::drop_done(a) == a,
    decreases a.len(),
{
    if a.len() > 0 {
        let p = a.drop_last();
        assert(!has_key(p, "done"@)) by {
            if has_key(p, "done"@) {
                let m = choose|m: int| 0 <= m < p.len() && key_is(#[trigger] p[m], "done"@);
                assert(a[m] == p[m]);
            }
        }
        lemma_drop_done_none(p);
        assert(!key_is(a[a.len() - 1], "done"@));
        assert(p.push(a.last()) =~= a);
    }
}

/// `reopen` undoes `done` to the byte: a todo whose front matter lines `ls`
/// carry no carriage return, exactly one status line, which reads
/// `status: open`, and no done line, is given back as it was written.
pub proof fn law_reopen_undoes_done(ls: Seq<Seq<char>>, body: Seq<char>, day: Seq<char>, day2: Seq<char>)
    requires
        block_lines(ls),
        forall|i: int| 0 <= i < ls.len() ==> strip_cr(#[trigger] ls[i]) == ls[i],
        forall|i: int| 0 <= i < ls.len() && key_is(#[trigger] ls[i], "status"@) ==> ls[i] == status_line("open"@),
        has_key(ls, "status"@),
        !has_key(ls, "done"@),
        crate::state::transition_spec(crate::state::entry_text(ls, body), crate::state::StateCmd::Done, day) is Some,
        plain_value(day),
    ensures
        ({
            let text = crate::state::entry_text(ls, body);
            let mid = crate::state::transition_spec(text, crate::state::StateCmd::Done, day)->Some_0;
            crate::state::transition_spec(mid, crate::state::StateCmd::Reopen, day2) == Some(text)
        }),
{
    lemma_key_literals();
    lemma_plain_literals();
    let text = crate::state::entry_text(ls, body);
    assert(ls.len() > 0);
    lemma_split_rebuilt(ls, body);
    assert forall|i: int| 0 <= i < ls.len() implies no_newline(#[trigger] ls[i]) by {}
    lemma_lines_unlines(ls);
    assert(lines(unlines(ls)) =~= ls);
    law_done(text, day);
    let mid = crate::state::transition_spec(text, crate::state::StateCmd::Done, day)->Some_0;
    let out = crate::state::done_lines(ls, day);
    assert(mid == crate::state::entry_text(out, body));
    let s = run(ls, init_state())->Ok_0;
    lemma_parse_parts(text);
    lemma_done_lines_run(ls, s, day);
    lemma_split_rebuilt(out, body);
    // the lines written by `done`
    let sd = status_line("done"@);
    let r1 = set_status(ls, sd);
    let q = after_key(r1, "status"@, r1.len() as int);
    let dl = done_line(day);
    assert(out == insert_at(r1, q, dl));
    lemma_done_line(init_state(), day);
    lemma_status_line(init_state(), "done"@);
    lemma_status_line(init_state(), "open"@);
    assert(strip_cr(dl) == dl) by {
        reveal_strlit("done: ");
        if day.len() > 0 {
            assert(dl.last() == day.last());
            lemma_trim_ends(day);
        } else {
            assert(dl.last() == ' ');
        }
    }
    assert(strip_cr(sd) == sd) by {
        reveal_strlit("status: ");
        reveal_strlit("done");
        assert(sd.last() == 'e');
    }
    assert forall|i: int| 0 <= i < out.len() implies strip_cr(#[trigger] out[i]) == out[i] && no_newline(out[i]) by {
        lemma_first_key(r1, "status"@);
        if i < q {
            assert(out[i] == r1[i]);
        } else if i > q {
            assert(out[i] == r1[i - 1]);
        }
    }
    lemma_lines_unlines(out);
    assert(lines(unlines(out)) =~= out);
    // `reopen` on the middle text
    assert(has_key(out, "status"@)) by {
        lemma_first_key(r1, "status"@);
        let m = choose|m: int| 0 <= m < ls.len() && key_is(#[trigger] ls[m], "status"@);
        assert(r1[m] == sd);
        if m < q {
            assert(out[m] == r1[m]);
        } else {
            assert(out[m + 1] == r1[m]);
        }
    }
    let back = crate::state::reopen_lines(out);
    assert(!has_key(r1, "done"@)) by {
        if has_key(r1, "done"@) {
            let m = choose|m: int| 0 <= m < r1.len() && key_is(#[trigger] r1[m], "done"@);
            if key_is(ls[m], "status"@) {
                assert(r1[m] == sd);
            } else {
                assert(r1[m] == ls[m]);
            }
        }
    }
    lemma_first_key(r1, "status"@);
    assert(out =~= r1.take(q) + seq![dl] + r1.skip(q));
    lemma_drop_done_concat(r1.take(q) + seq![dl], r1.skip(q));
    lemma_drop_done_concat(r1.take(q), seq![dl]);
    assert(seq![dl].drop_last() =~= Seq::<Seq<char>>::empty());
    assert(seq![dl].last() == dl);
    assert(key_is(dl, "done"@));
    assert(crate::state::drop_done(Seq::<Seq<char>>::empty()) == Seq::<Seq<char>>::empty());
    assert(crate::state::drop_done(seq![dl]) =~= Seq::<Seq<char>>::empty());
    assert(!has_key(r1.take(q), "done"@)) by {
        if has_key(r1.take(q), "done"@) {
            let m = choose|m: int| 0 <= m < r1.take(q).len() && key_is(#[trigger] r1.take(q)[m], "done"@);
            assert(r1[m] == r1.take(q)[m]);
        }
    }
    assert(!has_key(r1.skip(q), "done"@)) by {
        if has_key(r1.skip(q), "done"@) {
            let m = choose|m: int| 0 <= m < r1.skip(q).len() && key_is(#[trigger] r1.skip(q)[m], "done"@);
            assert(r1[m + q] == r1.skip(q)[m]);
        }
    }
    lemma_drop_done_none(r1.take(q));
    lemma_drop_done_none(r1.skip(q));
    assert(r1.take(q) + r1.skip(q) =~= r1);
    assert(crate::state::drop_done(out) == r1);
    assert(back == set_status(r1, status_line("open"@)));
    assert(back =~= ls) by {
        assert forall|i: int| 0 <= i < ls.len() implies back[i] == ls[i] by {
            if key_is(ls[i], "status"@) {
                assert(r1[i] == sd);
            } else {
                assert(r1[i] == ls[i]);
            }
        }
    }
}

} // verus!

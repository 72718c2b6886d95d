//! Front matter: the `---` delimited block at the head of an entry, and the
//! handful of YAML forms the vault uses inside it.
use vstd::prelude::*;
use crate::text::{
    lemma_trim_end_len,
    lines,
    lines_of,
    is_lit,
    split_once,
    starts_with_chars,
    trim,
    trim_chars,
    lemma_first_index,
    chars_of,
    find_from,
    first_index,
    slice_of,
    starts_with,
    string_of,
    trim_end,
    trim_end_chars,
};

verus! {

// ------------------------------------------------------------------ model

/// What an entry's front matter says, as character sequences.
pub struct FmView {
    pub type_: Seq<char>,
    pub title: Seq<char>,
    pub created: Seq<char>,
    pub status: Option<Seq<char>>,
    pub due: Option<Seq<char>>,
    pub done: Option<Seq<char>>,
    pub tags: Seq<Seq<char>>,
}

/// Parsed front matter of an entry.
#[derive(Clone, Debug)]
pub struct Fm {
    pub type_: String,
    pub title: String,
    pub created: String,
    pub status: Option<String>,
    pub due: Option<String>,
    pub done: Option<String>,
    pub tags: Vec<String>,
}

pub open spec fn opt_view(o: Option<String>) -> Option<Seq<char>> {
    match o {
        Some(s) => Some(s@),
        None => None,
    }
}

impl View for Fm {
    type V = FmView;

    open spec fn view(&self) -> FmView {
        FmView {
            type_: self.type_@,
            title: self.title@,
            created: self.created@,
            status: opt_view(self.status),
            due: opt_view(self.due),
            done: opt_view(self.done),
            tags: self.tags.deep_view(),
        }
    }
}

pub open spec fn fm_empty() -> FmView {
    FmView {
        type_: Seq::empty(),
        title: Seq::empty(),
        created: Seq::empty(),
        status: None,
        due: None,
        done: None,
        tags: Seq::empty(),
    }
}

pub open spec fn dashes() -> Seq<char> {
    seq!['-', '-', '-']
}

// ------------------------------------------------------------------ the block

/// Leading byte order marks removed.
pub open spec fn strip_bom(s: Seq<char>) -> Seq<char>
    decreases s.len(),
{
    if s.len() > 0 && s[0] == '\u{feff}' {
        strip_bom(s.drop_first())
    } else {
        s
    }
}

/// Offset in `a` of the first line, at or after line start `off`, that reads
/// `---` once trailing whitespace is removed.
pub open spec fn closing_from(a: Seq<char>, off: int) -> Option<int>
    decreases a.len() - off,
{
    if off < 0 || off >= a.len() {
        None
    } else {
        let n = first_index(a.skip(off), '\n');
        proof {
            lemma_first_index(a.skip(off), '\n');
        }
        if off + n < a.len() {
            if trim_end(a.subrange(off, off + n)) == dashes() {
                Some(off)
            } else {
                closing_from(a, off + n + 1)
            }
        } else if trim_end(a.skip(off)) == dashes() {
            Some(off)
        } else {
            None
        }
    }
}

/// The text after the opening `---` line, when the text opens with one.
pub open spec fn after_opening(text: Seq<char>) -> Option<Seq<char>> {
    let t = strip_bom(text);
    if starts_with(t, dashes()) {
        let rest = t.skip(3);
        let nl = first_index(rest, '\n');
        if nl < rest.len() && trim_end(rest.take(nl)).len() == 0 {
            Some(rest.skip(nl + 1))
        } else {
            None
        }
    } else {
        None
    }
}

/// One leading `\n` or `\r\n` removed.
pub open spec fn strip_one_newline(s: Seq<char>) -> Seq<char> {
    if s.len() > 0 && s[0] == '\n' {
        s.skip(1)
    } else if s.len() > 1 && s[0] == '\r' && s[1] == '\n' {
        s.skip(2)
    } else {
        s
    }
}

/// The front matter block and the body of a text: after optional byte order
/// marks the text opens with a `---` line (trailing whitespace allowed), and the
/// block runs to the first later line that is `---` up to trailing whitespace.
pub open spec fn split_fm_spec(text: Seq<char>) -> Option<(Seq<char>, Seq<char>)> {
    match after_opening(text) {
        Some(a) => match closing_from(a, 0) {
            Some(end) => Some((a.take(end), strip_one_newline(a.skip(end + 3)))),
            None => None,
        },
        None => None,
    }
}

fn is_dashes(v: &[char]) -> (b: bool)
    ensures
        b == (v@ == dashes()),
{
    let r = v.len() == 3 && v[0] == '-' && v[1] == '-' && v[2] == '-';
    proof {
        if r {
            assert(v@ =~= dashes());
        }
    }
    r
}

/// Splits a text into its front matter block and its body.
pub fn split_fm(text: &str) -> (r: Option<(String, String)>)
    ensures
        match (r, split_fm_spec(text@)) {
            (Some((fm, body)), Some((f, b))) => fm@ == f && body@ == b,
            (None, None) => true,
            _ => false,
        },
{
    let v = chars_of(text);
    match split_fm_chars(&v) {
        Some((f, b)) => Some((string_of(&f), string_of(&b))),
        None => None,
    }
}

pub fn split_fm_chars(v: &[char]) -> (r: Option<(Vec<char>, Vec<char>)>)
    ensures
        match (r, split_fm_spec(v@)) {
            (Some((fm, body)), Some((f, b))) => fm@ == f && body@ == b,
            (None, None) => true,
            _ => false,
        },
{
    // byte order marks
    let mut s: usize = 0;
    assert(v@.skip(0) =~= v@);
    while s < v.len() && v[s] == '\u{feff}'
        invariant
            s <= v@.len(),
            strip_bom(v@) == strip_bom(v@.skip(s as int)),
        decreases v@.len() - s,
    {
        proof {
            assert(v@.skip(s as int).drop_first() =~= v@.skip(s + 1));
        }
        s += 1;
    }
    let ghost t = v@.skip(s as int);
    assert(strip_bom(v@) == t);
    if !(v.len() - s >= 3 && v[s] == '-' && v[s + 1] == '-' && v[s + 2] == '-') {
        proof {
            if starts_with(t, dashes()) {
                assert(t.take(3)[0] == v@[s as int]);
                assert(t.take(3)[1] == v@[s + 1]);
                assert(t.take(3)[2] == v@[s + 2]);
            }
        }
        return None;
    }
    assert(t.take(3) =~= dashes());
    let rs = s + 3;
    let nl = find_from(v, '\n', rs);
    let ghost rest = t.skip(3);
    assert(rest =~= v@.skip(rs as int));
    if nl == v.len() {
        return None;
    }
    let head = slice_of(v, rs, nl);
    let head_t = trim_end_chars(&head);
    assert(rest.take(nl - rs) =~= head@);
    if head_t.len() != 0 {
        return None;
    }
    let a = slice_of(v, nl + 1, v.len());
    assert(a@ =~= rest.skip(nl - rs + 1));
    assert(after_opening(v@) == Some(a@));
    // closing line
    match closing_line(&a) {
        None => None,
        Some(e) => {
            let fm = slice_of(&a, 0, e);
            let after = slice_of(&a, e + 3, a.len());
            let body = if after.len() > 0 && after[0] == '\n' {
                slice_of(&after, 1, after.len())
            } else if after.len() > 1 && after[0] == '\r' && after[1] == '\n' {
                slice_of(&after, 2, after.len())
            } else {
                after
            };
            proof {
                assert(after@ =~= a@.skip(e + 3));
                assert(fm@ =~= a@.take(e as int));
                assert(after@.skip(1) =~= after@.subrange(1, after@.len() as int));
                assert(after@.skip(2) =~= after@.subrange(2, after@.len() as int));
                assert(body@ == strip_one_newline(after@));
            }
            Some((fm, body))
        },
    }
}

/// Offset of the closing `---` line of a block that starts at the head of `a`.
fn closing_line(a: &[char]) -> (r: Option<usize>)
    ensures
        match r {
            Some(e) => closing_from(a@, 0) == Some(e as int),
            None => closing_from(a@, 0).is_none(),
        },
        r matches Some(e) ==> e + 3 <= a@.len() && a@.subrange(e as int, e + 3) == dashes(),
{
    let mut off: usize = 0;
    while off < a.len()
        invariant
            off <= a@.len(),
            closing_from(a@, 0) == closing_from(a@, off as int),
        decreases a@.len() - off,
    {
        let n = find_from(a, '\n', off);
        let line = slice_of(a, off, n);
        let lt = trim_end_chars(&line);
        proof {
            assert(a@.skip(off as int).len() == a@.len() - off);
            lemma_trim_end_len(line@);
        }
        if n < a.len() {
            if is_dashes(&lt) {
                proof {
                    assert(line@.take(3) =~= a@.subrange(off as int, off + 3));
                }
                return Some(off);
            }
            off = n + 1;
        } else {
            assert(a@.skip(off as int) =~= line@);
            if is_dashes(&lt) {
                proof {
                    assert(line@.take(3) =~= a@.subrange(off as int, off + 3));
                }
                return Some(off);
            }
            return None;
        }
    }
    None
}

// ------------------------------------------------------------------ values

/// One pair of matching outer quotes (`"…"` or `'…'`) removed; anything else
/// stands as it is.
pub open spec fn strip_paired_quotes_spec(s: Seq<char>) -> Seq<char> {
    if s.len() >= 2 && ((s[0] == '"' && s.last() == '"') || (s[0] == '\'' && s.last() == '\'')) {
        s.subrange(1, s.len() - 1)
    } else {
        s
    }
}

pub fn strip_paired_quotes_chars(s: &[char]) -> (r: Vec<char>)
    ensures
        r@ == strip_paired_quotes_spec(s@),
{
    let n = s.len();
    if n >= 2 && ((s[0] == '"' && s[n - 1] == '"') || (s[0] == '\'' && s[n - 1] == '\'')) {
        slice_of(s, 1, n - 1)
    } else {
        slice_of(s, 0, n)
    }
}

/// Removes one pair of matching outer quotes from a value.
pub fn strip_paired_quotes(s: &str) -> (r: String)
    ensures
        r@ == strip_paired_quotes_spec(s@),
{
    let v = chars_of(s);
    string_of(&strip_paired_quotes_chars(&v))
}

/// Scanner state for a flow list: finished items, the item being read, and
/// whether a double quote is open.
pub struct FlowState {
    pub out: Seq<Seq<char>>,
    pub cur: Seq<char>,
    pub in_dq: bool,
}

/// An item is kept trimmed and unquoted, and only when something is left.
pub open spec fn flush_item(out: Seq<Seq<char>>, cur: Seq<char>) -> Seq<Seq<char>> {
    let t = strip_paired_quotes_spec(trim(cur));
    if t.len() > 0 {
        out.push(t)
    } else {
        out
    }
}

/// Left-to-right scan of a flow list: commas outside double quotes end items.
pub open spec fn flow_scan(s: Seq<char>) -> FlowState
    decreases s.len(),
{
    if s.len() == 0 {
        FlowState { out: Seq::empty(), cur: Seq::empty(), in_dq: false }
    } else {
        let st = flow_scan(s.drop_last());
        let c = s.last();
        if c == '"' {
            FlowState { out: st.out, cur: st.cur.push(c), in_dq: !st.in_dq }
        } else if c == ',' && !st.in_dq {
            FlowState { out: flush_item(st.out, st.cur), cur: Seq::empty(), in_dq: st.in_dq }
        } else {
            FlowState { out: st.out, cur: st.cur.push(c), in_dq: st.in_dq }
        }
    }
}

/// The items of an inline list `a, "b,c", d`.
pub open spec fn split_tags_flow_spec(s: Seq<char>) -> Seq<Seq<char>> {
    let st = flow_scan(s);
    flush_item(st.out, st.cur)
}

fn push_item(out: &mut Vec<String>, cur: &[char])
    ensures
        final(out).deep_view() == flush_item(old(out).deep_view(), cur@),
{
    let t = trim_chars(cur);
    let t = strip_paired_quotes_chars(&t);
    if t.len() > 0 {
        let st = string_of(&t);
        let ghost before = out.deep_view();
        out.push(st);
        proof {
            assert(out.deep_view() =~= before.push(t@));
        }
    }
}

pub fn split_tags_flow_chars(s: &[char]) -> (r: Vec<String>)
    ensures
        r.deep_view() == split_tags_flow_spec(s@),
{
    let mut out: Vec<String> = Vec::new();
    let mut cur: Vec<char> = Vec::new();
    let mut in_dq = false;
    let mut i: usize = 0;
    assert(out.deep_view() =~= Seq::<Seq<char>>::empty());
    while i < s.len()
        invariant
            i <= s@.len(),
            flow_scan(s@.take(i as int)) == (FlowState {
                out: out.deep_view(),
                cur: cur@,
                in_dq: in_dq,
            }),
        decreases s@.len() - i,
    {
        let c = s[i];
        proof {
            assert(s@.take(i + 1).drop_last() =~= s@.take(i as int));
        }
        if c == '"' {
            in_dq = !in_dq;
            cur.push(c);
        } else if c == ',' && !in_dq {
            push_item(&mut out, &cur);
            cur = Vec::new();
            assert(cur@ =~= Seq::<char>::empty());
        } else {
            cur.push(c);
        }
        i += 1;
    }
    assert(s@.take(s@.len() as int) =~= s@);
    push_item(&mut out, &cur);
    out
}

/// Splits an inline list `a, "b,c", d` at the commas that stand outside double
/// quotes; items are trimmed and unquoted, and empty ones dropped.
pub fn split_tags_flow(s: &str) -> (r: Vec<String>)
    ensures
        r.deep_view() == split_tags_flow_spec(s@),
{
    let v = chars_of(s);
    split_tags_flow_chars(&v)
}

// ------------------------------------------------------------------ parsing

/// Parser state: the fields read so far, and whether `- item` lines are
/// taken as tags (after a bare `tags:`).
pub struct PState {
    pub fm: FmView,
    pub in_tags: bool,
}

pub open spec fn dash_space() -> Seq<char> {
    seq!['-', ' ']
}

/// One closing `]` removed.
pub open spec fn strip_close(v: Seq<char>) -> Seq<char> {
    if v.len() > 0 && v.last() == ']' {
        v.drop_last()
    } else {
        v
    }
}

/// The effect of a `key: value` line.
pub open spec fn assign(fm: FmView, k: Seq<char>, v: Seq<char>) -> PState {
    if k == "type"@ {
        PState { fm: FmView { type_: v, ..fm }, in_tags: false }
    } else if k == "title"@ {
        PState { fm: FmView { title: v, ..fm }, in_tags: false }
    } else if k == "created"@ {
        PState { fm: FmView { created: v, ..fm }, in_tags: false }
    } else if k == "status"@ {
        PState { fm: FmView { status: Some(v), ..fm }, in_tags: false }
    } else if k == "due"@ {
        PState { fm: FmView { due: Some(v), ..fm }, in_tags: false }
    } else if k == "done"@ {
        PState { fm: FmView { done: Some(v), ..fm }, in_tags: false }
    } else if k == "tags"@ {
        if v == "[]"@ {
            PState { fm: FmView { tags: Seq::empty(), ..fm }, in_tags: false }
        } else if v.len() > 0 && v[0] == '[' {
            PState {
                fm: FmView { tags: split_tags_flow_spec(strip_close(v.skip(1))), ..fm },
                in_tags: false,
            }
        } else {
            PState { fm, in_tags: true }
        }
    } else {
        PState { fm, in_tags: false }
    }
}

pub open spec fn line_error(t: Seq<char>) -> Seq<char> {
    "frontmatter 行无法解析: \""@ + t + "\""@
}

/// The effect of one line of the block; only the trimmed line matters.
pub open spec fn step(st: PState, line: Seq<char>) -> Result<PState, Seq<char>> {
    let t = trim(line);
    if t.len() == 0 {
        Ok(st)
    } else if st.in_tags && starts_with(t, dash_space()) {
        Ok(PState { fm: FmView { tags: st.fm.tags.push(trim(t.skip(2))), ..st.fm }, in_tags: true })
    } else {
        match split_once(t, ':') {
            Some((k, v)) => Ok(assign(st.fm, trim(k), strip_paired_quotes_spec(trim(v)))),
            None => Err(line_error(t)),
        }
    }
}

/// The lines of a block read in order; the first bad line stops the reading.
pub open spec fn run(ls: Seq<Seq<char>>, st: PState) -> Result<PState, Seq<char>>
    decreases ls.len(),
{
    if ls.len() == 0 {
        Ok(st)
    } else {
        match run(ls.drop_last(), st) {
            Ok(s) => step(s, ls.last()),
            Err(e) => Err(e),
        }
    }
}

pub open spec fn init_state() -> PState {
    PState { fm: fm_empty(), in_tags: false }
}

/// `thought` is the older name of `idea`.
pub open spec fn normalize(fm: FmView) -> FmView {
    if fm.type_ == "thought"@ {
        FmView { type_: "idea"@, ..fm }
    } else {
        fm
    }
}

pub open spec fn missing_block() -> Seq<char> {
    "缺少 frontmatter 块（文件需以 --- 开头）"@
}

/// The front matter of a text, or the message that says why it has none.
pub open spec fn parse_fm_spec(text: Seq<char>) -> Result<FmView, Seq<char>> {
    match split_fm_spec(text) {
        None => Err(missing_block()),
        Some((block, _)) => match run(lines(block), init_state()) {
            Ok(st) => Ok(normalize(st.fm)),
            Err(e) => Err(e),
        },
    }
}

pub open spec fn state_of(fm: Fm, in_tags: bool) -> PState {
    PState { fm: fm@, in_tags }
}

/// Applies one line of the block to the fields read so far.
fn apply_line(fm: &mut Fm, in_tags: &mut bool, line: &[char]) -> (r: Result<(), String>)
    ensures
        match step(state_of(*old(fm), *old(in_tags)), line@) {
            Ok(st) => r is Ok && state_of(*final(fm), *final(in_tags)) == st,
            Err(e) => r matches Err(m) && m@ == e,
        },
{
    let t = trim_chars(line);
    if t.len() == 0 {
        return Ok(());
    }
    let ds = ['-', ' '];
    let ghost ds_v = ds@;
    assert(ds@ =~= dash_space());
    if *in_tags && starts_with_chars(&t, &ds) {
        let item = slice_of(&t, 2, t.len());
        let item = trim_chars(&item);
        proof {
            assert(item@ == trim(t@.skip(2))) by {
                assert(t@.subrange(2, t@.len() as int) =~= t@.skip(2));
            }
        }
        let ghost before = fm@;
        fm.tags.push(string_of(&item));
        proof {
            assert(fm.tags.deep_view() =~= before.tags.push(item@));
        }
        return Ok(());
    }
    let i = find_from(&t, ':', 0);
    proof {
        assert(t@.skip(0) =~= t@);
        lemma_first_index(t@, ':');
    }
    if i == t.len() {
        let mut m = String::from_str("frontmatter 行无法解析: \"");
        m.append(string_of(&t).as_str());
        m.append("\"");
        return Err(m);
    }
    let k = slice_of(&t, 0, i);
    let k = trim_chars(&k);
    let v = slice_of(&t, i + 1, t.len());
    let v = trim_chars(&v);
    let v = strip_paired_quotes_chars(&v);
    proof {
        assert(t@.take(i as int) =~= t@.subrange(0, i as int));
        assert(t@.skip(i + 1) =~= t@.subrange(i + 1, t@.len() as int));
    }
    let ghost before = fm@;
    if is_lit(&k, "type") {
        fm.type_ = string_of(&v);
        *in_tags = false;
    } else if is_lit(&k, "title") {
        fm.title = string_of(&v);
        *in_tags = false;
    } else if is_lit(&k, "created") {
        fm.created = string_of(&v);
        *in_tags = false;
    } else if is_lit(&k, "status") {
        fm.status = Some(string_of(&v));
        *in_tags = false;
    } else if is_lit(&k, "due") {
        fm.due = Some(string_of(&v));
        *in_tags = false;
    } else if is_lit(&k, "done") {
        fm.done = Some(string_of(&v));
        *in_tags = false;
    } else if is_lit(&k, "tags") {
        if is_lit(&v, "[]") {
            fm.tags = Vec::new();
            assert(fm.tags.deep_view() =~= Seq::<Seq<char>>::empty());
            *in_tags = false;
        } else if v.len() > 0 && v[0] == '[' {
            let inner = slice_of(&v, 1, v.len());
            let inner = if inner.len() > 0 && inner[inner.len() - 1] == ']' {
                slice_of(&inner, 0, inner.len() - 1)
            } else {
                inner
            };
            proof {
                assert(v@.subrange(1, v@.len() as int) =~= v@.skip(1));
                let x = v@.skip(1);
                if x.len() > 0 && x.last() == ']' {
                    assert(x.subrange(0, x.len() - 1) =~= x.drop_last());
                }
            }
            fm.tags = split_tags_flow_chars(&inner);
            *in_tags = false;
        } else {
            *in_tags = true;
        }
    } else {
        *in_tags = false;
    }
    Ok(())
}

/// Reads the front matter of an entry: `key: value` lines, with `tags` as a
/// block list (`- item` lines) or an inline list (`[a, b]`); unknown keys are
/// tolerated, and a line without a colon is an error.
pub fn parse_fm(text: &str) -> (r: Result<Fm, String>)
    ensures
        match (r, parse_fm_spec(text@)) {
            (Ok(f), Ok(g)) => f@ == g,
            (Err(e), Err(m)) => e@ == m,
            _ => false,
        },
{
    let v = chars_of(text);
    let (block, _body) = match split_fm_chars(&v) {
        Some(p) => p,
        None => {
            return Err(String::from_str("缺少 frontmatter 块（文件需以 --- 开头）"));
        },
    };
    let ls = lines_of(&block);
    let mut fm = Fm {
        type_: String::new(),
        title: String::new(),
        created: String::new(),
        status: None,
        due: None,
        done: None,
        tags: Vec::new(),
    };
    let mut in_tags = false;
    assert(fm@ == fm_empty()) by {
        assert(fm.tags.deep_view() =~= Seq::<Seq<char>>::empty());
    }
    let ghost lv = ls.deep_view();
    assert(lv.take(0) =~= Seq::<Seq<char>>::empty());
    let mut i: usize = 0;
    while i < ls.len()
        invariant
            i <= ls@.len(),
            lv == ls.deep_view(),
            lv == lines(block@),
            v@ == text@,
            split_fm_spec(text@) matches Some((f, _)) && f == block@,
            lv.len() == ls@.len(),
            run(lv.take(i as int), init_state()) == Ok::<PState, Seq<char>>(state_of(fm, in_tags)),
        decreases ls@.len() - i,
    {
        proof {
            assert(lv.take(i + 1).drop_last() =~= lv.take(i as int));
            assert(lv.take(i + 1).last() == ls@[i as int]@);
            assert(ls@[i as int].deep_view() =~= ls@[i as int]@);
        }
        let ghost st0 = state_of(fm, in_tags);
        match apply_line(&mut fm, &mut in_tags, ls[i].as_slice()) {
            Ok(()) => {},
            Err(e) => {
                proof {
                    assert(run(lv.take(i + 1), init_state()) == step(st0, lv[i as int]));
                    lemma_run_err_extends(lv, i as int + 1);
                }
                return Err(e);
            },
        }
        i += 1;
    }
    assert(lv.take(lv.len() as int) =~= lv);
    if is_lit(&chars_of(fm.type_.as_str()), "thought") {
        fm.type_ = String::from_str("idea");
    }
    Ok(fm)
}

/// Once a prefix of the lines fails, every longer prefix fails the same way.
pub proof fn lemma_run_err_extends(ls: Seq<Seq<char>>, i: int)
    requires
        0 <= i <= ls.len(),
        run(ls.take(i), init_state()) is Err,
    ensures
        run(ls, init_state()) == run(ls.take(i), init_state()),
    decreases ls.len() - i,
{
    if i == ls.len() {
        assert(ls.take(i) =~= ls);
    } else {
        assert(ls.take(i + 1).drop_last() =~= ls.take(i));
        lemma_run_err_extends(ls, i + 1);
    }
}

} // verus!

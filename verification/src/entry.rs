//! Entries of the vault: file names, folders, loading, linting and ordering.
use vstd::prelude::*;
use crate::dates::{is_date, naive_date_reading, parse_created, parse_created_spec, day_pattern};
use crate::frontmatter::{parse_fm, parse_fm_spec, split_fm, split_fm_spec, Fm, FmView};
use crate::text::{
    append_str,
    cat,
    chars_of,
    ends_with,
    ends_with_chars,
    eq_str,
    is_ascii_digit,
    is_ascii_lower,
    slice_of,
    string_of,
    trim,
    trim_chars,
};

verus! {

/// One entry of the vault: its folder, its file name without `.md`, its
/// front matter and its body.
#[derive(Debug)]
pub struct Entry {
    pub dir: String,
    pub stem: String,
    pub fm: Fm,
    pub body: String,
}

// ------------------------------------------------------------------ names

/// The four entry types (`thought` is read as `idea`).
pub open spec fn known_type(t: Seq<char>) -> bool {
    t == "thought"@ || t == "todo"@ || t == "idea"@ || t == "note"@
}

pub fn is_known_type(t: &str) -> (b: bool)
    ensures
        b == known_type(t@),
{
    eq_str(t, "thought") || eq_str(t, "todo") || eq_str(t, "idea") || eq_str(t, "note")
}

/// The folder an entry of a type belongs in.
pub open spec fn type_dir_spec(t: Seq<char>) -> Option<Seq<char>> {
    if t == "todo"@ {
        Some("todo"@)
    } else if t == "idea"@ || t == "thought"@ {
        Some("ideas"@)
    } else if t == "note"@ {
        Some("notes"@)
    } else {
        None
    }
}

/// The folder an entry of type `t` belongs in.
pub fn type_dir(t: &str) -> (r: Option<&'static str>)
    ensures
        match (r, type_dir_spec(t@)) {
            (Some(d), Some(e)) => d@ == e,
            (None, None) => true,
            _ => false,
        },
{
    if eq_str(t, "todo") {
        Some("todo")
    } else if eq_str(t, "idea") || eq_str(t, "thought") {
        Some("ideas")
    } else if eq_str(t, "note") {
        Some("notes")
    } else {
        None
    }
}

/// A CJK character: kana, CJK ideographs (the unified blocks, their
/// extensions and the compatibility ideographs) and Hangul syllables.
pub open spec fn is_cjk(c: char) -> bool {
    ||| '\u{3040}' <= c && c <= '\u{30FF}'
    ||| '\u{3400}' <= c && c <= '\u{4DBF}'
    ||| '\u{4E00}' <= c && c <= '\u{9FFF}'
    ||| '\u{AC00}' <= c && c <= '\u{D7A3}'
    ||| '\u{F900}' <= c && c <= '\u{FAFF}'
    ||| '\u{20000}' <= c && c <= '\u{2FFFF}'
}

/// Whether `c` is a CJK character (see `is_cjk`).
pub fn is_cjk_char(c: char) -> (b: bool)
    ensures
        b == is_cjk(c),
{
    ('\u{3040}' <= c && c <= '\u{30FF}') || ('\u{3400}' <= c && c <= '\u{4DBF}') || ('\u{4E00}' <= c
        && c <= '\u{9FFF}') || ('\u{AC00}' <= c && c <= '\u{D7A3}') || ('\u{F900}' <= c && c
        <= '\u{FAFF}') || ('\u{20000}' <= c && c <= '\u{2FFFF}')
}

/// A character a slug may hold: a lowercase ASCII letter, a digit, a
/// hyphen or a CJK character.
pub open spec fn is_slug_char(c: char) -> bool {
    is_ascii_lower(c) || is_ascii_digit(c) || c == '-' || is_cjk(c)
}

/// `YYYYMMDD-HHMM-slug`: twelve digits around two hyphens, and a nonempty
/// slug of lowercase ASCII letters, digits, hyphens and CJK characters.
pub open spec fn valid_filename_spec(s: Seq<char>) -> bool {
    &&& s.len() > 14
    &&& forall|i: int| 0 <= i < 8 ==> is_ascii_digit(#[trigger] s[i])
    &&& s[8] == '-'
    &&& forall|i: int| 9 <= i < 13 ==> is_ascii_digit(#[trigger] s[i])
    &&& s[13] == '-'
    &&& forall|i: int| 14 <= i < s.len() ==> is_slug_char(#[trigger] s[i])
}

/// Whether a file name (without `.md`) has the vault's form.
pub fn valid_filename(stem: &str) -> (b: bool)
    ensures
        b == valid_filename_spec(stem@),
{
    let v = chars_of(stem);
    let n = v.len();
    if n <= 14 {
        return false;
    }
    let mut j: usize = 0;
    while j < 13
        invariant
            n == v@.len(),
            v@ == stem@,
            n > 14,
            j <= 13,
            forall|k: int| 0 <= k < j && k != 8 ==> is_ascii_digit(#[trigger] v@[k]),
            j > 8 ==> v@[8] == '-',
        decreases 13 - j,
    {
        if j == 8 {
            if v[j] != '-' {
                return false;
            }
        } else if !('0' <= v[j] && v[j] <= '9') {
            return false;
        }
        j += 1;
    }
    if v[13] != '-' {
        return false;
    }
    let mut k: usize = 14;
    while k < n
        invariant
            n == v@.len(),
            v@ == stem@,
            forall|m: int| 0 <= m < 13 && m != 8 ==> is_ascii_digit(#[trigger] v@[m]),
            v@[8] == '-',
            v@[13] == '-',
            14 <= k <= n,
            forall|m: int| 14 <= m < k ==> is_slug_char(#[trigger] v@[m]),
        decreases n - k,
    {
        let c = v[k];
        if !(('a' <= c && c <= 'z') || ('0' <= c && c <= '9') || c == '-' || is_cjk_char(c)) {
            return false;
        }
        k += 1;
    }
    proof {
        assert(forall|m: int| 0 <= m < 8 ==> is_ascii_digit(#[trigger] v@[m]));
        assert(forall|m: int| 9 <= m < 13 ==> is_ascii_digit(#[trigger] v@[m]));
    }
    true
}

// ------------------------------------------------------------------ loading

/// Every trailing `p` removed (`str::trim_end_matches` with a nonempty text).
pub open spec fn trim_end_matches(s: Seq<char>, p: Seq<char>) -> Seq<char>
    decreases s.len(),
{
    if p.len() > 0 && ends_with(s, p) {
        trim_end_matches(s.take(s.len() - p.len()), p)
    } else {
        s
    }
}

pub fn trim_end_matches_chars(s: &[char], p: &[char]) -> (r: Vec<char>)
    ensures
        r@ == trim_end_matches(s@, p@),
{
    let mut cur = slice_of(s, 0, s.len());
    assert(s@.subrange(0, s@.len() as int) =~= s@);
    while p.len() > 0 && ends_with_chars(&cur, p)
        invariant
            trim_end_matches(cur@, p@) == trim_end_matches(s@, p@),
        decreases cur@.len(),
    {
        let n = cur.len() - p.len();
        let next = slice_of(&cur, 0, n);
        proof {
            assert(next@ =~= cur@.take(cur@.len() - p@.len()));
        }
        cur = next;
    }
    cur
}

/// A file of a folder is read as an entry when its name ends with `.md`.
pub fn is_entry_file(name: &str) -> (b: bool)
    ensures
        b == ends_with(name@, ".md"@),
{
    ends_with_chars(&chars_of(name), &chars_of(".md"))
}

/// The file name of an entry without its `.md` endings.
pub open spec fn stem_of(name: Seq<char>) -> Seq<char> {
    trim_end_matches(name, ".md"@)
}

pub fn stem_of_name(name: &str) -> (r: String)
    ensures
        r@ == stem_of(name@),
{
    let v = chars_of(name);
    let p = chars_of(".md");
    string_of(&trim_end_matches_chars(&v, &p))
}

/// `dir/name`, the way problems with a file are reported.
pub open spec fn rel_name(dir: Seq<char>, name: Seq<char>) -> Seq<char> {
    dir + "/"@ + name
}

/// An entry read from `dir/name` with contents `text`, or the file and the
/// reason it is not one.
pub fn load_entry(dir: &str, name: &str, text: &str) -> (r: Result<Entry, (String, String)>)
    ensures
        match (r, parse_fm_spec(text@)) {
            (Ok(e), Ok(fm)) => {
                &&& e.dir@ == dir@
                &&& e.stem@ == stem_of(name@)
                &&& e.fm@ == fm
                &&& split_fm_spec(text@) matches Some((_, b)) && e.body@ == b
            },
            (Err((f, m)), Err(msg)) => f@ == rel_name(dir@, name@) && m@ == msg,
            _ => false,
        },
{
    match parse_fm(text) {
        Ok(fm) => {
            let body = match split_fm(text) {
                Some((_, b)) => b,
                None => String::new(),
            };
            Ok(Entry { dir: dir.to_owned(), stem: stem_of_name(name), fm, body })
        },
        Err(e) => {
            let mut f = cat(dir, "/");
            append_str(&mut f, name);
            Err((f, e))
        },
    }
}

// ------------------------------------------------------------------ lint

pub open spec fn when(c: bool, m: Seq<char>) -> Seq<Seq<char>> {
    if c {
        seq![m]
    } else {
        Seq::empty()
    }
}

pub open spec fn quoted(s: Seq<char>) -> Seq<char> {
    "\""@ + s + "\""@
}

/// Problems with the state fields of a todo.
pub open spec fn todo_errs(fm: FmView) -> Seq<Seq<char>> {
    (match fm.status {
        Some(st) => when(
            st != "open"@ && st != "done"@,
            "status 无效: "@ + quoted(st) + "（应为 open|done）"@,
        ),
        None => Seq::empty(),
    }) + (match fm.due {
        Some(d) => when(
            naive_date_reading(d, day_pattern(), day_pattern()) is None,
            "due 无法解析: "@ + quoted(d) + "（应为 YYYY-MM-DD）"@,
        ),
        None => Seq::empty(),
    }) + (match fm.done {
        Some(d) => when(
            naive_date_reading(d, day_pattern(), day_pattern()) is None,
            "done 无法解析: "@ + quoted(d) + "（应为 YYYY-MM-DD）"@,
        ),
        None => Seq::empty(),
    })
}

/// The errors `check` reports for an entry, in order.
pub open spec fn check_errs(stem: Seq<char>, fm: FmView) -> Seq<Seq<char>> {
    when(!valid_filename_spec(stem), "文件名不符合 YYYYMMDD-HHMM-slug 格式（slug 仅限小写字母、数字、连字符与中日韩字符）"@)
        + when(!known_type(fm.type_), "type 无效: "@ + quoted(fm.type_))
        + when(trim(fm.title).len() == 0, "title 缺失或为空"@)
        + (if fm.created.len() == 0 {
        seq!["created 缺失"@]
    } else {
        when(
            parse_created_spec(fm.created) is None,
            "created 无法解析: "@ + quoted(fm.created),
        )
    }) + (if fm.type_ == "todo"@ {
        todo_errs(fm)
    } else {
        Seq::empty()
    })
}

/// The warnings `check` reports: an entry outside the folder of its type
/// (inbox and archive are fine for every type).
pub open spec fn check_warns(dir: Seq<char>, fm: FmView) -> Seq<Seq<char>> {
    match type_dir_spec(fm.type_) {
        Some(expect) => when(
            dir != expect && dir != "inbox"@ && dir != "archive"@,
            "type "@ + fm.type_ + " 一般放 "@ + expect + "/，当前在 "@ + dir + "/"@,
        ),
        None => Seq::empty(),
    }
}

fn push_msg(v: &mut Vec<String>, m: String)
    ensures
        final(v).deep_view() == old(v).deep_view().push(m@),
{
    let ghost before = v.deep_view();
    v.push(m);
    assert(v.deep_view() =~= before.push(m@));
}

fn quote_str(s: &str) -> (r: String)
    ensures
        r@ == quoted(s@),
{
    let mut r = String::from_str("\"");
    append_str(&mut r, s);
    append_str(&mut r, "\"");
    r
}

fn date_problem(errs: &mut Vec<String>, field: &Option<String>, head: &str)
    ensures
        final(errs).deep_view() == old(errs).deep_view() + match crate::frontmatter::opt_view(*field) {
            Some(d) => when(
                naive_date_reading(d, day_pattern(), day_pattern()) is None,
                head@ + quoted(d) + "（应为 YYYY-MM-DD）"@,
            ),
            None => Seq::empty(),
        },
{
    let ghost before = errs.deep_view();
    match field {
        Some(d) => {
            if !is_date(d.as_str()) {
                let mut m = head.to_owned();
                append_str(&mut m, quote_str(d.as_str()).as_str());
                append_str(&mut m, "（应为 YYYY-MM-DD）");
                push_msg(errs, m);
                assert(errs.deep_view() =~= before + seq![m@]);
            } else {
                assert(errs.deep_view() =~= before + Seq::<Seq<char>>::empty());
            }
        },
        None => {
            assert(errs.deep_view() =~= before + Seq::<Seq<char>>::empty());
        },
    }
}

fn status_problem(errs: &mut Vec<String>, status: &Option<String>)
    ensures
        final(errs).deep_view() == old(errs).deep_view() + match crate::frontmatter::opt_view(*status) {
            Some(st) => when(st != "open"@ && st != "done"@, "status 无效: "@ + quoted(st) + "（应为 open|done）"@),
            None => Seq::empty(),
        },
{
    let ghost before = errs.deep_view();
    match status {
        Some(st) => {
            if !eq_str(st.as_str(), "open") && !eq_str(st.as_str(), "done") {
                let mut m = String::from_str("status 无效: ");
                append_str(&mut m, quote_str(st.as_str()).as_str());
                append_str(&mut m, "（应为 open|done）");
                push_msg(errs, m);
                assert(errs.deep_view() =~= before + seq![m@]);
            } else {
                assert(errs.deep_view() =~= before + Seq::<Seq<char>>::empty());
            }
        },
        None => {
            assert(errs.deep_view() =~= before + Seq::<Seq<char>>::empty());
        },
    }
}

fn todo_problems(errs: &mut Vec<String>, fm: &Fm)
    ensures
        final(errs).deep_view() == old(errs).deep_view() + todo_errs(fm@),
{
    let ghost e0 = errs.deep_view();
    status_problem(errs, &fm.status);
    let ghost e1 = errs.deep_view();
    date_problem(errs, &fm.due, "due 无法解析: ");
    let ghost e2 = errs.deep_view();
    date_problem(errs, &fm.done, "done 无法解析: ");
    assert(errs.deep_view() =~= e0 + todo_errs(fm@));
}

fn push_when(errs: &mut Vec<String>, c: bool, m: &str)
    ensures
        final(errs).deep_view() == old(errs).deep_view() + when(c, m@),
{
    let ghost before = errs.deep_view();
    if c {
        push_msg(errs, m.to_owned());
        assert(errs.deep_view() =~= before + seq![m@]);
    } else {
        assert(errs.deep_view() =~= before + Seq::<Seq<char>>::empty());
    }
}

fn created_problem(errs: &mut Vec<String>, created: &str)
    ensures
        final(errs).deep_view() == old(errs).deep_view() + (if created@.len() == 0 {
            seq!["created 缺失"@]
        } else {
            when(parse_created_spec(created@) is None, "created 无法解析: "@ + quoted(created@))
        }),
{
    let ghost before = errs.deep_view();
    if created.is_empty() {
        push_msg(errs, String::from_str("created 缺失"));
        assert(errs.deep_view() =~= before + seq!["created 缺失"@]);
    } else {
        let mut m = String::from_str("created 无法解析: ");
        append_str(&mut m, quote_str(created).as_str());
        push_when(errs, parse_created(created).is_none(), m.as_str());
    }
}

fn head_problems(errs: &mut Vec<String>, stem: &str, fm: &Fm)
    ensures
        final(errs).deep_view() == old(errs).deep_view() + (
            when(!valid_filename_spec(stem@), "文件名不符合 YYYYMMDD-HHMM-slug 格式（slug 仅限小写字母、数字、连字符与中日韩字符）"@)
            + when(!known_type(fm@.type_), "type 无效: "@ + quoted(fm@.type_))
            + when(trim(fm@.title).len() == 0, "title 缺失或为空"@)),
{
    let ghost e0 = errs.deep_view();
    push_when(errs, !valid_filename(stem), "文件名不符合 YYYYMMDD-HHMM-slug 格式（slug 仅限小写字母、数字、连字符与中日韩字符）");
    let mut m = String::from_str("type 无效: ");
    append_str(&mut m, quote_str(fm.type_.as_str()).as_str());
    push_when(errs, !is_known_type(fm.type_.as_str()), m.as_str());
    let tv = chars_of(fm.title.as_str());
    push_when(errs, trim_chars(&tv).len() == 0, "title 缺失或为空");
    assert(errs.deep_view() =~= e0 + (
        when(!valid_filename_spec(stem@), "文件名不符合 YYYYMMDD-HHMM-slug 格式（slug 仅限小写字母、数字、连字符与中日韩字符）"@)
        + when(!known_type(fm@.type_), "type 无效: "@ + quoted(fm@.type_))
        + when(trim(fm@.title).len() == 0, "title 缺失或为空"@)));
}

fn folder_warning(dir: &str, fm: &Fm) -> (r: Vec<String>)
    ensures
        r.deep_view() == check_warns(dir@, fm@),
{
    let mut warns: Vec<String> = Vec::new();
    match type_dir(fm.type_.as_str()) {
        Some(expect) => {
            if !eq_str(dir, expect) && !eq_str(dir, "inbox") && !eq_str(dir, "archive") {
                let mut m = String::from_str("type ");
                append_str(&mut m, fm.type_.as_str());
                append_str(&mut m, " 一般放 ");
                append_str(&mut m, expect);
                append_str(&mut m, "/，当前在 ");
                append_str(&mut m, dir);
                append_str(&mut m, "/");
                push_msg(&mut warns, m);
            }
        },
        None => {},
    }
    assert(warns.deep_view() =~= check_warns(dir@, fm@));
    warns
}

/// Lints one entry: the errors (file name, fields) and the warnings (folder).
pub fn check_entry(dir: &str, stem: &str, fm: &Fm) -> (r: (Vec<String>, Vec<String>))
    ensures
        r.0.deep_view() == check_errs(stem@, fm@),
        r.1.deep_view() == check_warns(dir@, fm@),
{
    let mut errs: Vec<String> = Vec::new();
    let ghost e0 = errs.deep_view();
    head_problems(&mut errs, stem, fm);
    let ghost e1 = errs.deep_view();
    created_problem(&mut errs, fm.created.as_str());
    let ghost e2 = errs.deep_view();
    if eq_str(fm.type_.as_str(), "todo") {
        todo_problems(&mut errs, fm);
    }
    proof {
        assert(e0 =~= Seq::<Seq<char>>::empty());
        if fm@.type_ != "todo"@ {
            assert(errs.deep_view() =~= e2 + Seq::<Seq<char>>::empty());
        }
        assert(errs.deep_view() =~= check_errs(stem@, fm@));
    }
    let warns = folder_warning(dir, fm);
    (errs, warns)
}

// ------------------------------------------------------------------ state and order

/// A todo that is done.
pub open spec fn is_done_spec(e: Entry) -> bool {
    e.fm.type_@ == "todo"@ && crate::frontmatter::opt_view(e.fm.status) == Some("done"@)
}

/// A todo that is not done (a missing status counts as open).
pub open spec fn is_open_spec(e: Entry) -> bool {
    e.fm.type_@ == "todo"@ && crate::frontmatter::opt_view(e.fm.status) != Some("done"@)
}

fn status_is_done(fm: &Fm) -> (b: bool)
    ensures
        b == (crate::frontmatter::opt_view(fm.status) == Some("done"@)),
{
    match &fm.status {
        Some(s) => eq_str(s.as_str(), "done"),
        None => false,
    }
}

/// Whether an entry is a done todo.
pub fn is_done_entry(e: &Entry) -> (b: bool)
    ensures
        b == is_done_spec(*e),
{
    eq_str(e.fm.type_.as_str(), "todo") && status_is_done(&e.fm)
}

/// Whether an entry is an open todo.
pub fn is_open_todo(e: &Entry) -> (b: bool)
    ensures
        b == is_open_spec(*e),
{
    eq_str(e.fm.type_.as_str(), "todo") && !status_is_done(&e.fm)
}

/// The sort key of an entry: its creation time, or 0 when it does not read.
pub open spec fn created_key(e: Entry) -> int {
    match parse_created_spec(e.fm.created@) {
        Some(t) => t as int,
        None => 0,
    }
}

pub fn created_key_of(e: &Entry) -> (k: i64)
    ensures
        k as int == created_key(*e),
{
    match parse_created(e.fm.created.as_str()) {
        Some(t) => t,
        None => 0,
    }
}

/// `p` lists each index below `n` once.
pub open spec fn is_perm(p: Seq<int>, n: int) -> bool {
    &&& p.len() == n
    &&& forall|i: int| 0 <= i < n ==> 0 <= #[trigger] p[i] < n
    &&& forall|i: int, j: int| 0 <= i < j < n ==> p[i] != p[j]
}

/// `r` is `v` newest first, entries of equal key in their old order; `p`
/// says where each entry of `r` stood in `v`.
pub open spec fn newest_first(r: Seq<Entry>, v: Seq<Entry>, p: Seq<int>) -> bool {
    &&& is_perm(p, v.len() as int)
    &&& r.len() == v.len()
    &&& forall|i: int| 0 <= i < r.len() ==> r[i] == v[#[trigger] p[i]]
    &&& forall|i: int, j: int| 0 <= i < j < r.len() ==> created_key(r[i]) >= created_key(r[j])
    &&& forall|i: int, j: int|
        0 <= i < j < r.len() && created_key(r[i]) == created_key(r[j]) ==> p[i] < p[j]
}

/// Orders entries newest first by `created`; entries whose `created` does not
/// read count as time 0; entries of equal time keep their order.
pub fn sort_by_created(entries: &mut Vec<Entry>)
    ensures
        exists|p: Seq<int>| newest_first(final(entries)@, old(entries)@, p),
        forall|i: int, j: int|
            #![trigger final(entries)@[i], final(entries)@[j]]
            0 <= i < j < final(entries)@.len() ==> (match parse_created_spec(
                final(entries)@[i].fm.created@,
            ) {
                Some(t) => t as int,
                None => 0,
            }) >= (match parse_created_spec(final(entries)@[j].fm.created@) {
                Some(t) => t as int,
                None => 0,
            }),
{
    let ghost v = entries@;
    let mut src: Vec<Entry> = Vec::new();
    std::mem::swap(&mut src, entries);
    let mut out: Vec<Entry> = Vec::new();
    let mut keys: Vec<i64> = Vec::new();
    let ghost mut p: Seq<int> = Seq::empty();
    let n = src.len();
    let mut i: usize = 0;
    assert(v.skip(0) =~= v);
    while i < n
        invariant
            n == v.len(),
            i <= n,
            src@ == v.skip(i as int),
            out@.len() == i,
            keys@.len() == i,
            p.len() == i,
            forall|k: int| 0 <= k < i ==> 0 <= #[trigger] p[k] < i,
            forall|k: int, m: int| 0 <= k < m < i ==> p[k] != p[m],
            forall|k: int| 0 <= k < i ==> out@[k] == v[#[trigger] p[k]],
            forall|k: int| 0 <= k < i ==> keys@[k] as int == created_key(#[trigger] out@[k]),
            forall|k: int, m: int| 0 <= k < m < i ==> created_key(out@[k]) >= created_key(out@[m]),
            forall|k: int, m: int|
                0 <= k < m < i && created_key(out@[k]) == created_key(out@[m]) ==> p[k] < p[m],
        decreases n - i,
    {
        let e = src.remove(0);
        proof {
            assert(e == v[i as int]);
            assert(src@ =~= v.skip(i + 1));
        }
        let key = created_key_of(&e);
        let mut j: usize = 0;
        while j < keys.len() && keys[j] >= key
            invariant
                j <= keys@.len(),
                keys@.len() == i,
                forall|k: int| 0 <= k < j ==> keys@[k] >= key,
            decreases keys@.len() - j,
        {
            j += 1;
        }
        let ghost old_out = out@;
        let ghost old_keys = keys@;
        let ghost old_p = p;
        let ghost ke = key as int;
        out.insert(j, e);
        keys.insert(j, key);
        proof {
            p = old_p.insert(j as int, i as int);
            let jj = j as int;
            assert(jj < i ==> old_keys[jj] < key);
            assert forall|k: int| 0 <= k <= i implies out@[k] == v[#[trigger] p[k]] by {
                if k < jj {
                    assert(out@[k] == old_out[k]);
                } else if k > jj {
                    assert(out@[k] == old_out[k - 1]);
                }
            }
            assert forall|k: int| 0 <= k <= i implies keys@[k] as int == created_key(
                #[trigger] out@[k],
            ) by {
                if k < jj {
                    assert(out@[k] == old_out[k]);
                } else if k > jj {
                    assert(out@[k] == old_out[k - 1]);
                }
            }
            assert forall|m: int| jj < m <= i implies created_key(#[trigger] out@[m]) < ke by {
                assert(out@[m] == old_out[m - 1]);
                assert(old_keys[jj] as int == created_key(old_out[jj]));
                if jj < m - 1 {
                    assert(created_key(old_out[jj]) >= created_key(old_out[m - 1]));
                }
            }
            assert forall|k: int| 0 <= k < jj implies created_key(#[trigger] out@[k]) >= ke by {
                assert(out@[k] == old_out[k]);
                assert(old_keys[k] as int == created_key(old_out[k]));
            }
            assert(created_key(out@[jj]) == ke);
            assert forall|k: int, m: int| 0 <= k < m <= i implies created_key(out@[k])
                >= created_key(out@[m]) by {
                if m < jj {
                    assert(out@[k] == old_out[k] && out@[m] == old_out[m]);
                } else if k > jj {
                    assert(out@[k] == old_out[k - 1] && out@[m] == old_out[m - 1]);
                } else if k < jj && m > jj {
                    assert(out@[k] == old_out[k] && out@[m] == old_out[m - 1]);
                }
            }
            assert forall|k: int, m: int|
                0 <= k < m <= i && created_key(out@[k]) == created_key(out@[m]) implies p[k]
                < p[m] by {
                if m < jj {
                    assert(out@[k] == old_out[k] && out@[m] == old_out[m]);
                } else if k > jj {
                    assert(out@[k] == old_out[k - 1] && out@[m] == old_out[m - 1]);
                } else if k < jj && m > jj {
                    assert(out@[k] == old_out[k] && out@[m] == old_out[m - 1]);
                }
            }
        }
        i += 1;
    }
    proof {
        assert(newest_first(out@, v, p));
    }
    *entries = out;
}

// ------------------------------------------------------------------ new entries

/// The slug scanner: characters kept so far, and whether the last one kept
/// is a hyphen (or nothing was kept yet).
pub open spec fn slug_scan(s: Seq<char>) -> (Seq<char>, bool)
    decreases s.len(),
{
    if s.len() == 0 {
        (Seq::empty(), true)
    } else {
        let (out, prev_dash) = slug_scan(s.drop_last());
        let c = crate::text::ascii_lower(s.last());
        if is_ascii_lower(c) || is_ascii_digit(c) || is_cjk(c) {
            (out.push(c), false)
        } else if !prev_dash {
            (out.push('-'), true)
        } else {
            (out, prev_dash)
        }
    }
}

/// Trailing hyphens removed.
pub open spec fn strip_trailing_dashes(s: Seq<char>) -> Seq<char>
    decreases s.len(),
{
    if s.len() > 0 && s.last() == '-' {
        strip_trailing_dashes(s.drop_last())
    } else {
        s
    }
}

/// The slug of a title: ASCII letters lowercased, digits and CJK characters
/// kept, every run of other characters one hyphen, no hyphen at either end.
pub open spec fn slugify_spec(s: Seq<char>) -> Seq<char> {
    strip_trailing_dashes(slug_scan(s).0)
}

/// The slug of a title (see `slugify_spec`).
pub fn slugify(s: &str) -> (r: String)
    ensures
        r@ == slugify_spec(s@),
{
    let v = chars_of(s);
    let mut out: Vec<char> = Vec::new();
    let mut prev_dash = true;
    let mut i: usize = 0;
    assert(v@.take(0) =~= Seq::<char>::empty());
    while i < v.len()
        invariant
            i <= v@.len(),
            v@ == s@,
            slug_scan(v@.take(i as int)) == (out@, prev_dash),
        decreases v@.len() - i,
    {
        proof {
            assert(v@.take(i + 1).drop_last() =~= v@.take(i as int));
            assert(v@.take(i + 1).last() == v@[i as int]);
        }
        let c = crate::text::to_ascii_lower(v[i]);
        if ('a' <= c && c <= 'z') || ('0' <= c && c <= '9') || is_cjk_char(c) {
            out.push(c);
            prev_dash = false;
        } else if !prev_dash {
            out.push('-');
            prev_dash = true;
        }
        i += 1;
    }
    assert(v@.take(v@.len() as int) =~= v@);
    while out.len() > 0 && out[out.len() - 1] == '-'
        invariant
            strip_trailing_dashes(out@) == slugify_spec(s@),
        decreases out@.len(),
    {
        let ghost before = out@;
        out.pop();
        assert(out@ =~= before.drop_last());
    }
    string_of(&out)
}


// ------------------------------------------------------------------ what check reports of dates

/// `check` reports a todo's `done` date that does not read as a
/// `YYYY-MM-DD` day, naming the value: it is the last error of the entry.
pub proof fn law_bad_done_date_reported(stem: Seq<char>, fm: FmView, d: Seq<char>)
    requires
        fm.type_ == "todo"@,
        fm.done == Some(d),
        naive_date_reading(d, "%Y-%m-%d"@, "%Y-%m-%d"@) is None,
    ensures
        check_errs(stem, fm).len() > 0,
        check_errs(stem, fm).last() == "done 无法解析: \""@ + d + "\"（应为 YYYY-MM-DD）"@,
{
    let z = when(
        naive_date_reading(d, day_pattern(), day_pattern()) is None,
        "done 无法解析: "@ + quoted(d) + "（应为 YYYY-MM-DD）"@,
    );
    assert(z =~= seq!["done 无法解析: "@ + quoted(d) + "（应为 YYYY-MM-DD）"@]);
    reveal_strlit("done 无法解析: ");
    reveal_strlit("\"");
    reveal_strlit("done 无法解析: \"");
    reveal_strlit("\"（应为 YYYY-MM-DD）");
    reveal_strlit("（应为 YYYY-MM-DD）");
    assert("done 无法解析: "@ + quoted(d) + "（应为 YYYY-MM-DD）"@ =~= "done 无法解析: \""@ + d
        + "\"（应为 YYYY-MM-DD）"@);
}

/// `check` reports a todo's `due` date that does not read as a
/// `YYYY-MM-DD` day, naming the value.
pub proof fn law_bad_due_date_reported(stem: Seq<char>, fm: FmView, d: Seq<char>)
    requires
        fm.type_ == "todo"@,
        fm.due == Some(d),
        naive_date_reading(d, "%Y-%m-%d"@, "%Y-%m-%d"@) is None,
    ensures
        check_errs(stem, fm).contains("due 无法解析: \""@ + d + "\"（应为 YYYY-MM-DD）"@),
{
    let m = "due 无法解析: "@ + quoted(d) + "（应为 YYYY-MM-DD）"@;
    reveal_strlit("due 无法解析: ");
    reveal_strlit("\"");
    reveal_strlit("due 无法解析: \"");
    reveal_strlit("\"（应为 YYYY-MM-DD）");
    reveal_strlit("（应为 YYYY-MM-DD）");
    assert(m =~= "due 无法解析: \""@ + d + "\"（应为 YYYY-MM-DD）"@);
    let a = match fm.status {
        Some(st) => when(st != "open"@ && st != "done"@, "status 无效: "@ + quoted(st) + "（应为 open|done）"@),
        None => Seq::empty(),
    };
    let b = when(naive_date_reading(d, day_pattern(), day_pattern()) is None, m);
    assert(b =~= seq![m]);
    let c = match fm.done {
        Some(x) => when(
            naive_date_reading(x, day_pattern(), day_pattern()) is None,
            "done 无法解析: "@ + quoted(x) + "（应为 YYYY-MM-DD）"@,
        ),
        None => Seq::empty(),
    };
    let t = todo_errs(fm);
    assert(t =~= a + b + c);
    assert(t[a.len() as int] == m);
    let e = check_errs(stem, fm);
    let pre = e.len() - t.len();
    assert(e =~= e.take(pre) + t);
    assert(e[pre + a.len()] == m);
}

// ------------------------------------------------------------------ the order by creation

/// Newest first means by the instant itself: an entry before another was
/// created at the same instant or later (an unreadable `created` counting
/// as the Unix epoch), and entries of one instant keep their order.
pub proof fn law_newest_first_by_instant(r: Seq<Entry>, v: Seq<Entry>, p: Seq<int>)
    requires
        newest_first(r, v, p),
    ensures
        forall|i: int, j: int|
            #![trigger r[i], r[j]]
            0 <= i < j < r.len() ==> (match parse_created_spec(r[i].fm.created@) {
                Some(t) => t as int,
                None => 0,
            }) >= (match parse_created_spec(r[j].fm.created@) {
                Some(t) => t as int,
                None => 0,
            }),
        forall|i: int, j: int|
            #![trigger r[i], r[j]]
            0 <= i < j < r.len() && parse_created_spec(r[i].fm.created@) == parse_created_spec(
                r[j].fm.created@,
            ) ==> p[i] < p[j],
{
    assert forall|i: int, j: int| #![trigger r[i], r[j]] 0 <= i < j < r.len() implies (match parse_created_spec(r[i].fm.created@) {
        Some(t) => t as int,
        None => 0,
    }) >= (match parse_created_spec(r[j].fm.created@) {
        Some(t) => t as int,
        None => 0,
    }) by {
        assert(created_key(r[i]) >= created_key(r[j]));
    }
    assert forall|i: int, j: int|
        #![trigger r[i], r[j]]
        0 <= i < j < r.len() && parse_created_spec(r[i].fm.created@) == parse_created_spec(
            r[j].fm.created@,
        ) implies p[i] < p[j] by {
        assert(created_key(r[i]) == created_key(r[j]));
    }
}

// ------------------------------------------------------------------ what a slug keeps

/// The characters of a title that its slug keeps, in order: ASCII letters
/// (capitals made small), ASCII digits and CJK characters.
pub open spec fn slug_keeps(s: Seq<char>) -> Seq<char>
    decreases s.len(),
{
    if s.len() == 0 {
        Seq::empty()
    } else {
        let c = s.last();
        let rest = slug_keeps(s.drop_last());
        if 'a' <= c && c <= 'z' {
            rest.push(c)
        } else if 'A' <= c && c <= 'Z' {
            rest.push(((c as u32) + 32) as char)
        } else if ('0' <= c && c <= '9') || is_cjk(c) {
            rest.push(c)
        } else {
            rest
        }
    }
}

/// `s` with its hyphens left out.
pub open spec fn without_dashes(s: Seq<char>) -> Seq<char>
    decreases s.len(),
{
    if s.len() == 0 {
        Seq::empty()
    } else if s.last() == '-' {
        without_dashes(s.drop_last())
    } else {
        without_dashes(s.drop_last()).push(s.last())
    }
}

proof fn lemma_scan_keeps(s: Seq<char>)
    ensures
        without_dashes(slug_scan(s).0) == slug_keeps(s),
    decreases s.len(),
{
    if s.len() > 0 {
        lemma_scan_keeps(s.drop_last());
        let (out, prev_dash) = slug_scan(s.drop_last());
        let c = s.last();
        let lc = crate::text::ascii_lower(c);
        if 'A' <= c && c <= 'Z' {
            assert('a' <= lc && lc <= 'z');
        }
        if is_ascii_lower(lc) || is_ascii_digit(lc) || is_cjk(lc) {
            assert(out.push(lc).drop_last() =~= out);
        } else if !prev_dash {
            assert(out.push('-').drop_last() =~= out);
        }
    }
}

proof fn lemma_strip_keeps(s: Seq<char>)
    ensures
        without_dashes(strip_trailing_dashes(s)) == without_dashes(s),
    decreases s.len(),
{
    if s.len() > 0 && s.last() == '-' {
        lemma_strip_keeps(s.drop_last());
    }
}

/// A slug loses nothing of its title but what it may not hold: with its
/// hyphens left out, it is the title's ASCII letters (in small letters),
/// digits and CJK characters, all of them, in order.
pub proof fn law_slug_keeps_letters_and_digits(s: Seq<char>)
    ensures
        without_dashes(slugify_spec(s)) == slug_keeps(s),
{
    lemma_scan_keeps(s);
    lemma_strip_keeps(slug_scan(s).0);
}

} // verus!

//! A new entry: its type and folder, its file name, and the text written to
//! it; with what `check` and the reader later make of them.
use vstd::prelude::*;
use crate::entry::{
    slugify,
    slugify_spec,
    slug_scan,
    strip_trailing_dashes,
    is_slug_char,
    stem_of,
    trim_end_matches,
    valid_filename_spec,
    type_dir_spec,
};
use crate::frontmatter::{
    flow_scan,
    flush_item,
    parse_fm_spec,
    split_fm_spec,
    split_tags_flow_spec,
    strip_close,
    strip_paired_quotes_spec,
    FlowState,
    FmView,
    assign,
    init_state,
    run,
    normalize,
    fm_empty,
};
use crate::state::entry_text;
use crate::state_laws::{
    block_lines,
    lemma_kv_line,
    lemma_lines_unlines,
    lemma_run_strip_cr,
    lemma_split_rebuilt,
    no_newline,
    plain_value,
};
use crate::text::{
    append_str,
    chars_of,
    decimal,
    ends_with,
    eq_str,
    fmt_usize,
    is_ascii_digit,
    is_ascii_lower,
    is_ws,
    join,
    lines,
    slice_of,
    string_of,
    trailing_ws,
    trim,
    trim_end,
    lemma_trim_start_ws_prefix,
    lemma_trim_from_bounds,
};

verus! {

// ------------------------------------------------------------------ type, folder, slug

/// What `new` makes of the type it is given: `thought` is `idea`.
pub open spec fn new_type(t: Seq<char>) -> Seq<char> {
    if t == "thought"@ {
        "idea"@
    } else {
        t
    }
}

/// A new entry's type, folder and slug.
#[derive(Debug)]
pub struct NewPlan {
    pub type_: String,
    pub dir: String,
    pub slug: String,
}

/// The slug of a new entry: the title's slug cut to 40 characters, or the
/// type when the title has none.
pub open spec fn new_slug(title: Seq<char>, t: Seq<char>) -> Seq<char> {
    let s = slugify_spec(title);
    if s.len() == 0 {
        t
    } else if s.len() > 40 {
        s.take(40)
    } else {
        s
    }
}

/// The message for a type `new` does not know.
pub open spec fn unknown_type_msg(t: Seq<char>) -> Seq<char> {
    "未知类型 \""@ + t + "\"，可选: idea | todo | note"@
}

/// Where and under what slug `new` writes an entry: for a known type (after
/// `thought` is read as `idea`), its folder (or `inbox/` when asked), else
/// the message for an unknown type.
pub open spec fn new_plan_ok(t: Seq<char>, title: Seq<char>, inbox: bool, p: NewPlan) -> bool {
    let nt = new_type(t);
    &&& p.type_@ == nt
    &&& p.dir@ == (if inbox {
        "inbox"@
    } else {
        type_dir_spec(nt)->0
    })
    &&& p.slug@ == new_slug(title, nt)
}

pub open spec fn new_type_known(t: Seq<char>) -> bool {
    let nt = new_type(t);
    nt == "todo"@ || nt == "idea"@ || nt == "note"@
}

/// Plans a new entry (see `new_plan_ok`).
pub fn plan_new(t: &str, title: &str, inbox: bool) -> (r: Result<NewPlan, String>)
    ensures
        match r {
            Ok(p) => new_type_known(t@) && new_plan_ok(t@, title@, inbox, p),
            Err(m) => !new_type_known(t@) && m@ == unknown_type_msg(new_type(t@)),
        },
{
    let nt = if eq_str(t, "thought") {
        "idea"
    } else {
        t
    };
    if !(eq_str(nt, "todo") || eq_str(nt, "idea") || eq_str(nt, "note")) {
        let mut m = String::from_str("未知类型 \"");
        append_str(&mut m, nt);
        append_str(&mut m, "\"，可选: idea | todo | note");
        return Err(m);
    }
    proof {
        crate::state_laws::lemma_key_literals();
        reveal_strlit("todo");
        reveal_strlit("idea");
        reveal_strlit("note");
        reveal_strlit("thought");
    }
    let dir = if inbox {
        "inbox"
    } else {
        match crate::entry::type_dir(nt) {
            Some(d) => d,
            None => "inbox",
        }
    };
    let s = chars_of(slugify(title).as_str());
    let slug = if s.len() == 0 {
        nt.to_owned()
    } else if s.len() > 40 {
        string_of(&slice_of(&s, 0, 40))
    } else {
        string_of(&s)
    };
    assert(s@.subrange(0, 40) =~= s@.take(40));
    Ok(NewPlan { type_: nt.to_owned(), dir: dir.to_owned(), slug })
}

// ------------------------------------------------------------------ file name

/// The `n`-th file name tried for a new entry: `STAMP-SLUG.md`, then
/// `STAMP-SLUG-1.md`, `STAMP-SLUG-2.md`, … while the name is taken.
pub open spec fn new_file_name_spec(stamp: Seq<char>, slug: Seq<char>, n: nat) -> Seq<char> {
    if n == 0 {
        stamp + "-"@ + slug + ".md"@
    } else {
        stamp + "-"@ + slug + "-"@ + decimal(n) + ".md"@
    }
}

/// The `n`-th file name tried for a new entry (see `new_file_name_spec`).
pub fn new_file_name(stamp: &str, slug: &str, n: usize) -> (r: String)
    ensures
        r@ == new_file_name_spec(stamp@, slug@, n as nat),
{
    let mut r = stamp.to_owned();
    append_str(&mut r, "-");
    append_str(&mut r, slug);
    if n > 0 {
        append_str(&mut r, "-");
        append_str(&mut r, fmt_usize(n).as_str());
    }
    append_str(&mut r, ".md");
    r
}

// ------------------------------------------------------------------ text

pub open spec fn has_comma(t: Seq<char>) -> bool {
    exists|i: int| 0 <= i < t.len() && t[i] == ','
}

/// A tag as an item of a flow list: in double quotes when it holds a comma,
/// as it is otherwise.
pub open spec fn tag_item(t: Seq<char>) -> Seq<char> {
    if has_comma(t) {
        seq!['"'] + t + seq!['"']
    } else {
        t
    }
}

pub open spec fn tag_items(tags: Seq<Seq<char>>) -> Seq<Seq<char>> {
    Seq::new(tags.len(), |i: int| tag_item(tags[i]))
}

/// The tags line of a new entry: a flow list, `[]` for none.
pub open spec fn tags_line(tags: Seq<Seq<char>>) -> Seq<char> {
    if tags.len() == 0 {
        "tags: []"@
    } else {
        "tags: ["@ + join(tag_items(tags), ", "@) + "]"@
    }
}

/// A tag written as a flow list item (see `tag_item`).
fn tag_item_of(t: &str) -> (r: String)
    ensures
        r@ == tag_item(t@),
{
    let v = chars_of(t);
    let mut i: usize = 0;
    while i < v.len()
        invariant
            v@ == t@,
            i <= v@.len(),
            forall|j: int| 0 <= j < i ==> v@[j] != ',',
        decreases v@.len() - i,
    {
        if v[i] == ',' {
            let mut r = String::from_str("\"");
            append_str(&mut r, t);
            append_str(&mut r, "\"");
            proof {
                reveal_strlit("\"");
                assert(r@ =~= seq!['"'] + t@ + seq!['"']);
            }
            return r;
        }
        i += 1;
    }
    String::from_str(t)
}

/// The front matter lines of a new entry; a todo starts open.
pub open spec fn new_lines(t: Seq<char>, title: Seq<char>, created: Seq<char>, tags: Seq<Seq<char>>) -> Seq<
    Seq<char>,
> {
    if t == "todo"@ {
        seq![
            "type: "@ + t,
            "title: "@ + title,
            "created: "@ + created,
            "status: open"@,
            tags_line(tags),
        ]
    } else {
        seq!["type: "@ + t, "title: "@ + title, "created: "@ + created, tags_line(tags)]
    }
}

/// The text of a new entry: the front matter block, a blank line, and the
/// body with a final newline when there is one.
pub open spec fn new_text_spec(
    t: Seq<char>,
    title: Seq<char>,
    created: Seq<char>,
    tags: Seq<Seq<char>>,
    body: Seq<char>,
) -> Seq<char> {
    entry_text(
        new_lines(t, title, created, tags),
        if body.len() == 0 {
            "\n"@
        } else {
            "\n"@ + body + "\n"@
        },
    )
}

/// The text of a new entry (see `new_text_spec`); `created` is its RFC 3339
/// creation time.
pub fn new_entry_text(t: &str, title: &str, created: &str, tags: &[String], body: &str) -> (r: String)
    ensures
        r@ == new_text_spec(t@, title@, created@, tags.deep_view(), body@),
{
    let mut ls: Vec<Vec<char>> = Vec::new();
    let mut l1 = String::from_str("type: ");
    append_str(&mut l1, t);
    let mut l2 = String::from_str("title: ");
    append_str(&mut l2, title);
    let mut l3 = String::from_str("created: ");
    append_str(&mut l3, created);
    let tl = if tags.len() == 0 {
        String::from_str("tags: []")
    } else {
        let mut items: Vec<String> = Vec::new();
        let mut k: usize = 0;
        while k < tags.len()
            invariant
                k <= tags@.len(),
                items.deep_view() =~= tag_items(tags.deep_view()).take(k as int),
            decreases tags@.len() - k,
        {
            let ghost before = items.deep_view();
            items.push(tag_item_of(tags[k].as_str()));
            proof {
                assert(items.deep_view() =~= before.push(tag_item(tags.deep_view()[k as int])));
            }
            k += 1;
        }
        assert(tag_items(tags.deep_view()).take(tags@.len() as int) =~= tag_items(tags.deep_view()));
        let mut x = String::from_str("tags: [");
        append_str(&mut x, crate::text::join_strs(items.as_slice(), ", ").as_str());
        append_str(&mut x, "]");
        x
    };
    let ghost lv: Seq<Seq<char>> = if t@ == "todo"@ {
        seq![l1@, l2@, l3@, "status: open"@, tl@]
    } else {
        seq![l1@, l2@, l3@, tl@]
    };
    ls.push(chars_of(l1.as_str()));
    ls.push(chars_of(l2.as_str()));
    ls.push(chars_of(l3.as_str()));
    if eq_str(t, "todo") {
        ls.push(chars_of("status: open"));
    }
    ls.push(chars_of(tl.as_str()));
    proof {
        assert forall|i: int| 0 <= i < ls@.len() implies ls@[i].deep_view() == ls@[i]@ by {
            assert(ls@[i].deep_view() =~= ls@[i]@);
        }
        assert(ls.deep_view() =~= lv);
    }
    let mut r = String::from_str("---\n");
    append_str(&mut r, crate::state::join_lines(&ls).as_str());
    append_str(&mut r, "\n---\n");
    if body.is_empty() {
        append_str(&mut r, "\n");
    } else {
        let mut b = String::from_str("\n");
        append_str(&mut b, body);
        append_str(&mut b, "\n");
        append_str(&mut r, b.as_str());
    }
    r
}

// ------------------------------------------------------------------ what check makes of the name

/// A `YYYYMMDD-HHMM` time stamp.
pub open spec fn stamp_form(s: Seq<char>) -> bool {
    &&& s.len() == 13
    &&& forall|i: int| 0 <= i < 8 ==> is_ascii_digit(#[trigger] s[i])
    &&& s[8] == '-'
    &&& forall|i: int| 9 <= i < 13 ==> is_ascii_digit(#[trigger] s[i])
}

proof fn lemma_slug_scan_chars(s: Seq<char>)
    ensures
        forall|i: int| 0 <= i < slug_scan(s).0.len() ==> is_slug_char(#[trigger] slug_scan(s).0[i]),
    decreases s.len(),
{
    if s.len() > 0 {
        lemma_slug_scan_chars(s.drop_last());
        let prev = slug_scan(s.drop_last()).0;
        let out = slug_scan(s).0;
        assert forall|i: int| 0 <= i < out.len() implies is_slug_char(#[trigger] out[i]) by {
            if i < prev.len() {
                assert(out[i] == prev[i]);
            }
        }
    }
}

proof fn lemma_strip_dashes_prefix(s: Seq<char>)
    ensures
        strip_trailing_dashes(s).len() <= s.len(),
        forall|i: int| 0 <= i < strip_trailing_dashes(s).len() ==> #[trigger] strip_trailing_dashes(s)[i] == s[i],
    decreases s.len(),
{
    if s.len() > 0 && s.last() == '-' {
        lemma_strip_dashes_prefix(s.drop_last());
    }
}

/// The slug of a title holds only lowercase ASCII letters, digits, hyphens
/// and CJK characters.
pub proof fn lemma_slug_chars(s: Seq<char>)
    ensures
        forall|i: int| 0 <= i < slugify_spec(s).len() ==> is_slug_char(#[trigger] slugify_spec(s)[i]),
{
    lemma_slug_scan_chars(s);
    lemma_strip_dashes_prefix(slug_scan(s).0);
}

proof fn lemma_decimal_digits(n: nat)
    ensures
        decimal(n).len() > 0,
        forall|i: int| 0 <= i < decimal(n).len() ==> is_ascii_digit(#[trigger] decimal(n)[i]),
    decreases n,
{
    assert forall|d: int| 0 <= d < 10 implies is_ascii_digit(#[trigger] crate::text::digit_char(d)) by {
        let ds = seq!['0', '1', '2', '3', '4', '5', '6', '7', '8', '9'];
        assert(crate::text::digit_char(d) == ds[d]);
        if d == 0 {} else if d == 1 {} else if d == 2 {} else if d == 3 {} else if d == 4 {}
        else if d == 5 {} else if d == 6 {} else if d == 7 {} else if d == 8 {} else {}
    }
    if n >= 10 {
        lemma_decimal_digits(n / 10);
        let prev = decimal(n / 10);
        assert forall|i: int| 0 <= i < decimal(n).len() implies is_ascii_digit(#[trigger] decimal(n)[i]) by {
            if i < prev.len() {
                assert(decimal(n)[i] == prev[i]);
            }
        }
    }
}

/// The file names `new` tries all pass `check`: with a `YYYYMMDD-HHMM`
/// stamp, whatever the title.
pub proof fn law_new_name_checks(stamp: Seq<char>, title: Seq<char>, t: Seq<char>, n: nat)
    requires
        stamp_form(stamp),
        t == "todo"@ || t == "idea"@ || t == "note"@,
    ensures
        valid_filename_spec(stem_of(new_file_name_spec(stamp, new_slug(title, t), n))),
{
    reveal_strlit("todo");
    reveal_strlit("idea");
    reveal_strlit("note");
    reveal_strlit("-");
    reveal_strlit(".md");
    let slug = new_slug(title, t);
    lemma_slug_chars(title);
    assert(slug.len() > 0);
    assert forall|i: int| 0 <= i < slug.len() implies is_slug_char(#[trigger] slug[i]) by {
        if slugify_spec(title).len() == 0 {
            assert(slug == t);
        } else if slugify_spec(title).len() > 40 {
            assert(slug[i] == slugify_spec(title)[i]);
        }
    }
    lemma_decimal_digits(n);
    let tail = if n == 0 {
        slug
    } else {
        slug + seq!['-'] + decimal(n)
    };
    assert forall|i: int| 0 <= i < tail.len() implies is_slug_char(#[trigger] tail[i]) by {
        if n > 0 {
            if i < slug.len() {
                assert(tail[i] == slug[i]);
            } else if i > slug.len() {
                assert(tail[i] == decimal(n)[i - slug.len() - 1]);
            }
        }
    }
    let stem = stamp + seq!['-'] + tail;
    let name = new_file_name_spec(stamp, slug, n);
    assert(name =~= stem + ".md"@);
    assert(ends_with(name, ".md"@)) by {
        assert(name.skip(name.len() - 3) =~= ".md"@);
    }
    assert(name.take(name.len() - 3) =~= stem);
    assert(!ends_with(stem, ".md"@)) by {
        if ends_with(stem, ".md"@) {
            assert(stem.skip(stem.len() - 3)[0] == '.');
            assert(stem[stem.len() - 3] == '.');
            let k = stem.len() - 3 - 14;
            assert(stem[stem.len() - 3] == tail[k]);
        }
    }
    assert(trim_end_matches(stem, ".md"@) == stem);
    assert(trim_end_matches(name, ".md"@) == trim_end_matches(name.take(name.len() - 3), ".md"@));
    assert(stem_of(name) == stem);
    assert forall|i: int| 0 <= i < 8 implies is_ascii_digit(#[trigger] stem[i]) by {
        assert(stem[i] == stamp[i]);
    }
    assert forall|i: int| 9 <= i < 13 implies is_ascii_digit(#[trigger] stem[i]) by {
        assert(stem[i] == stamp[i]);
    }
    assert forall|i: int| 14 <= i < stem.len() implies is_slug_char(#[trigger] stem[i]) by {
        assert(stem[i] == tail[i - 14]);
    }
    assert(stem[8] == stamp[8]);
}

// ------------------------------------------------------------------ what the reader makes of the text

/// A tag that a written flow list gives back as it is: nonempty, trimmed,
/// not wrapped in a pair of quotes, on one line and without double quotes.
/// Commas are allowed: such a tag is written in quotes.
pub open spec fn simple_tag(t: Seq<char>) -> bool {
    &&& t.len() > 0
    &&& plain_value(t)
    &&& forall|i: int| 0 <= i < t.len() ==> t[i] != '"'
}

/// A nonempty piece of text on one line.
pub open spec fn one_line_item(x: Seq<char>) -> bool {
    x.len() > 0 && forall|i: int| 0 <= i < x.len() ==> x[i] != '\n'
}

proof fn lemma_item(t: Seq<char>)
    requires
        simple_tag(t),
    ensures
        trim(tag_item(t)) == tag_item(t),
        trim(seq![' '] + tag_item(t)) == tag_item(t),
        strip_paired_quotes_spec(tag_item(t)) == t,
        one_line_item(tag_item(t)),
{
    let x = tag_item(t);
    if has_comma(t) {
        assert(x[0] == '"' && x.last() == '"');
        lemma_trim_from_bounds(x, 0, x.len() as int);
        assert(x.subrange(0, x.len() as int) =~= x);
        assert(x.subrange(1, x.len() - 1) =~= t);
        assert forall|i: int| 0 <= i < x.len() implies x[i] != '\n' by {
            if 0 < i < x.len() - 1 {
                assert(x[i] == t[i - 1]);
            }
        }
    }
    lemma_trim_start_ws_prefix(seq![' '], x);
}

proof fn lemma_flow_plain(a: Seq<char>, w: Seq<char>)
    requires
        forall|i: int| 0 <= i < w.len() ==> w[i] != '"' && (w[i] != ',' || flow_scan(a).in_dq),
    ensures
        flow_scan(a + w) == (FlowState { out: flow_scan(a).out, cur: flow_scan(a).cur + w, in_dq: flow_scan(a).in_dq }),
    decreases w.len(),
{
    if w.len() == 0 {
        assert(a + w =~= a);
        assert(flow_scan(a).cur + w =~= flow_scan(a).cur);
    } else {
        let w0 = w.drop_last();
        lemma_flow_plain(a, w0);
        assert((a + w).drop_last() =~= a + w0);
        assert((a + w).last() == w.last());
        assert(w[w.len() - 1] != '"');
        assert((flow_scan(a).cur + w0).push(w.last()) =~= flow_scan(a).cur + w);
    }
}

proof fn lemma_flow_item(a: Seq<char>, t: Seq<char>)
    requires
        !flow_scan(a).in_dq,
        simple_tag(t),
    ensures
        flow_scan(a + tag_item(t)) == (FlowState {
            out: flow_scan(a).out,
            cur: flow_scan(a).cur + tag_item(t),
            in_dq: false,
        }),
{
    let st = flow_scan(a);
    if has_comma(t) {
        let q = seq!['"'];
        let a1 = a + q;
        assert(a1.drop_last() =~= a);
        assert(flow_scan(a1) == (FlowState { out: st.out, cur: st.cur.push('"'), in_dq: true }));
        lemma_flow_plain(a1, t);
        let a2 = a1 + t;
        let a3 = a2 + q;
        assert(a3.drop_last() =~= a2);
        assert(a + tag_item(t) =~= a3);
        assert((st.cur.push('"') + t).push('"') =~= st.cur + tag_item(t));
    } else {
        lemma_flow_plain(a, t);
    }
}

proof fn lemma_flow_join(tags: Seq<Seq<char>>, k: int)
    requires
        1 <= k <= tags.len(),
        forall|i: int| 0 <= i < tags.len() ==> simple_tag(#[trigger] tags[i]),
    ensures
        flow_scan(join(tag_items(tags).take(k), ", "@)) == (FlowState {
            out: tags.take(k - 1),
            cur: if k == 1 {
                tag_item(tags[0])
            } else {
                seq![' '] + tag_item(tags[k - 1])
            },
            in_dq: false,
        }),
    decreases k,
{
    reveal_strlit(", ");
    let items = tag_items(tags);
    let tk = items.take(k);
    assert(simple_tag(tags[k - 1]));
    if k == 1 {
        assert(tk =~= seq![items[0]]);
        assert(join(tk, ", "@) == items[0]);
        lemma_flow_item(Seq::<char>::empty(), tags[0]);
        assert(Seq::<char>::empty() + tag_item(tags[0]) =~= tag_item(tags[0]));
        assert(flow_scan(Seq::<char>::empty()).cur + tag_item(tags[0]) =~= tag_item(tags[0]));
        assert(tags.take(0) =~= Seq::<Seq<char>>::empty());
    } else {
        lemma_flow_join(tags, k - 1);
        let prev = join(items.take(k - 1), ", "@);
        assert(tk.drop_last() =~= items.take(k - 1));
        assert(join(tk, ", "@) == prev + ", "@ + items[k - 1]);
        let with_comma = prev + seq![','];
        assert(with_comma.drop_last() =~= prev);
        let st = flow_scan(prev);
        let cur_prev = if k - 1 == 1 {
            tag_item(tags[0])
        } else {
            seq![' '] + tag_item(tags[k - 2])
        };
        assert(simple_tag(tags[k - 2]));
        lemma_item(tags[k - 2]);
        assert(trim(cur_prev) == tag_item(tags[k - 2]));
        assert(flush_item(st.out, st.cur) =~= tags.take(k - 1)) by {
            assert(tags.take(k - 2).push(tags[k - 2]) =~= tags.take(k - 1));
        }
        let sp = seq![' '];
        lemma_flow_plain(with_comma, sp);
        let a = with_comma + sp;
        lemma_flow_item(a, tags[k - 1]);
        assert(a + tag_item(tags[k - 1]) =~= join(tk, ", "@));
        assert(Seq::<char>::empty() + sp =~= sp);
    }
}

/// A flow list written from tags reads back as those tags.
pub proof fn lemma_tags_round_trip(tags: Seq<Seq<char>>)
    requires
        forall|i: int| 0 <= i < tags.len() ==> simple_tag(#[trigger] tags[i]),
        tags.len() > 0,
    ensures
        split_tags_flow_spec(join(tag_items(tags), ", "@)) == tags,
{
    let n = tags.len() as int;
    lemma_flow_join(tags, n);
    assert(tag_items(tags).take(n) =~= tag_items(tags));
    assert(simple_tag(tags[n - 1]));
    lemma_item(tags[n - 1]);
    assert(tags.take(n - 1).push(tags[n - 1]) =~= tags);
}

/// The front matter a new entry is meant to have.
pub open spec fn new_fm(t: Seq<char>, title: Seq<char>, created: Seq<char>, tags: Seq<Seq<char>>) -> FmView {
    FmView {
        type_: t,
        title: title,
        created: created,
        status: if t == "todo"@ {
            Some("open"@)
        } else {
            None
        },
        due: None,
        done: None,
        tags: tags,
    }
}

/// The body part of a new entry's text: a blank line, then the body.
pub open spec fn new_body_part(body: Seq<char>) -> Seq<char> {
    if body.len() == 0 {
        "\n"@
    } else {
        "\n"@ + body + "\n"@
    }
}

proof fn lemma_plain_word(w: Seq<char>)
    requires
        w.len() > 0,
        forall|i: int| 0 <= i < w.len() ==> is_ascii_lower(#[trigger] w[i]),
    ensures
        plain_value(w),
{
    lemma_trim_from_bounds(w, 0, w.len() as int);
    assert(w.subrange(0, w.len() as int) =~= w);
}

proof fn lemma_not_dashes(l: Seq<char>)
    requires
        l.len() > 0,
        l[0] != '-',
    ensures
        trim_end(l) != crate::frontmatter::dashes(),
{
    let k = trailing_ws(l);
    if trim_end(l) == crate::frontmatter::dashes() {
        assert(l.take(k).len() == 3);
        assert(l.take(k)[0] == l[0]);
        assert(crate::frontmatter::dashes()[0] == '-');
    }
}

proof fn lemma_literal_keys()
    ensures
        "tags"@ != "type"@,
        "tags"@ != "title"@,
        "tags"@ != "created"@,
        "tags"@ != "status"@,
        "tags"@ != "due"@,
        "tags"@ != "done"@,
        "title"@ != "type"@,
        "created"@ != "type"@,
        "created"@ != "title"@,
        "status"@ != "type"@,
        "status"@ != "title"@,
        "status"@ != "created"@,
        "idea"@ != "thought"@,
        "note"@ != "thought"@,
        "todo"@ != "thought"@,
        "idea"@ != "todo"@,
        "note"@ != "todo"@,
{
    reveal_strlit("tags");
    reveal_strlit("type");
    reveal_strlit("title");
    reveal_strlit("created");
    reveal_strlit("status");
    reveal_strlit("due");
    reveal_strlit("done");
    reveal_strlit("idea");
    reveal_strlit("note");
    reveal_strlit("todo");
    reveal_strlit("thought");
    assert("tags"@[1] != "type"@[1]);
    assert("tags"@.len() != "title"@.len());
    assert("tags"@.len() != "created"@.len());
    assert("tags"@.len() != "status"@.len());
    assert("tags"@.len() != "due"@.len());
    assert("tags"@[0] != "done"@[0]);
    assert("title"@.len() != "type"@.len());
    assert("created"@.len() != "type"@.len());
    assert("created"@.len() != "title"@.len());
    assert("status"@.len() != "type"@.len());
    assert("status"@.len() != "title"@.len());
    assert("status"@.len() != "created"@.len());
    assert("idea"@.len() != "thought"@.len());
    assert("note"@.len() != "thought"@.len());
    assert("todo"@.len() != "thought"@.len());
    assert("idea"@[0] != "todo"@[0]);
    assert("note"@[0] != "todo"@[0]);
}

/// The value of a new entry's tags line.
pub open spec fn tags_value(tags: Seq<Seq<char>>) -> Seq<char> {
    if tags.len() == 0 {
        "[]"@
    } else {
        "["@ + join(tag_items(tags), ", "@) + "]"@
    }
}

proof fn lemma_join_parts(tags: Seq<Seq<char>>)
    requires
        forall|i: int| 0 <= i < tags.len() ==> one_line_item(#[trigger] tags[i]),
    ensures
        forall|i: int| 0 <= i < join(tags, ", "@).len() ==> #[trigger] join(tags, ", "@)[i] != '\n',
        tags.len() > 0 ==> join(tags, ", "@).len() > 0,
    decreases tags.len(),
{
    reveal_strlit(", ");
    if tags.len() > 1 {
        let p = tags.drop_last();
        assert forall|i: int| 0 <= i < p.len() implies one_line_item(#[trigger] p[i]) by {
            assert(p[i] == tags[i]);
        }
        lemma_join_parts(p);
        let j = join(tags, ", "@);
        let a = join(p, ", "@);
        assert(one_line_item(tags.last()));
        assert forall|i: int| 0 <= i < j.len() implies #[trigger] j[i] != '\n' by {
            if i < a.len() {
                assert(j[i] == a[i]);
            } else if i >= a.len() + 2 {
                assert(j[i] == tags.last()[i - a.len() - 2]);
            } else {
                assert(j[i] == ", "@[i - a.len()]);
            }
        }
    } else if tags.len() == 1 {
        assert(one_line_item(tags[0]));
    }
}

proof fn lemma_tags_value(tags: Seq<Seq<char>>)
    requires
        forall|i: int| 0 <= i < tags.len() ==> simple_tag(#[trigger] tags[i]),
    ensures
        plain_value(tags_value(tags)),
        tags_line(tags) == "tags"@ + seq![':', ' '] + tags_value(tags),
        assign(fm_empty(), "tags"@, tags_value(tags)).fm.tags == tags,
{
    reveal_strlit("tags: []");
    reveal_strlit("tags: [");
    reveal_strlit("tags");
    reveal_strlit("[]");
    reveal_strlit("[");
    reveal_strlit("]");
    lemma_literal_keys();
    crate::state_laws::lemma_key_literals();
    let v = tags_value(tags);
    if tags.len() == 0 {
        assert(tags_line(tags) =~= "tags"@ + seq![':', ' '] + v);
        lemma_trim_from_bounds(v, 0, 2);
        assert(v.subrange(0, 2) =~= v);
        assert(tags =~= Seq::<Seq<char>>::empty());
    } else {
        let items = tag_items(tags);
        assert forall|i: int| 0 <= i < items.len() implies one_line_item(#[trigger] items[i]) by {
            lemma_item(tags[i]);
        }
        let j = join(items, ", "@);
        lemma_join_parts(items);
        assert(tags_line(tags) =~= "tags"@ + seq![':', ' '] + v);
        assert(v =~= seq!['['] + j + seq![']']);
        lemma_trim_from_bounds(v, 0, v.len() as int);
        assert(v.subrange(0, v.len() as int) =~= v);
        assert forall|i: int| 0 <= i < v.len() implies v[i] != '\n' by {
            if 0 < i < v.len() - 1 {
                assert(v[i] == j[i - 1]);
            }
        }
        assert(v != "[]"@) by {
            assert(v.len() > 2);
        }
        assert(strip_close(v.skip(1)) =~= j);
        lemma_tags_round_trip(tags);
    }
}

proof fn lemma_kv_parts(k: Seq<char>)
    requires
        k == "type"@ || k == "title"@ || k == "created"@ || k == "tags"@,
    ensures
        k.len() > 0,
        forall|i: int| 0 <= i < k.len() ==> k[i] != ':' && k[i] != '\n',
        !is_ws(k[0]),
        !is_ws(k.last()),
        k[0] != '-',
{
    reveal_strlit("type");
    reveal_strlit("title");
    reveal_strlit("created");
    reveal_strlit("tags");
}

#[verifier::rlimit(80)]
proof fn lemma_new_run(t: Seq<char>, title: Seq<char>, created: Seq<char>, tags: Seq<Seq<char>>)
    requires
        t == "todo"@ || t == "idea"@ || t == "note"@,
        plain_value(title),
        plain_value(created),
        forall|i: int| 0 <= i < tags.len() ==> simple_tag(#[trigger] tags[i]),
    ensures
        run(new_lines(t, title, created, tags), init_state()) matches Ok(st) && st.fm == new_fm(
            t,
            title,
            created,
            tags,
        ),
        forall|i: int|
            0 <= i < new_lines(t, title, created, tags).len() ==> no_newline(
                #[trigger] new_lines(t, title, created, tags)[i],
            ) && new_lines(t, title, created, tags)[i].len() > 0 && new_lines(t, title, created, tags)[i][0]
                != '-',
{
    reveal_strlit("type: ");
    reveal_strlit("title: ");
    reveal_strlit("created: ");
    reveal_strlit("status: open");
    reveal_strlit("type");
    reveal_strlit("title");
    reveal_strlit("created");
    reveal_strlit("open");
    reveal_strlit("todo");
    reveal_strlit("idea");
    reveal_strlit("note");
    lemma_literal_keys();
    crate::state_laws::lemma_key_literals();
    let ls = new_lines(t, title, created, tags);
    lemma_plain_word(t);
    lemma_plain_word("open"@);
    lemma_tags_value(tags);
    lemma_kv_parts("type"@);
    lemma_kv_parts("title"@);
    lemma_kv_parts("created"@);
    lemma_kv_parts("tags"@);
    let s0 = init_state();
    assert("type: "@ + t =~= "type"@ + seq![':', ' '] + t);
    assert("title: "@ + title =~= "title"@ + seq![':', ' '] + title);
    assert("created: "@ + created =~= "created"@ + seq![':', ' '] + created);
    let s1 = assign(s0.fm, "type"@, t);
    lemma_kv_line(s0, "type"@, t);
    let s2 = assign(s1.fm, "title"@, title);
    lemma_kv_line(s1, "title"@, title);
    let s3 = assign(s2.fm, "created"@, created);
    lemma_kv_line(s2, "created"@, created);
    let s4 = if t == "todo"@ {
        assign(s3.fm, "status"@, "open"@)
    } else {
        s3
    };
    crate::state_laws::lemma_status_line(s3, "open"@);
    assert(crate::state::status_line("open"@) =~= "status: open"@) by {
        reveal_strlit("status: ");
    }
    let s5 = assign(s4.fm, "tags"@, tags_value(tags));
    lemma_kv_line(s4, "tags"@, tags_value(tags));
    assert(s5.fm == new_fm(t, title, created, tags)) by {
        let v = tags_value(tags);
        assert(assign(s4.fm, "tags"@, v).fm.tags == assign(fm_empty(), "tags"@, v).fm.tags);
    }
    crate::state_laws::lemma_run_take(ls, s0, 0);
    crate::state_laws::lemma_run_take(ls, s0, 1);
    crate::state_laws::lemma_run_take(ls, s0, 2);
    crate::state_laws::lemma_run_take(ls, s0, 3);
    assert(ls.take(0) =~= Seq::<Seq<char>>::empty());
    if t == "todo"@ {
        crate::state_laws::lemma_run_take(ls, s0, 4);
        assert(ls.take(5) =~= ls);
    } else {
        assert(ls.take(4) =~= ls);
    }
}

/// A new entry reads back as written: its front matter gives the type,
/// title and creation time it was written with, an open status for a todo,
/// and its tags; its body follows a blank line. For a title and stamp that
/// read as plain values and tags that a flow list carries.
pub proof fn law_new_entry_reads_back(
    t: Seq<char>,
    title: Seq<char>,
    created: Seq<char>,
    tags: Seq<Seq<char>>,
    body: Seq<char>,
)
    requires
        t == "todo"@ || t == "idea"@ || t == "note"@,
        plain_value(title),
        plain_value(created),
        forall|i: int| 0 <= i < tags.len() ==> simple_tag(#[trigger] tags[i]),
    ensures
        parse_fm_spec(new_text_spec(t, title, created, tags, body)) == Ok::<FmView, Seq<char>>(
            new_fm(t, title, created, tags),
        ),
        split_fm_spec(new_text_spec(t, title, created, tags, body)) matches Some((_, b)) && b
            == new_body_part(body),
{
    reveal_strlit("todo");
    reveal_strlit("idea");
    reveal_strlit("note");
    lemma_literal_keys();
    let ls = new_lines(t, title, created, tags);
    let b = new_body_part(body);
    lemma_new_run(t, title, created, tags);
    assert(block_lines(ls)) by {
        assert forall|i: int| 0 <= i < ls.len() implies no_newline(#[trigger] ls[i]) && trim_end(ls[i])
            != crate::frontmatter::dashes() by {
            lemma_not_dashes(ls[i]);
        }
    }
    lemma_split_rebuilt(ls, b);
    lemma_lines_unlines(ls);
    lemma_run_strip_cr(ls, init_state());
    let st = run(ls, init_state())->Ok_0;
    assert(normalize(st.fm) == st.fm);
}

} // verus!

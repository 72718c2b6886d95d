//! The config file (`~/.config/mind/config.toml`): reading the recorded
//! vault from it and recording a vault in it, other lines left alone.
use vstd::prelude::*;
use crate::state_laws::{lemma_join_unlines, lemma_lines_unlines, no_newline, unlines};
use crate::text::{
    append_str,
    chars_of,
    first_index,
    is_ws,
    join,
    lemma_first_index,
    lemma_trim_from_bounds,
    lemma_trim_strip_cr,
    lines,
    lines_of,
    slice_of,
    starts_with,
    starts_with_chars,
    string_of,
    strip_cr,
    trim,
    trim_chars,
};

verus! {

// ------------------------------------------------------------------ reading

/// `s` without its leading `c`s.
pub open spec fn trim_start_c(s: Seq<char>, c: char) -> Seq<char>
    decreases s.len(),
{
    if s.len() > 0 && s[0] == c {
        trim_start_c(s.drop_first(), c)
    } else {
        s
    }
}

/// `s` without its trailing `c`s.
pub open spec fn trim_end_c(s: Seq<char>, c: char) -> Seq<char>
    decreases s.len(),
{
    if s.len() > 0 && s.last() == c {
        trim_end_c(s.drop_last(), c)
    } else {
        s
    }
}

/// `str::trim_matches` with one character.
pub open spec fn trim_matches(s: Seq<char>, c: char) -> Seq<char> {
    trim_end_c(trim_start_c(s, c), c)
}

/// A `vault = …` line: after trimming it starts with the key `vault`, and
/// the rest, trimmed, starts with `=` (so `vault_backup = …` is another key).
pub open spec fn is_vault_line(l: Seq<char>) -> bool {
    let t = trim(l);
    &&& starts_with(t, "vault"@)
    &&& trim(t.skip(5)).len() > 0
    &&& trim(t.skip(5))[0] == '='
}

/// What a config line says of the vault: for a `vault = PATH` line with a
/// nonempty path, the path (without surrounding quotes); nothing for any
/// other line.
pub open spec fn vault_line(l: Seq<char>) -> Option<Seq<char>> {
    if is_vault_line(l) {
        let w = trim_matches(trim_matches(trim(trim(trim(l).skip(5)).skip(1)), '"'), '\'');
        if w.len() > 0 {
            Some(w)
        } else {
            None
        }
    } else {
        None
    }
}

/// The vault the lines record: the first `vault = "PATH"` line with a
/// nonempty path (quotes stripped), or nothing. Lines of other keys are
/// passed over.
pub open spec fn config_scan(ls: Seq<Seq<char>>) -> Option<Seq<char>>
    decreases ls.len(),
{
    if ls.len() == 0 {
        None
    } else {
        match vault_line(ls[0]) {
            Some(w) => Some(w),
            None => config_scan(ls.drop_first()),
        }
    }
}

/// The vault a config file records (see `config_scan`).
pub open spec fn config_vault_spec(text: Seq<char>) -> Option<Seq<char>> {
    config_scan(lines(text))
}

fn trim_c_chars(v: &[char], c: char) -> (r: Vec<char>)
    ensures
        r@ == trim_matches(v@, c),
{
    let mut lo: usize = 0;
    assert(v@.skip(0) =~= v@);
    while lo < v.len() && v[lo] == c
        invariant
            lo <= v@.len(),
            trim_start_c(v@.skip(lo as int), c) == trim_start_c(v@, c),
        decreases v@.len() - lo,
    {
        assert(v@.skip(lo as int).drop_first() =~= v@.skip(lo + 1));
        lo += 1;
    }
    let mut hi: usize = v.len();
    assert(v@.skip(lo as int) =~= v@.subrange(lo as int, hi as int));
    while hi > lo && v[hi - 1] == c
        invariant
            lo <= hi <= v@.len(),
            trim_end_c(v@.subrange(lo as int, hi as int), c) == trim_matches(v@, c),
        decreases hi,
    {
        assert(v@.subrange(lo as int, hi as int).drop_last() =~= v@.subrange(lo as int, hi - 1));
        hi -= 1;
    }
    slice_of(v, lo, hi)
}

fn is_vault_line_of(l: &[char]) -> (b: bool)
    ensures
        b == is_vault_line(l@),
{
    let t = trim_chars(l);
    let key = chars_of("vault");
    if !starts_with_chars(&t, &key) {
        return false;
    }
    proof {
        reveal_strlit("vault");
    }
    let v = trim_chars(&slice_of(&t, 5, t.len()));
    assert(t@.subrange(5, t@.len() as int) =~= t@.skip(5));
    v.len() > 0 && v[0] == '='
}

fn vault_line_of(l: &[char]) -> (r: Option<Vec<char>>)
    ensures
        match (r, vault_line(l@)) {
            (None, None) => true,
            (Some(x), Some(y)) => x@ == y,
            _ => false,
        },
{
    if !is_vault_line_of(l) {
        return None;
    }
    let t = trim_chars(l);
    proof {
        reveal_strlit("vault");
    }
    let v = trim_chars(&slice_of(&t, 5, t.len()));
    assert(t@.subrange(5, t@.len() as int) =~= t@.skip(5));
    let rest = trim_chars(&slice_of(&v, 1, v.len()));
    assert(v@.subrange(1, v@.len() as int) =~= v@.skip(1));
    let w = trim_c_chars(&trim_c_chars(&rest, '"'), '\'');
    if w.len() > 0 {
        Some(w)
    } else {
        None
    }
}

/// The vault a config file records (see `config_vault_spec`).
pub fn config_vault_value(text: &str) -> (r: Option<String>)
    ensures
        match (r, config_vault_spec(text@)) {
            (Some(x), Some(y)) => x@ == y,
            (None, None) => true,
            _ => false,
        },
{
    let ls = lines_of(&chars_of(text));
    let ghost lv = ls.deep_view();
    let mut i: usize = 0;
    assert(lv.skip(0) =~= lv);
    while i < ls.len()
        invariant
            lv == ls.deep_view(),
            lv == lines(text@),
            i <= lv.len(),
            config_scan(lv.skip(i as int)) == config_scan(lv),
        decreases lv.len() - i,
    {
        proof {
            assert(lv.skip(i as int)[0] == ls@[i as int]@);
            assert(lv.skip(i as int).drop_first() =~= lv.skip(i + 1));
        }
        match vault_line_of(ls[i].as_slice()) {
            Some(w) => {
                return Some(string_of(&w));
            },
            None => {},
        }
        i += 1;
    }
    None
}

// ------------------------------------------------------------------ writing

/// The line that records a vault.
pub open spec fn vault_entry(v: Seq<char>) -> Seq<char> {
    "vault = \""@ + v + "\""@
}

/// The note above a vault line appended to a config file.
pub open spec fn config_note() -> Seq<char> {
    "# MindCache vault location (resolved by `mind path`)"@
}

/// The lines of a config file with every vault line replaced by `nl`.
pub open spec fn replace_vault_lines(ls: Seq<Seq<char>>, nl: Seq<char>) -> Seq<Seq<char>> {
    Seq::new(ls.len(), |i: int| if is_vault_line(ls[i]) { nl } else { ls[i] })
}

/// The lines of the config file after recording `v`: every vault line
/// replaced by the new one; or, with none, the new line appended under a
/// note (and a blank line when the file had content).
pub open spec fn config_lines(content: Seq<char>, v: Seq<char>) -> Seq<Seq<char>> {
    let ls = lines(content);
    let nl = vault_entry(v);
    let out = replace_vault_lines(ls, nl);
    if exists|i: int| 0 <= i < ls.len() && is_vault_line(#[trigger] ls[i]) {
        out
    } else {
        (if out.len() > 0 {
            out.push(Seq::empty())
        } else {
            out
        }).push(config_note()).push(nl)
    }
}

/// The config file after recording `v`, each line ended by a newline.
pub open spec fn config_with_vault_spec(content: Seq<char>, v: Seq<char>) -> Seq<char> {
    join(config_lines(content, v), "\n"@) + "\n"@
}

/// The config file after recording the vault `v` (see
/// `config_with_vault_spec`).
pub fn config_with_vault(content: &str, v: &str) -> (r: String)
    ensures
        r@ == config_with_vault_spec(content@, v@),
{
    let ls = lines_of(&chars_of(content));
    let ghost lv = ls.deep_view();
    let mut nl_s = String::from_str("vault = \"");
    append_str(&mut nl_s, v);
    append_str(&mut nl_s, "\"");
    let nl = chars_of(nl_s.as_str());
    let mut out: Vec<Vec<char>> = Vec::new();
    let mut replaced = false;
    let mut i: usize = 0;
    while i < ls.len()
        invariant
            lv == ls.deep_view(),
            lv == lines(content@),
            nl@ == vault_entry(v@),
            i <= lv.len(),
            out.deep_view() == replace_vault_lines(lv, nl@).take(i as int),
            replaced == exists|j: int| 0 <= j < i && is_vault_line(#[trigger] lv[j]),
        decreases lv.len() - i,
    {
        proof {
            assert(lv[i as int] == ls@[i as int]@);
        }
        let ghost before = out.deep_view();
        if is_vault_line_of(ls[i].as_slice()) {
            let x = slice_of(&nl, 0, nl.len());
            proof {
                assert(nl@.subrange(0, nl@.len() as int) =~= nl@);
                assert(x.deep_view() =~= x@);
            }
            out.push(x);
            assert(out.deep_view() =~= before.push(nl@));
            replaced = true;
        } else {
            let x = slice_of(&ls[i], 0, ls[i].len());
            proof {
                assert(ls@[i as int]@.subrange(0, ls@[i as int]@.len() as int) =~= ls@[i as int]@);
                assert(x.deep_view() =~= x@);
                assert(ls@[i as int].deep_view() =~= ls@[i as int]@);
            }
            out.push(x);
            assert(out.deep_view() =~= before.push(lv[i as int]));
        }
        proof {
            assert(out.deep_view() =~= replace_vault_lines(lv, nl@).take(i + 1));
            if is_vault_line(lv[i as int]) {
                assert(exists|j: int| 0 <= j < i + 1 && is_vault_line(#[trigger] lv[j]));
            }
        }
        i += 1;
    }
    assert(replace_vault_lines(lv, nl@).take(lv.len() as int) =~= replace_vault_lines(lv, nl@));
    if !replaced {
        if out.len() > 0 {
            let ghost before = out.deep_view();
            let e: Vec<char> = Vec::new();
            assert(e.deep_view() =~= Seq::<char>::empty());
            out.push(e);
            assert(out.deep_view() =~= before.push(Seq::<char>::empty()));
        }
        let ghost before = out.deep_view();
        let note = chars_of("# MindCache vault location (resolved by `mind path`)");
        assert(note.deep_view() =~= note@);
        out.push(note);
        assert(out.deep_view() =~= before.push(config_note()));
        let ghost before2 = out.deep_view();
        let x = slice_of(&nl, 0, nl.len());
        assert(nl@.subrange(0, nl@.len() as int) =~= nl@);
        assert(x.deep_view() =~= x@);
        out.push(x);
        assert(out.deep_view() =~= before2.push(nl@));
    }
    let mut r = crate::state::join_lines(&out);
    append_str(&mut r, "\n");
    r
}

// ------------------------------------------------------------------ recording then reading

proof fn lemma_lines_no_newline(s: Seq<char>)
    ensures
        forall|i: int| 0 <= i < lines(s).len() ==> no_newline(#[trigger] lines(s)[i]),
    decreases s.len(),
{
    if s.len() > 0 {
        let i = first_index(s, '\n');
        lemma_first_index(s, '\n');
        if i < s.len() {
            lemma_lines_no_newline(s.skip(i + 1));
            let head = strip_cr(s.take(i));
            assert(no_newline(head)) by {
                assert forall|j: int| 0 <= j < head.len() implies head[j] != '\n' by {
                    assert(head[j] == s[j]);
                }
            }
            let ls = lines(s);
            assert(ls == seq![head] + lines(s.skip(i + 1)));
            assert forall|k: int| 0 <= k < ls.len() implies no_newline(#[trigger] ls[k]) by {
                if k > 0 {
                    assert(ls[k] == lines(s.skip(i + 1))[k - 1]);
                }
            }
        } else {
            assert(lines(s) == seq![s]);
        }
    }
}

proof fn lemma_trim_exact(s: Seq<char>)
    requires
        s.len() > 0,
        !is_ws(s[0]),
        !is_ws(s.last()),
    ensures
        trim(s) == s,
{
    lemma_trim_from_bounds(s, 0, s.len() as int);
    assert(s.subrange(0, s.len() as int) =~= s);
}

proof fn lemma_trim_one_space(s: Seq<char>)
    requires
        s.len() > 1,
        is_ws(s[0]),
        !is_ws(s[1]),
        !is_ws(s.last()),
    ensures
        trim(s) == s.skip(1),
{
    lemma_trim_from_bounds(s, 1, s.len() as int);
    assert(s.subrange(1, s.len() as int) =~= s.skip(1));
}

/// The recorded line reads back as the vault.
proof fn lemma_vault_entry_reads(v: Seq<char>)
    requires
        v.len() > 0,
        v[0] != '"' && v.last() != '"',
        v[0] != '\'' && v.last() != '\'',
    ensures
        is_vault_line(vault_entry(v)),
        vault_line(vault_entry(v)) == Some(v),
        !(vault_entry(v).len() > 0 && vault_entry(v).last() == '\r'),
{
    reveal_strlit("vault = \"");
    reveal_strlit("\"");
    reveal_strlit("vault");
    let nl = vault_entry(v);
    let q = seq!['"'];
    assert(nl =~= seq!['v', 'a', 'u', 'l', 't', ' ', '=', ' ', '"'] + v + q);
    lemma_trim_exact(nl);
    assert(starts_with(nl, "vault"@)) by {
        assert(nl.take(5) =~= "vault"@);
    }
    let a = nl.skip(5);
    assert(a =~= seq![' ', '=', ' ', '"'] + v + q);
    lemma_trim_one_space(a);
    let b = a.skip(1);
    assert(b =~= seq!['=', ' ', '"'] + v + q);
    let c = b.skip(1);
    assert(c =~= seq![' ', '"'] + v + q);
    lemma_trim_one_space(c);
    let d = c.skip(1);
    assert(d =~= q + v + q);
    assert(trim_start_c(d, '"') == trim_start_c(v + q, '"')) by {
        assert(d.drop_first() =~= v + q);
    }
    assert(trim_start_c(v + q, '"') == v + q);
    assert(trim_end_c(v + q, '"') == trim_end_c(v, '"')) by {
        assert((v + q).drop_last() =~= v);
    }
    assert(trim_end_c(v, '"') == v);
    assert(trim_matches(d, '"') == v);
    assert(trim_matches(v, '\'') == v);
}

proof fn lemma_other_line_silent(l: Seq<char>)
    requires
        !is_vault_line(l),
    ensures
        vault_line(strip_cr(l)) is None,
{
    lemma_trim_strip_cr(l);
}

proof fn lemma_scan_first(ls: Seq<Seq<char>>, k: int, v: Seq<char>)
    requires
        0 <= k < ls.len(),
        forall|j: int| 0 <= j < k ==> vault_line(#[trigger] ls[j]) is None,
        vault_line(ls[k]) == Some(v),
    ensures
        config_scan(ls) == Some(v),
    decreases k,
{
    if k > 0 {
        let t = ls.drop_first();
        assert forall|j: int| 0 <= j < k - 1 implies vault_line(#[trigger] t[j]) is None by {
            assert(t[j] == ls[j + 1]);
        }
        lemma_scan_first(t, k - 1, v);
    }
}

/// A vault recorded in the config file is the vault read back from it,
/// whatever else the file holds: for a nonempty path without line breaks
/// that neither starts nor ends with a quote character.
pub proof fn law_config_round_trip(content: Seq<char>, v: Seq<char>)
    requires
        v.len() > 0,
        forall|i: int| 0 <= i < v.len() ==> v[i] != '\n',
        v[0] != '"' && v.last() != '"',
        v[0] != '\'' && v.last() != '\'',
    ensures
        config_vault_spec(config_with_vault_spec(content, v)) == Some(v),
{
    reveal_strlit("\n");
    reveal_strlit("vault = \"");
    reveal_strlit("\"");
    reveal_strlit("vault");
    reveal_strlit("# MindCache vault location (resolved by `mind path`)");
    let ls = lines(content);
    let nl = vault_entry(v);
    let out = config_lines(content, v);
    let note = config_note();
    lemma_lines_no_newline(content);
    lemma_vault_entry_reads(v);
    assert(no_newline(nl)) by {
        assert forall|j: int| 0 <= j < nl.len() implies nl[j] != '\n' by {
            if 9 <= j < 9 + v.len() {
                assert(nl[j] == v[j - 9]);
            }
        }
    }
    assert(!is_vault_line(note)) by {
        let (lo, hi) = crate::text::trim_shape(note);
        assert(!is_ws(note[0]));
        assert(lo == 0);
        if is_vault_line(note) {
            assert(trim(note)[0] == note[0]);
        }
    }
    assert(!is_vault_line(Seq::<char>::empty())) by {
        let (lo, hi) = crate::text::trim_shape(Seq::<char>::empty());
    }
    assert(no_newline(note));
    // every line written is either the vault line or a line that is silent
    assert forall|i: int| 0 <= i < out.len() implies no_newline(#[trigger] out[i]) && (out[i] == nl
        || !is_vault_line(out[i])) by {
        let r = replace_vault_lines(ls, nl);
        if exists|j: int| 0 <= j < ls.len() && is_vault_line(#[trigger] ls[j]) {
            assert(out[i] == r[i]);
        } else if i < r.len() {
            assert(out[i] == r[i]);
        }
    }
    // the first vault line written is the new one
    let k = if exists|j: int| 0 <= j < ls.len() && is_vault_line(#[trigger] ls[j]) {
        choose|j: int|
            0 <= j < ls.len() && is_vault_line(ls[j]) && forall|m: int|
                0 <= m < j ==> !is_vault_line(#[trigger] ls[m])
    } else {
        out.len() - 1
    };
    if exists|j: int| 0 <= j < ls.len() && is_vault_line(#[trigger] ls[j]) {
        lemma_first_vault_line(ls);
    }
    assert(0 <= k < out.len() && out[k] == nl);
    assert forall|j: int| 0 <= j < k implies !is_vault_line(#[trigger] out[j]) by {
        let r = replace_vault_lines(ls, nl);
        if j < r.len() {
            assert(out[j] == r[j]);
        }
    }
    lemma_join_unlines(out);
    lemma_lines_unlines(out);
    let sc = Seq::new(out.len(), |i: int| strip_cr(out[i]));
    assert forall|j: int| 0 <= j < k implies vault_line(#[trigger] sc[j]) is None by {
        lemma_other_line_silent(out[j]);
    }
    assert(sc[k] == nl);
    lemma_scan_first(sc, k, v);
    assert(config_with_vault_spec(content, v) == unlines(out));
}

proof fn lemma_first_vault_line(ls: Seq<Seq<char>>)
    requires
        exists|j: int| 0 <= j < ls.len() && is_vault_line(#[trigger] ls[j]),
    ensures
        exists|j: int|
            0 <= j < ls.len() && is_vault_line(ls[j]) && forall|m: int|
                0 <= m < j ==> !is_vault_line(#[trigger] ls[m]),
    decreases ls.len(),
{
    if is_vault_line(ls[0]) {
        assert(forall|m: int| 0 <= m < 0 ==> !is_vault_line(#[trigger] ls[m]));
    } else {
        let t = ls.drop_first();
        let j0 = choose|j: int| 0 <= j < ls.len() && is_vault_line(#[trigger] ls[j]);
        assert(t[j0 - 1] == ls[j0]);
        lemma_first_vault_line(t);
        let j = choose|j: int|
            0 <= j < t.len() && is_vault_line(t[j]) && forall|m: int|
                0 <= m < j ==> !is_vault_line(#[trigger] t[m]);
        assert(ls[j + 1] == t[j]);
        assert forall|m: int| 0 <= m < j + 1 implies !is_vault_line(#[trigger] ls[m]) by {
            if m > 0 {
                assert(ls[m] == t[m - 1]);
            }
        }
    }
}

} // verus!

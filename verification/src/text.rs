//! Character-level text model: the vault's text is handled as sequences of
//! `char`, with spec functions for the whitespace trimming, line splitting and
//! matching that the format relies on.
use vstd::prelude::*;

verus! {

// ------------------------------------------------------------------ whitespace

/// Unicode `White_Space`, the property that `char::is_whitespace` tests.
pub open spec fn is_ws(c: char) -> bool {
    ||| c == '\t'
    ||| c == '\n'
    ||| c == '\u{0B}'
    ||| c == '\u{0C}'
    ||| c == '\r'
    ||| c == ' '
    ||| c == '\u{85}'
    ||| c == '\u{A0}'
    ||| c == '\u{1680}'
    ||| ('\u{2000}' <= c && c <= '\u{200A}')
    ||| c == '\u{2028}'
    ||| c == '\u{2029}'
    ||| c == '\u{202F}'
    ||| c == '\u{205F}'
    ||| c == '\u{3000}'
}

pub fn is_ws_char(c: char) -> (b: bool)
    ensures
        b == is_ws(c),
{
    c == '\t' || c == '\n' || c == '\u{0B}' || c == '\u{0C}' || c == '\r' || c == ' ' || c
        == '\u{85}' || c == '\u{A0}' || c == '\u{1680}' || ('\u{2000}' <= c && c <= '\u{200A}')
        || c == '\u{2028}' || c == '\u{2029}' || c == '\u{202F}' || c == '\u{205F}' || c
        == '\u{3000}'
}

/// Leading whitespace removed.
pub open spec fn trim_start(s: Seq<char>) -> Seq<char>
    decreases s.len(),
{
    if s.len() > 0 && is_ws(s[0]) {
        trim_start(s.drop_first())
    } else {
        s
    }
}

/// Trailing whitespace removed.
pub open spec fn trim_end(s: Seq<char>) -> Seq<char>
    decreases s.len(),
{
    if s.len() > 0 && is_ws(s.last()) {
        trim_end(s.drop_last())
    } else {
        s
    }
}

/// Whitespace removed at both ends.
pub open spec fn trim(s: Seq<char>) -> Seq<char> {
    trim_end(trim_start(s))
}

pub proof fn lemma_trim_start_skip(s: Seq<char>, k: int)
    requires
        0 <= k <= s.len(),
        forall|j: int| 0 <= j < k ==> is_ws(#[trigger] s[j]),
        k == s.len() || !is_ws(s[k]),
    ensures
        trim_start(s) == s.skip(k),
    decreases k,
{
    if k == 0 {
        assert(s.skip(0) =~= s);
    } else {
        let t = s.drop_first();
        assert forall|j: int| 0 <= j < k - 1 implies is_ws(#[trigger] t[j]) by {
            assert(t[j] == s[j + 1]);
        }
        lemma_trim_start_skip(t, k - 1);
        assert(t.skip(k - 1) =~= s.skip(k));
    }
}

pub proof fn lemma_trim_end_take(s: Seq<char>, k: int)
    requires
        0 <= k <= s.len(),
        forall|j: int| k <= j < s.len() ==> is_ws(#[trigger] s[j]),
        k == 0 || !is_ws(s[k - 1]),
    ensures
        trim_end(s) == s.take(k),
    decreases s.len() - k,
{
    if k == s.len() {
        assert(s.take(k) =~= s);
    } else {
        let t = s.drop_last();
        assert forall|j: int| k <= j < t.len() implies is_ws(#[trigger] t[j]) by {
            assert(t[j] == s[j]);
        }
        lemma_trim_end_take(t, k);
        assert(t.take(k) =~= s.take(k));
    }
}

/// Number of leading whitespace characters.
pub proof fn leading_ws(s: Seq<char>) -> (k: int)
    ensures
        0 <= k <= s.len(),
        trim_start(s) == s.skip(k),
        forall|j: int| 0 <= j < k ==> is_ws(#[trigger] s[j]),
        k == s.len() || !is_ws(s[k]),
    decreases s.len(),
{
    if s.len() > 0 && is_ws(s[0]) {
        let k1 = leading_ws(s.drop_first());
        assert forall|j: int| 0 <= j < k1 + 1 implies is_ws(#[trigger] s[j]) by {
            if j > 0 {
                assert(s[j] == s.drop_first()[j - 1]);
            }
        }
        if k1 + 1 < s.len() {
            assert(s[k1 + 1] == s.drop_first()[k1]);
        }
        assert(s.drop_first().skip(k1) =~= s.skip(k1 + 1));
        k1 + 1
    } else {
        assert(s.skip(0) =~= s);
        0
    }
}

/// Index after the last non-whitespace character.
pub proof fn trailing_ws(s: Seq<char>) -> (k: int)
    ensures
        0 <= k <= s.len(),
        trim_end(s) == s.take(k),
        forall|j: int| k <= j < s.len() ==> is_ws(#[trigger] s[j]),
        k == 0 || !is_ws(s[k - 1]),
    decreases s.len(),
{
    if s.len() > 0 && is_ws(s.last()) {
        let k1 = trailing_ws(s.drop_last());
        assert forall|j: int| k1 <= j < s.len() implies is_ws(#[trigger] s[j]) by {
            if j < s.len() - 1 {
                assert(s[j] == s.drop_last()[j]);
            }
        }
        if k1 > 0 {
            assert(s[k1 - 1] == s.drop_last()[k1 - 1]);
        }
        assert(s.drop_last().take(k1) =~= s.take(k1));
        k1
    } else {
        assert(s.take(s.len() as int) =~= s);
        s.len() as int
    }
}

/// Where the trimmed text sits inside `s`.
pub proof fn trim_shape(s: Seq<char>) -> (r: (int, int))
    ensures
        0 <= r.0 <= r.1 <= s.len(),
        trim(s) == s.subrange(r.0, r.1),
        forall|j: int| 0 <= j < r.0 ==> is_ws(#[trigger] s[j]),
        forall|j: int| r.1 <= j < s.len() ==> is_ws(#[trigger] s[j]),
        r.0 < r.1 ==> !is_ws(s[r.0]) && !is_ws(s[r.1 - 1]),
{
    let lo = leading_ws(s);
    let t = s.skip(lo);
    let k = trailing_ws(t);
    assert forall|j: int| lo + k <= j < s.len() implies is_ws(#[trigger] s[j]) by {
        assert(s[j] == t[j - lo]);
    }
    if k > 0 {
        assert(t[k - 1] == s[lo + k - 1]);
        assert(t[0] == s[lo]);
    }
    assert(t.take(k) =~= s.subrange(lo, lo + k));
    (lo, lo + k)
}

/// Whitespace in front of a text does not survive trimming.
pub proof fn lemma_trim_start_ws_prefix(w: Seq<char>, s: Seq<char>)
    requires
        forall|j: int| 0 <= j < w.len() ==> is_ws(#[trigger] w[j]),
    ensures
        trim_start(w + s) == trim_start(s),
        trim(w + s) == trim(s),
    decreases w.len(),
{
    if w.len() > 0 {
        assert(w[0] == (w + s)[0]);
        assert((w + s).drop_first() =~= w.drop_first() + s);
        assert forall|j: int| 0 <= j < w.drop_first().len() implies is_ws(#[trigger] w.drop_first()[j]) by {
            assert(w.drop_first()[j] == w[j + 1]);
        }
        lemma_trim_start_ws_prefix(w.drop_first(), s);
    } else {
        assert(w + s =~= s);
    }
}

/// Whitespace behind a text does not survive trimming.
pub proof fn lemma_trim_ws_suffix(s: Seq<char>, w: Seq<char>)
    requires
        forall|j: int| 0 <= j < w.len() ==> is_ws(#[trigger] w[j]),
    ensures
        trim(s + w) == trim(s),
{
    let (lo, hi) = trim_shape(s);
    let x = s + w;
    assert forall|j: int| 0 <= j < lo implies is_ws(#[trigger] x[j]) by {
        assert(x[j] == s[j]);
    }
    assert forall|j: int| hi <= j < x.len() implies is_ws(#[trigger] x[j]) by {
        if j < s.len() {
            assert(x[j] == s[j]);
        } else {
            assert(x[j] == w[j - s.len()]);
        }
    }
    if lo < hi {
        assert(x[lo] == s[lo]);
        assert(x[hi - 1] == s[hi - 1]);
        lemma_trim_from_bounds(x, lo, hi);
        assert(x.subrange(lo, hi) =~= s.subrange(lo, hi));
    } else {
        lemma_trim_all_ws(x);
        lemma_trim_all_ws_bounds(s, lo, hi);
    }
}

/// Trimming a text whose non-whitespace part is `s[lo..hi]`.
pub proof fn lemma_trim_from_bounds(s: Seq<char>, lo: int, hi: int)
    requires
        0 <= lo < hi <= s.len(),
        forall|j: int| 0 <= j < lo ==> is_ws(#[trigger] s[j]),
        forall|j: int| hi <= j < s.len() ==> is_ws(#[trigger] s[j]),
        !is_ws(s[lo]),
        !is_ws(s[hi - 1]),
    ensures
        trim(s) == s.subrange(lo, hi),
{
    lemma_trim_start_skip(s, lo);
    let t = s.skip(lo);
    assert forall|j: int| hi - lo <= j < t.len() implies is_ws(#[trigger] t[j]) by {
        assert(t[j] == s[j + lo]);
    }
    assert(t[hi - lo - 1] == s[hi - 1]);
    lemma_trim_end_take(t, hi - lo);
    assert(t.take(hi - lo) =~= s.subrange(lo, hi));
}

/// A text of whitespace only trims to nothing.
pub proof fn lemma_trim_all_ws(s: Seq<char>)
    requires
        forall|j: int| 0 <= j < s.len() ==> is_ws(#[trigger] s[j]),
    ensures
        trim(s).len() == 0,
{
    lemma_trim_start_skip(s, s.len() as int);
    assert(s.skip(s.len() as int) =~= Seq::<char>::empty());
}

proof fn lemma_trim_all_ws_bounds(s: Seq<char>, lo: int, hi: int)
    requires
        0 <= lo <= hi <= s.len(),
        lo >= hi,
        trim(s) == s.subrange(lo, hi),
    ensures
        trim(s).len() == 0,
{
}

/// A `\r` before the line end does not change the trimmed line.
pub proof fn lemma_trim_strip_cr(l: Seq<char>)
    ensures
        trim(strip_cr(l)) == trim(l),
{
    if l.len() > 0 && l.last() == '\r' {
        let w = seq!['\r'];
        assert(l =~= l.drop_last() + w);
        lemma_trim_ws_suffix(l.drop_last(), w);
    }
}

/// The key of a line is the key of the trimmed line.
pub proof fn lemma_line_key_trim(l: Seq<char>)
    ensures
        line_key(l) == line_key(trim(l)),
        split_once(l, ':') is Some <==> split_once(trim(l), ':') is Some,
{
    let (lo, hi) = trim_shape(l);
    let t = trim(l);
    lemma_first_index(t, ':');
    lemma_first_index(l, ':');
    let j = first_index(t, ':');
    if j < t.len() {
        assert forall|m: int| 0 <= m < lo + j implies l[m] != ':' by {
            if m >= lo {
                assert(l[m] == t[m - lo]);
            }
        }
        assert(l[lo + j] == t[j]);
        lemma_first_index_unique(l, ':', lo + j);
        let w = l.take(lo);
        assert(l.take(lo + j) =~= w + t.take(j));
        lemma_trim_start_ws_prefix(w, t.take(j));
    } else {
        assert forall|m: int| 0 <= m < l.len() implies l[m] != ':' by {
            if lo <= m < hi {
                assert(l[m] == t[m - lo]);
            }
        }
        lemma_first_index_unique(l, ':', l.len() as int);
    }
}

/// Trimming the end leaves a prefix.
pub proof fn lemma_trim_end_len(s: Seq<char>)
    ensures
        trim_end(s).len() <= s.len(),
        trim_end(s) == s.take(trim_end(s).len() as int),
{
    let k = trailing_ws(s);
}

// ------------------------------------------------------------------ searching

/// Index of the first `c` in `s`, or `s.len()` when there is none.
pub open spec fn first_index(s: Seq<char>, c: char) -> int
    decreases s.len(),
{
    if s.len() == 0 {
        0
    } else if s[0] == c {
        0
    } else {
        1 + first_index(s.drop_first(), c)
    }
}

pub proof fn lemma_first_index(s: Seq<char>, c: char)
    ensures
        0 <= first_index(s, c) <= s.len(),
        forall|j: int| 0 <= j < first_index(s, c) ==> s[j] != c,
        first_index(s, c) < s.len() ==> s[first_index(s, c)] == c,
    decreases s.len(),
{
    if s.len() > 0 && s[0] != c {
        lemma_first_index(s.drop_first(), c);
        assert forall|j: int| 0 <= j < first_index(s, c) implies s[j] != c by {
            if j > 0 {
                assert(s[j] == s.drop_first()[j - 1]);
            }
        }
    }
}

pub proof fn lemma_first_index_unique(s: Seq<char>, c: char, k: int)
    requires
        0 <= k <= s.len(),
        forall|j: int| 0 <= j < k ==> s[j] != c,
        k == s.len() || s[k] == c,
    ensures
        first_index(s, c) == k,
{
    lemma_first_index(s, c);
}

/// `p` is a prefix of `s`.
pub open spec fn starts_with(s: Seq<char>, p: Seq<char>) -> bool {
    p.len() <= s.len() && s.take(p.len() as int) == p
}

/// `p` is a suffix of `s`.
pub open spec fn ends_with(s: Seq<char>, p: Seq<char>) -> bool {
    p.len() <= s.len() && s.skip(s.len() - p.len()) == p
}

/// `p` occurs in `s` at position `i`.
pub open spec fn occurs_at(s: Seq<char>, p: Seq<char>, i: int) -> bool {
    0 <= i && i + p.len() <= s.len() && s.subrange(i, i + p.len()) == p
}

/// `p` occurs somewhere in `s` (the empty pattern occurs everywhere).
pub open spec fn contains(s: Seq<char>, p: Seq<char>) -> bool {
    exists|i: int| occurs_at(s, p, i)
}

/// `s` split at the first `c`: the part before it and the part after it.
pub open spec fn split_once(s: Seq<char>, c: char) -> Option<(Seq<char>, Seq<char>)> {
    let i = first_index(s, c);
    if i < s.len() {
        Some((s.take(i), s.skip(i + 1)))
    } else {
        None
    }
}

/// Key of a `key: value` line: the trimmed text before the first colon.
pub open spec fn line_key(l: Seq<char>) -> Option<Seq<char>> {
    match split_once(l, ':') {
        Some((k, _)) => Some(trim(k)),
        None => None,
    }
}

// ------------------------------------------------------------------ lines

/// A line without its line ending: one `\r` before the `\n` is dropped.
pub open spec fn strip_cr(l: Seq<char>) -> Seq<char> {
    if l.len() > 0 && l.last() == '\r' {
        l.drop_last()
    } else {
        l
    }
}

/// The lines of a text as `str::lines` yields them: split at `\n`, a `\r`
/// right before a `\n` dropped, no empty last line for a final newline, and a
/// last line without newline kept as it stands.
pub open spec fn lines(s: Seq<char>) -> Seq<Seq<char>>
    decreases s.len(),
{
    if s.len() == 0 {
        Seq::empty()
    } else {
        let i = first_index(s, '\n');
        proof {
            lemma_first_index(s, '\n');
        }
        if i < s.len() {
            seq![strip_cr(s.take(i))] + lines(s.skip(i + 1))
        } else {
            seq![s]
        }
    }
}

/// Lines joined with `sep` between them.
pub open spec fn join(ls: Seq<Seq<char>>, sep: Seq<char>) -> Seq<char>
    decreases ls.len(),
{
    if ls.len() == 0 {
        Seq::empty()
    } else if ls.len() == 1 {
        ls[0]
    } else {
        join(ls.drop_last(), sep) + sep + ls.last()
    }
}

// ------------------------------------------------------------------ ASCII

pub open spec fn is_ascii_digit(c: char) -> bool {
    '0' <= c && c <= '9'
}

pub open spec fn is_ascii_lower(c: char) -> bool {
    'a' <= c && c <= 'z'
}

pub open spec fn is_ascii_upper(c: char) -> bool {
    'A' <= c && c <= 'Z'
}

pub open spec fn is_ascii_char(c: char) -> bool {
    c <= '\u{7F}'
}

/// `char::to_ascii_lowercase`.
pub open spec fn ascii_lower(c: char) -> char {
    if is_ascii_upper(c) {
        ((c as u32) + 32) as char
    } else {
        c
    }
}

pub fn to_ascii_lower(c: char) -> (r: char)
    ensures
        r == ascii_lower(c),
{
    if 'A' <= c && c <= 'Z' {
        let r = ((c as u8) + 32) as char;
        assert(r == ((c as u32) + 32) as char);
        r
    } else {
        c
    }
}

// ------------------------------------------------------------------ exec helpers

/// The characters of a string.
pub fn chars_of(s: &str) -> (v: Vec<char>)
    ensures
        v@ == s@,
{
    let mut v: Vec<char> = Vec::new();
    for c in it: s.chars()
        invariant
            it.seq() == s@,
            v@ == s@.take(it.index() as int),
    {
        proof {
            assert(s@.take(it.index() + 1) =~= s@.take(it.index() as int).push(c));
        }
        v.push(c);
    }
    assert(s@.take(s@.len() as int) =~= s@);
    v
}

/// Calls `String::push`: the string gains `c` at its end, as the
/// documentation of `String::push` says.
#[verifier::external_body]
pub(crate) fn push_char(s: &mut String, c: char)
    ensures
        final(s)@ == old(s)@.push(c),
{
    s.push(c);
}

/// A string holding exactly the given characters.
pub fn string_of(v: &[char]) -> (s: String)
    ensures
        s@ == v@,
{
    let mut s = String::new();
    let mut i: usize = 0;
    while i < v.len()
        invariant
            i <= v@.len(),
            s@ == v@.take(i as int),
        decreases v@.len() - i,
    {
        proof {
            assert(v@.take(i + 1) =~= v@.take(i as int).push(v@[i as int]));
        }
        push_char(&mut s, v[i]);
        i += 1;
    }
    assert(v@.take(v@.len() as int) =~= v@);
    s
}

/// `s` followed by `t`.
pub fn cat(s: &str, t: &str) -> (r: String)
    ensures
        r@ == s@ + t@,
{
    let mut r = s.to_owned();
    r.append(t);
    r
}

/// Appends `t` to `s`.
pub fn append_str(s: &mut String, t: &str)
    ensures
        final(s)@ == old(s)@ + t@,
{
    s.append(t);
}

/// Equality of the character sequences of two strings.
pub fn eq_str(a: &str, b: &str) -> (r: bool)
    ensures
        r == (a@ == b@),
{
    let va = chars_of(a);
    let vb = chars_of(b);
    eq_chars(&va, &vb)
}

pub fn eq_chars(a: &[char], b: &[char]) -> (r: bool)
    ensures
        r == (a@ == b@),
{
    if a.len() != b.len() {
        return false;
    }
    let mut i: usize = 0;
    while i < a.len()
        invariant
            a@.len() == b@.len(),
            i <= a@.len(),
            forall|j: int| 0 <= j < i ==> a@[j] == b@[j],
        decreases a@.len() - i,
    {
        if a[i] != b[i] {
            return false;
        }
        i += 1;
    }
    assert(a@ =~= b@);
    true
}

/// The characters `v[lo..hi]`.
pub fn slice_of(v: &[char], lo: usize, hi: usize) -> (r: Vec<char>)
    requires
        lo <= hi <= v@.len(),
    ensures
        r@ == v@.subrange(lo as int, hi as int),
{
    let mut r: Vec<char> = Vec::new();
    let mut i = lo;
    while i < hi
        invariant
            lo <= i <= hi <= v@.len(),
            r@ == v@.subrange(lo as int, i as int),
        decreases hi - i,
    {
        proof {
            assert(v@.subrange(lo as int, i + 1) =~= v@.subrange(lo as int, i as int).push(
                v@[i as int],
            ));
        }
        r.push(v[i]);
        i += 1;
    }
    r
}

/// Index of the first `c` at or after `from`, or `v.len()`.
pub fn find_from(v: &[char], c: char, from: usize) -> (k: usize)
    requires
        from <= v@.len(),
    ensures
        k as int == from + first_index(v@.skip(from as int), c),
        from <= k <= v@.len(),
{
    let mut k = from;
    while k < v.len() && v[k] != c
        invariant
            from <= k <= v@.len(),
            forall|j: int| from <= j < k ==> v@[j] != c,
        decreases v@.len() - k,
    {
        k += 1;
    }
    proof {
        let t = v@.skip(from as int);
        assert forall|j: int| 0 <= j < k - from implies t[j] != c by {
            assert(t[j] == v@[j + from]);
        }
        if k < v@.len() {
            assert(t[k - from] == v@[k as int]);
        }
        lemma_first_index_unique(t, c, k - from);
    }
    k
}

/// Leading and trailing whitespace of `v` removed.
pub fn trim_chars(v: &[char]) -> (r: Vec<char>)
    ensures
        r@ == trim(v@),
{
    let (lo, hi) = trim_bounds(v);
    slice_of(v, lo, hi)
}

/// Bounds of `trim(v)` inside `v`.
pub fn trim_bounds(v: &[char]) -> (r: (usize, usize))
    ensures
        r.0 <= r.1 <= v@.len(),
        trim(v@) == v@.subrange(r.0 as int, r.1 as int),
        trim_start(v@) == v@.skip(r.0 as int),
{
    let mut lo: usize = 0;
    while lo < v.len() && is_ws_char(v[lo])
        invariant
            lo <= v@.len(),
            forall|j: int| 0 <= j < lo ==> is_ws(#[trigger] v@[j]),
        decreases v@.len() - lo,
    {
        lo += 1;
    }
    proof {
        lemma_trim_start_skip(v@, lo as int);
    }
    let mut hi: usize = v.len();
    while hi > lo && is_ws_char(v[hi - 1])
        invariant
            lo <= hi <= v@.len(),
            forall|j: int| hi <= j < v@.len() ==> is_ws(#[trigger] v@[j]),
        decreases hi,
    {
        hi -= 1;
    }
    proof {
        let t = v@.skip(lo as int);
        assert forall|j: int| hi - lo <= j < t.len() implies is_ws(#[trigger] t[j]) by {
            assert(t[j] == v@[j + lo]);
        }
        if hi > lo {
            assert(t[hi - lo - 1] == v@[hi - 1]);
        }
        lemma_trim_end_take(t, hi - lo);
        assert(t.take(hi - lo) =~= v@.subrange(lo as int, hi as int));
    }
    (lo, hi)
}

/// Trailing whitespace of `v` removed.
pub fn trim_end_chars(v: &[char]) -> (r: Vec<char>)
    ensures
        r@ == trim_end(v@),
{
    let mut hi: usize = v.len();
    while hi > 0 && is_ws_char(v[hi - 1])
        invariant
            hi <= v@.len(),
            forall|j: int| hi <= j < v@.len() ==> is_ws(#[trigger] v@[j]),
        decreases hi,
    {
        hi -= 1;
    }
    proof {
        lemma_trim_end_take(v@, hi as int);
    }
    slice_of(v, 0, hi)
}

/// Whether `v` starts with the characters of `p`.
pub fn starts_with_chars(v: &[char], p: &[char]) -> (b: bool)
    ensures
        b == starts_with(v@, p@),
{
    if p.len() > v.len() {
        return false;
    }
    let mut i: usize = 0;
    while i < p.len()
        invariant
            p@.len() <= v@.len(),
            i <= p@.len(),
            forall|j: int| 0 <= j < i ==> v@[j] == p@[j],
        decreases p@.len() - i,
    {
        if v[i] != p[i] {
            proof {
                assert(v@.take(p@.len() as int)[i as int] == v@[i as int]);
            }
            return false;
        }
        i += 1;
    }
    assert(v@.take(p@.len() as int) =~= p@);
    true
}

/// Whether `v` ends with the characters of `p`.
pub fn ends_with_chars(v: &[char], p: &[char]) -> (b: bool)
    ensures
        b == ends_with(v@, p@),
{
    if p.len() > v.len() {
        return false;
    }
    let off = v.len() - p.len();
    let mut i: usize = 0;
    while i < p.len()
        invariant
            p@.len() <= v@.len(),
            off == v@.len() - p@.len(),
            off + p@.len() == v@.len(),
            v@.len() <= usize::MAX,
            i <= p@.len(),
            forall|j: int| 0 <= j < i ==> v@[off + j] == p@[j],
        decreases p@.len() - i,
    {
        if v[off + i] != p[i] {
            proof {
                assert(v@.skip(off as int)[i as int] == v@[off + i]);
            }
            return false;
        }
        i += 1;
    }
    assert(v@.skip(off as int) =~= p@);
    true
}

/// Whether `p` occurs in `v`.
pub fn contains_chars(v: &[char], p: &[char]) -> (b: bool)
    ensures
        b == contains(v@, p@),
{
    if p.len() > v.len() {
        proof {
            assert forall|i: int| !occurs_at(v@, p@, i) by {}
        }
        return false;
    }
    let mut i: usize = 0;
    let last = v.len() - p.len();
    loop
        invariant
            p@.len() <= v@.len(),
            v@.len() <= usize::MAX,
            last == v@.len() - p@.len(),
            i <= last,
            forall|k: int| 0 <= k < i ==> !occurs_at(v@, p@, k),
        decreases last - i,
    {
        let mut j: usize = 0;
        let mut same = true;
        while j < p.len()
            invariant
                i + p@.len() <= v@.len(),
                v@.len() <= usize::MAX,
                i <= last,
                last == v@.len() - p@.len(),
                j <= p@.len(),
                same == (forall|m: int| 0 <= m < j ==> v@[i + m] == p@[m]),
            decreases p@.len() - j,
        {
            if v[i + j] != p[j] {
                same = false;
            }
            j += 1;
        }
        if same {
            proof {
                assert(v@.subrange(i as int, i + p@.len()) =~= p@);
                assert(occurs_at(v@, p@, i as int));
            }
            return true;
        }
        proof {
            assert(!occurs_at(v@, p@, i as int)) by {
                let m = choose|m: int| 0 <= m < p@.len() && v@[i + m] != p@[m];
                assert(v@.subrange(i as int, i + p@.len())[m] == v@[i + m]);
            }
        }
        if i == last {
            proof {
                assert forall|k: int| !occurs_at(v@, p@, k) by {
                    if 0 <= k && k + p@.len() <= v@.len() {
                        assert(k <= i);
                    }
                }
            }
            return false;
        }
        i += 1;
    }
}

/// The lines of `v` (see `lines`).
pub fn lines_of(v: &[char]) -> (r: Vec<Vec<char>>)
    ensures
        r.deep_view() == lines(v@),
{
    let mut out: Vec<Vec<char>> = Vec::new();
    let mut pos: usize = 0;
    assert(v@.skip(0) =~= v@);
    assert(out.deep_view() =~= Seq::<Seq<char>>::empty());
    while pos < v.len()
        invariant
            pos <= v@.len(),
            out.deep_view() + lines(v@.skip(pos as int)) == lines(v@),
        decreases v@.len() - pos,
    {
        let ghost rest = v@.skip(pos as int);
        let i = find_from(v, '\n', pos);
        proof {
            lemma_first_index(rest, '\n');
        }
        let ghost before = out.deep_view();
        if i < v.len() {
            let mut line = slice_of(v, pos, i);
            if line.len() > 0 && line[line.len() - 1] == '\r' {
                line.pop();
            }
            proof {
                assert(rest.take(i - pos) =~= v@.subrange(pos as int, i as int));
                assert(rest.skip(i - pos + 1) =~= v@.skip(i + 1));
                assert(lines(rest) == seq![strip_cr(rest.take(i - pos))] + lines(rest.skip(i - pos + 1)));
            }
            out.push(line);
            proof {
                assert(line.deep_view() =~= line@);
                assert(out.deep_view() =~= before.push(line@));
                assert(before.push(line@) + lines(v@.skip(i + 1)) =~= before + (seq![line@] + lines(v@.skip(i + 1))));
            }
            pos = i + 1;
        } else {
            let line = slice_of(v, pos, v.len());
            proof {
                assert(rest =~= line@);
                assert(lines(rest) == seq![line@]);
            }
            out.push(line);
            proof {
                assert(line.deep_view() =~= line@);
                assert(out.deep_view() =~= before.push(line@));
                assert(v@.skip(v@.len() as int) =~= Seq::<char>::empty());
                assert(lines(Seq::<char>::empty()) =~= Seq::<Seq<char>>::empty());
                assert(out.deep_view() + lines(v@.skip(v@.len() as int)) =~= before + seq![line@]);
            }
            pos = v.len();
        }
    }
    proof {
        assert(v@.skip(pos as int) =~= Seq::<char>::empty());
        assert(lines(Seq::<char>::empty()) =~= Seq::<Seq<char>>::empty());
        assert(out.deep_view() + Seq::<Seq<char>>::empty() =~= out.deep_view());
    }
    out
}

/// The strings joined with `sep` between them.
pub fn join_strs(ws: &[String], sep: &str) -> (r: String)
    ensures
        r@ == join(ws.deep_view(), sep@),
{
    let ghost wv = ws.deep_view();
    let mut r = String::new();
    let mut i: usize = 0;
    assert(wv.take(0) =~= Seq::<Seq<char>>::empty());
    while i < ws.len()
        invariant
            wv == ws.deep_view(),
            i <= wv.len(),
            r@ == join(wv.take(i as int), sep@),
        decreases wv.len() - i,
    {
        proof {
            assert(wv.take(i + 1).drop_last() =~= wv.take(i as int));
            assert(wv[i as int] == ws@[i as int]@);
        }
        if i > 0 {
            append_str(&mut r, sep);
            append_str(&mut r, ws[i].as_str());
        } else {
            r = ws[i].clone();
        }
        i += 1;
    }
    assert(wv.take(wv.len() as int) =~= wv);
    r
}

/// Whether `v` holds exactly the characters of `lit`.
pub fn is_lit(v: &[char], lit: &str) -> (b: bool)
    ensures
        b == (v@ == lit@),
{
    let l = chars_of(lit);
    eq_chars(v, &l)
}

// ------------------------------------------------------------------ numbers

pub open spec fn digit_char(d: int) -> char {
    seq!['0', '1', '2', '3', '4', '5', '6', '7', '8', '9'][d]
}

/// `n` in decimal, as `Display` writes an unsigned integer.
pub open spec fn decimal(n: nat) -> Seq<char>
    decreases n,
{
    if n < 10 {
        seq![digit_char(n as int)]
    } else {
        decimal(n / 10).push(digit_char((n % 10) as int))
    }
}

fn digit_of(d: usize) -> (c: char)
    requires
        d < 10,
    ensures
        c == digit_char(d as int),
{
    let ds = ['0', '1', '2', '3', '4', '5', '6', '7', '8', '9'];
    assert(ds@ =~= seq!['0', '1', '2', '3', '4', '5', '6', '7', '8', '9']);
    ds[d]
}

/// `n` in decimal.
pub fn fmt_usize(n: usize) -> (r: String)
    ensures
        r@ == decimal(n as nat),
{
    let mut q = n;
    let mut acc: Vec<char> = Vec::new();
    while q >= 10
        invariant
            decimal(n as nat) == decimal(q as nat) + acc@,
        decreases q,
    {
        let d = digit_of(q % 10);
        let ghost before = acc@;
        acc.insert(0, d);
        proof {
            assert(acc@ =~= seq![d] + before);
            assert(decimal(q as nat) == decimal((q / 10) as nat).push(d));
            assert(decimal((q / 10) as nat) + acc@ =~= decimal((q / 10) as nat).push(d) + before);
        }
        q = q / 10;
    }
    let mut out: Vec<char> = Vec::new();
    out.push(digit_of(q));
    let mut i: usize = 0;
    let ghost first = out@;
    while i < acc.len()
        invariant
            i <= acc@.len(),
            out@ == first + acc@.take(i as int),
        decreases acc@.len() - i,
    {
        proof {
            assert(acc@.take(i + 1) =~= acc@.take(i as int).push(acc@[i as int]));
        }
        out.push(acc[i]);
        i += 1;
    }
    proof {
        assert(acc@.take(acc@.len() as int) =~= acc@);
        assert(decimal(q as nat) =~= first);
    }
    string_of(&out)
}

// ------------------------------------------------------------------ case

/// What `str::to_lowercase` makes of `s` (full Unicode lowercase mapping).
pub uninterp spec fn lowercase(s: Seq<char>) -> Seq<char>;

/// Calls `str::to_lowercase`; the contract only names the result: the same
/// text gives the same lowercase text.
#[verifier::external_body]
pub(crate) fn to_lowercase(s: &str) -> (r: String)
    ensures
        r@ == lowercase(s@),
{
    s.to_lowercase()
}

// ------------------------------------------------------------------ order

/// `a < b` in the order of `str`: lexicographic by character, a proper
/// prefix first (UTF-8 keeps code point order byte by byte).
pub open spec fn lt_from(a: Seq<char>, b: Seq<char>, i: int) -> bool
    decreases a.len() - i,
{
    if i < 0 || i >= b.len() {
        false
    } else if i >= a.len() {
        true
    } else if a[i] != b[i] {
        a[i] < b[i]
    } else {
        lt_from(a, b, i + 1)
    }
}

pub open spec fn str_lt(a: Seq<char>, b: Seq<char>) -> bool {
    lt_from(a, b, 0)
}

proof fn lemma_lt_from_trans(a: Seq<char>, b: Seq<char>, c: Seq<char>, i: int)
    requires
        0 <= i,
        lt_from(a, b, i),
        lt_from(b, c, i),
    ensures
        lt_from(a, c, i),
    decreases c.len() - i,
{
    if i < a.len() && a[i] == b[i] && b[i] == c[i] {
        lemma_lt_from_trans(a, b, c, i + 1);
    }
}

proof fn lemma_lt_from_total(a: Seq<char>, b: Seq<char>, i: int)
    requires
        0 <= i <= a.len(),
        i <= b.len(),
        !lt_from(a, b, i),
        !lt_from(b, a, i),
    ensures
        a.subrange(i, a.len() as int) == b.subrange(i, b.len() as int),
    decreases a.len() - i,
{
    if i < a.len() && i < b.len() {
        lemma_lt_from_total(a, b, i + 1);
        assert(a.subrange(i, a.len() as int) =~= seq![a[i]] + a.subrange(i + 1, a.len() as int));
        assert(b.subrange(i, b.len() as int) =~= seq![b[i]] + b.subrange(i + 1, b.len() as int));
    } else {
        assert(a.subrange(i, a.len() as int) =~= b.subrange(i, b.len() as int));
    }
}

proof fn lemma_lt_from_irrefl(a: Seq<char>, i: int)
    requires
        0 <= i,
    ensures
        !lt_from(a, a, i),
    decreases a.len() - i,
{
    if i < a.len() {
        lemma_lt_from_irrefl(a, i + 1);
    }
}

/// `str_lt` is a strict total order.
pub proof fn lemma_str_lt_order(a: Seq<char>, b: Seq<char>, c: Seq<char>)
    ensures
        !str_lt(a, a),
        str_lt(a, b) && str_lt(b, c) ==> str_lt(a, c),
        !str_lt(a, b) && !str_lt(b, a) ==> a == b,
        str_lt(a, b) ==> !str_lt(b, a),
{
    lemma_lt_from_irrefl(a, 0);
    if str_lt(a, b) && str_lt(b, c) {
        lemma_lt_from_trans(a, b, c, 0);
    }
    if !str_lt(a, b) && !str_lt(b, a) {
        lemma_lt_from_total(a, b, 0);
        assert(a.subrange(0, a.len() as int) =~= a);
        assert(b.subrange(0, b.len() as int) =~= b);
    }
    if str_lt(a, b) && str_lt(b, a) {
        lemma_lt_from_trans(a, b, a, 0);
    }
}

/// Whether `a` sorts before `b`.
pub fn chars_lt(a: &[char], b: &[char]) -> (r: bool)
    ensures
        r == str_lt(a@, b@),
{
    let mut i: usize = 0;
    while i < a.len() && i < b.len() && a[i] == b[i]
        invariant
            i <= a@.len(),
            i <= b@.len(),
            lt_from(a@, b@, i as int) == str_lt(a@, b@),
        decreases a@.len() - i,
    {
        i += 1;
    }
    if i == b.len() {
        false
    } else if i == a.len() {
        true
    } else {
        a[i] < b[i]
    }
}

/// Whether `a` sorts before `b`.
pub fn str_less(a: &str, b: &str) -> (r: bool)
    ensures
        r == str_lt(a@, b@),
{
    let va = chars_of(a);
    let vb = chars_of(b);
    chars_lt(&va, &vb)
}

} // verus!

//! Escaping text for the two languages the dashboard writes: HTML and JSON.
use vstd::prelude::*;
use crate::text::{append_str, chars_of, push_char};

verus! {

// ------------------------------------------------------------------ HTML

/// The HTML form of one character: `& < > " '` become entities.
pub open spec fn esc_char(c: char) -> Seq<char> {
    if c == '&' {
        "&amp;"@
    } else if c == '<' {
        "&lt;"@
    } else if c == '>' {
        "&gt;"@
    } else if c == '"' {
        "&quot;"@
    } else if c == '\'' {
        "&#39;"@
    } else {
        seq![c]
    }
}

/// Text made safe for HTML element content and quoted attribute values.
pub open spec fn esc_spec(s: Seq<char>) -> Seq<char>
    decreases s.len(),
{
    if s.len() == 0 {
        Seq::empty()
    } else {
        esc_spec(s.drop_last()) + esc_char(s.last())
    }
}

/// Escapes `& < > " '` for HTML.
pub fn esc(s: &str) -> (r: String)
    ensures
        r@ == esc_spec(s@),
{
    let v = chars_of(s);
    let mut o = String::new();
    let mut i: usize = 0;
    assert(v@.take(0) =~= Seq::<char>::empty());
    while i < v.len()
        invariant
            i <= v@.len(),
            v@ == s@,
            o@ == esc_spec(v@.take(i as int)),
        decreases v@.len() - i,
    {
        proof {
            assert(v@.take(i + 1).drop_last() =~= v@.take(i as int));
        }
        let c = v[i];
        if c == '&' {
            append_str(&mut o, "&amp;");
        } else if c == '<' {
            append_str(&mut o, "&lt;");
        } else if c == '>' {
            append_str(&mut o, "&gt;");
        } else if c == '"' {
            append_str(&mut o, "&quot;");
        } else if c == '\'' {
            append_str(&mut o, "&#39;");
        } else {
            push_char(&mut o, c);
            assert(o@ =~= esc_spec(v@.take(i as int)) + seq![c]);
        }
        i += 1;
    }
    assert(v@.take(v@.len() as int) =~= v@);
    o
}

/// Escaped text holds none of `<`, `>`, `"` and `'`: it cannot open or
/// close a tag or leave a quoted attribute value.
pub proof fn law_esc_no_markup(s: Seq<char>)
    ensures
        forall|i: int|
            0 <= i < esc_spec(s).len() ==> {
                let c = #[trigger] esc_spec(s)[i];
                c != '<' && c != '>' && c != '"' && c != '\''
            },
    decreases s.len(),
{
    reveal_strlit("&amp;");
    reveal_strlit("&lt;");
    reveal_strlit("&gt;");
    reveal_strlit("&quot;");
    reveal_strlit("&#39;");
    if s.len() > 0 {
        law_esc_no_markup(s.drop_last());
        let a = esc_spec(s.drop_last());
        let b = esc_char(s.last());
        assert forall|i: int| 0 <= i < esc_spec(s).len() implies {
            let c = #[trigger] esc_spec(s)[i];
            c != '<' && c != '>' && c != '"' && c != '\''
        } by {
            if i < a.len() {
                assert(esc_spec(s)[i] == a[i]);
            } else {
                assert(esc_spec(s)[i] == b[i - a.len()]);
            }
        }
    }
}

// ------------------------------------------------------------------ reading HTML back

/// The character that an entity at the head of `t` names, with the entity's
/// length: the five that `esc` writes.
pub open spec fn entity_at(t: Seq<char>) -> Option<(char, int)> {
    if t.len() >= 5 && t.take(5) == "&amp;"@ {
        Some(('&', 5))
    } else if t.len() >= 4 && t.take(4) == "&lt;"@ {
        Some(('<', 4))
    } else if t.len() >= 4 && t.take(4) == "&gt;"@ {
        Some(('>', 4))
    } else if t.len() >= 6 && t.take(6) == "&quot;"@ {
        Some(('"', 6))
    } else if t.len() >= 5 && t.take(5) == "&#39;"@ {
        Some(('\'', 5))
    } else {
        None
    }
}

/// The text a browser shows for `t`, as far as these five entities go:
/// each stands for its character, every other character for itself.
pub open spec fn html_text(t: Seq<char>) -> Seq<char>
    decreases t.len(),
{
    if t.len() == 0 {
        Seq::empty()
    } else {
        match entity_at(t) {
            Some((c, n)) => if 0 < n <= t.len() {
                seq![c] + html_text(t.skip(n))
            } else {
                Seq::empty()
            },
            None => seq![t[0]] + html_text(t.drop_first()),
        }
    }
}

proof fn lemma_esc_front(s: Seq<char>)
    requires
        s.len() > 0,
    ensures
        esc_spec(s) == esc_char(s[0]) + esc_spec(s.drop_first()),
    decreases s.len(),
{
    if s.len() == 1 {
        assert(s.drop_first() =~= Seq::<char>::empty());
        assert(s.drop_last() =~= Seq::<char>::empty());
        assert(esc_spec(s.drop_last()) == Seq::<char>::empty());
        assert(esc_spec(s.drop_first()) == Seq::<char>::empty());
        assert(esc_spec(s) =~= esc_char(s[0]));
    } else {
        let init = s.drop_last();
        lemma_esc_front(init);
        assert(init.drop_first() =~= s.drop_first().drop_last());
        assert(s.drop_first().last() == s.last());
        assert(esc_spec(s) =~= esc_char(s[0]) + esc_spec(s.drop_first()));
    }
}

proof fn lemma_show_char(c: char, rest: Seq<char>)
    ensures
        html_text(esc_char(c) + rest) == seq![c] + html_text(rest),
{
    reveal_strlit("&amp;");
    reveal_strlit("&lt;");
    reveal_strlit("&gt;");
    reveal_strlit("&quot;");
    reveal_strlit("&#39;");
    let t = esc_char(c) + rest;
    let n = esc_char(c).len() as int;
    assert(t.take(n) =~= esc_char(c));
    assert(t.skip(n) =~= rest);
    if c == '&' {
    } else if c == '<' {
        assert(t.take(5) != "&amp;"@ || t.len() < 5) by {
            if t.len() >= 5 {
                assert(t.take(5)[1] == 'l');
            }
        }
    } else if c == '>' {
        assert(t.take(5) != "&amp;"@ || t.len() < 5) by {
            if t.len() >= 5 {
                assert(t.take(5)[1] == 'g');
            }
        }
        assert(t.take(4) != "&lt;"@) by {
            assert(t.take(4)[1] == 'g');
        }
    } else if c == '"' {
        assert(t.take(5) != "&amp;"@) by {
            assert(t.take(5)[1] == 'q');
        }
        assert(t.take(4) != "&lt;"@) by {
            assert(t.take(4)[1] == 'q');
        }
        assert(t.take(4) != "&gt;"@) by {
            assert(t.take(4)[1] == 'q');
        }
    } else if c == '\'' {
        assert(t.take(5) != "&amp;"@) by {
            assert(t.take(5)[1] == '#');
        }
        assert(t.take(4) != "&lt;"@) by {
            assert(t.take(4)[1] == '#');
        }
        assert(t.take(4) != "&gt;"@) by {
            assert(t.take(4)[1] == '#');
        }
        assert(t.len() < 6 || t.take(6) != "&quot;"@) by {
            if t.len() >= 6 {
                assert(t.take(6)[1] == '#');
            }
        }
    } else {
        assert(t[0] == c);
        assert(entity_at(t) is None) by {
            if t.len() >= 4 {
                assert(t.take(4)[0] == c);
            }
            if t.len() >= 5 {
                assert(t.take(5)[0] == c);
            }
            if t.len() >= 6 {
                assert(t.take(6)[0] == c);
            }
        }
        assert(t.drop_first() =~= rest);
    }
}

/// Reading back: the text a browser shows for escaped text is the text
/// that was escaped.
pub proof fn law_esc_reads_back(s: Seq<char>)
    ensures
        html_text(esc_spec(s)) == s,
    decreases s.len(),
{
    if s.len() > 0 {
        lemma_esc_front(s);
        law_esc_reads_back(s.drop_first());
        lemma_show_char(s[0], esc_spec(s.drop_first()));
        assert(seq![s[0]] + s.drop_first() =~= s);
    }
}

// ------------------------------------------------------------------ JSON

/// Lowercase hexadecimal digit of `d` (`0 <= d < 16`).
pub open spec fn hex_digit(d: int) -> char {
    if d < 10 {
        ((d + 48) as u32) as char
    } else {
        ((d + 87) as u32) as char
    }
}

/// The JSON form of one character inside a string literal: the quote, the
/// backslash and the control characters below U+0020 are escaped (the five
/// with a short form by it, the rest as `\u00XX`); every other character
/// stands as it is.
pub open spec fn json_char(c: char) -> Seq<char> {
    if c == '"' {
        "\\\""@
    } else if c == '\\' {
        "\\\\"@
    } else if c == '\u{08}' {
        "\\b"@
    } else if c == '\u{09}' {
        "\\t"@
    } else if c == '\u{0A}' {
        "\\n"@
    } else if c == '\u{0C}' {
        "\\f"@
    } else if c == '\u{0D}' {
        "\\r"@
    } else if (c as u32) < 0x20 {
        seq!['\\', 'u', '0', '0', hex_digit(((c as u32) / 16) as int), hex_digit(((c as u32) % 16) as int)]
    } else {
        seq![c]
    }
}

/// The body of a JSON string literal holding `s`.
pub open spec fn json_escape_spec(s: Seq<char>) -> Seq<char>
    decreases s.len(),
{
    if s.len() == 0 {
        Seq::empty()
    } else {
        json_escape_spec(s.drop_last()) + json_char(s.last())
    }
}

fn hex_of(d: u32) -> (c: char)
    requires
        d < 16,
    ensures
        c == hex_digit(d as int),
{
    if d < 10 {
        ((d + 48) as u8) as char
    } else {
        ((d + 87) as u8) as char
    }
}

/// Escapes `s` for the inside of a JSON string literal.
pub fn json_escape(s: &str) -> (r: String)
    ensures
        r@ == json_escape_spec(s@),
{
    let v = chars_of(s);
    let mut o = String::new();
    let mut i: usize = 0;
    assert(v@.take(0) =~= Seq::<char>::empty());
    while i < v.len()
        invariant
            i <= v@.len(),
            v@ == s@,
            o@ == json_escape_spec(v@.take(i as int)),
        decreases v@.len() - i,
    {
        proof {
            assert(v@.take(i + 1).drop_last() =~= v@.take(i as int));
        }
        let c = v[i];
        let ghost before = o@;
        if c == '"' {
            append_str(&mut o, "\\\"");
        } else if c == '\\' {
            append_str(&mut o, "\\\\");
        } else if c == '\u{08}' {
            append_str(&mut o, "\\b");
        } else if c == '\u{09}' {
            append_str(&mut o, "\\t");
        } else if c == '\u{0A}' {
            append_str(&mut o, "\\n");
        } else if c == '\u{0C}' {
            append_str(&mut o, "\\f");
        } else if c == '\u{0D}' {
            append_str(&mut o, "\\r");
        } else if (c as u32) < 0x20 {
            let n = c as u32;
            append_str(&mut o, "\\u00");
            push_char(&mut o, hex_of(n / 16));
            push_char(&mut o, hex_of(n % 16));
            proof {
                reveal_strlit("\\u00");
                assert(o@ =~= before + json_char(c));
            }
        } else {
            push_char(&mut o, c);
            assert(o@ =~= before + json_char(c));
        }
        i += 1;
    }
    assert(v@.take(v@.len() as int) =~= v@);
    o
}

// ------------------------------------------------------------------ reading JSON back

/// The value of a hexadecimal digit, or -1 for any other character.
pub open spec fn hex_value(c: char) -> int {
    if '0' <= c && c <= '9' {
        c as int - 48
    } else if 'a' <= c && c <= 'f' {
        c as int - 87
    } else if 'A' <= c && c <= 'F' {
        c as int - 55
    } else {
        -1
    }
}

/// The code point that a `\uXXXX` escape names, when its four digits are
/// hexadecimal and it names no surrogate half.
pub open spec fn unicode_escape(a: char, b: char, c: char, d: char) -> Option<char> {
    let (w, x, y, z) = (hex_value(a), hex_value(b), hex_value(c), hex_value(d));
    if w < 0 || x < 0 || y < 0 || z < 0 {
        None
    } else {
        let n = w * 4096 + x * 256 + y * 16 + z;
        if 0xD800 <= n && n <= 0xDFFF {
            None
        } else {
            Some((n as u32) as char)
        }
    }
}

/// What a JSON reader makes of the body of a string literal (the text
/// between its quotes): `None` where the body is malformed, a bare quote or
/// a raw control character among them. Surrogate pairs written as two
/// `\u` escapes are not read.
pub open spec fn json_unescape(t: Seq<char>) -> Option<Seq<char>>
    decreases t.len(),
{
    if t.len() == 0 {
        Some(Seq::empty())
    } else if t[0] == '"' || (t[0] as u32) < 0x20 {
        None
    } else if t[0] != '\\' {
        prepend(t[0], json_unescape(t.drop_first()))
    } else if t.len() < 2 {
        None
    } else {
        let e = t[1];
        if e == '"' || e == '\\' || e == '/' {
            prepend(e, json_unescape(t.skip(2)))
        } else if e == 'b' {
            prepend('\u{08}', json_unescape(t.skip(2)))
        } else if e == 't' {
            prepend('\u{09}', json_unescape(t.skip(2)))
        } else if e == 'n' {
            prepend('\u{0A}', json_unescape(t.skip(2)))
        } else if e == 'f' {
            prepend('\u{0C}', json_unescape(t.skip(2)))
        } else if e == 'r' {
            prepend('\u{0D}', json_unescape(t.skip(2)))
        } else if e == 'u' && t.len() >= 6 {
            match unicode_escape(t[2], t[3], t[4], t[5]) {
                Some(c) => prepend(c, json_unescape(t.skip(6))),
                None => None,
            }
        } else {
            None
        }
    }
}

/// `c` in front of what was read, if anything was.
pub open spec fn prepend(c: char, r: Option<Seq<char>>) -> Option<Seq<char>> {
    match r {
        Some(x) => Some(seq![c] + x),
        None => None,
    }
}

proof fn lemma_json_escape_front(s: Seq<char>)
    requires
        s.len() > 0,
    ensures
        json_escape_spec(s) == json_char(s[0]) + json_escape_spec(s.drop_first()),
    decreases s.len(),
{
    if s.len() == 1 {
        assert(s.drop_first() =~= Seq::<char>::empty());
        assert(s.drop_last() =~= Seq::<char>::empty());
        assert(json_escape_spec(s.drop_last()) == Seq::<char>::empty());
        assert(json_escape_spec(s.drop_first()) == Seq::<char>::empty());
        assert(json_escape_spec(s) =~= json_char(s[0]));
    } else {
        let init = s.drop_last();
        lemma_json_escape_front(init);
        assert(init.drop_first() =~= s.drop_first().drop_last());
        assert(s.drop_first().last() == s.last());
        assert(json_escape_spec(s) =~= json_char(s[0]) + json_escape_spec(s.drop_first()));
    }
}

proof fn lemma_hex_round(d: int)
    requires
        0 <= d < 16,
    ensures
        hex_value(hex_digit(d)) == d,
{
}

proof fn lemma_read_char(c: char, rest: Seq<char>)
    ensures
        json_unescape(json_char(c) + rest) == prepend(c, json_unescape(rest)),
{
    reveal_strlit("\\\"");
    reveal_strlit("\\\\");
    reveal_strlit("\\b");
    reveal_strlit("\\t");
    reveal_strlit("\\n");
    reveal_strlit("\\f");
    reveal_strlit("\\r");
    let t = json_char(c) + rest;
    if c == '"' || c == '\\' || c == '\u{08}' || c == '\u{09}' || c == '\u{0A}' || c == '\u{0C}'
        || c == '\u{0D}' {
        assert(t.skip(2) =~= rest);
    } else if (c as u32) < 0x20 {
        let n = c as u32;
        lemma_hex_round((n / 16) as int);
        lemma_hex_round((n % 16) as int);
        assert(hex_value('0') == 0);
        assert(t[2] == '0' && t[3] == '0');
        assert(t[4] == hex_digit((n / 16) as int));
        assert(t[5] == hex_digit((n % 16) as int));
        assert((n / 16) * 16 + n % 16 == n);
        assert(t.skip(6) =~= rest);
    } else {
        assert(t.drop_first() =~= rest);
    }
}

/// Reading back: a JSON reader given the escaped body of a string literal
/// gets the original text, every character of it.
pub proof fn law_json_escape_reads_back(s: Seq<char>)
    ensures
        json_unescape(json_escape_spec(s)) == Some(s),
    decreases s.len(),
{
    if s.len() == 0 {
    } else {
        lemma_json_escape_front(s);
        law_json_escape_reads_back(s.drop_first());
        lemma_read_char(s[0], json_escape_spec(s.drop_first()));
        assert(seq![s[0]] + s.drop_first() =~= s);
    }
}

} // verus!

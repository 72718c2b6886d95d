//! Serving the dashboard: the file a request asks for, and the head of the
//! response (content type and caching by file extension).
use vstd::prelude::*;
use vstd::string::StringSliceAdditionalSpecFns;
use vstd::utf8::{decode_utf8, encode_utf8, valid_utf8, is_char_boundary};
use crate::text::{append_str, chars_of, eq_str, fmt_usize, decimal, is_ws, is_ws_char, slice_of, string_of};

verus! {

// ------------------------------------------------------------------ percent decoding

/// The value of a hexadecimal digit byte.
pub open spec fn hex_val(b: u8) -> Option<u8> {
    if 48 <= b <= 57 {
        Some((b - 48) as u8)
    } else if 97 <= b <= 102 {
        Some((b - 87) as u8)
    } else if 65 <= b <= 70 {
        Some((b - 55) as u8)
    } else {
        None
    }
}

/// What `u8::from_str_radix(_, 16)` makes of the two bytes after a `%`:
/// two hex digits, or `+` and one hex digit.
pub open spec fn pct_pair(x: u8, y: u8) -> Option<u8> {
    match (hex_val(x), hex_val(y)) {
        (Some(h), Some(l)) => Some((h * 16 + l) as u8),
        _ => if x == 43 && hex_val(y) is Some {
            hex_val(y)
        } else {
            None
        },
    }
}

/// The bytes from `i` on with every decodable `%XY` replaced by its byte.
pub open spec fn pct_scan(b: Seq<u8>, i: int) -> Seq<u8>
    decreases b.len() - i,
{
    if i < 0 || i >= b.len() {
        Seq::empty()
    } else if b[i] == 37 && i + 2 < b.len() && pct_pair(b[i + 1], b[i + 2]) is Some {
        seq![pct_pair(b[i + 1], b[i + 2])->0] + pct_scan(b, i + 3)
    } else {
        seq![b[i]] + pct_scan(b, i + 1)
    }
}

/// The decoding reads the two bytes after each `%` (when there are two) as
/// a piece of text: they end on a character boundary.
pub open spec fn pct_ok(s: Seq<char>) -> bool {
    let b = encode_utf8(s);
    forall|i: int| 0 <= i < b.len() && #[trigger] b[i] == 37 && i + 2 < b.len() ==> is_char_boundary(b, i + 3)
}

/// What `String::from_utf8_lossy` makes of the bytes `b`: invalid
/// sequences replaced by U+FFFD.
pub uninterp spec fn utf8_lossy(b: Seq<u8>) -> Seq<char>;

/// Calls `String::from_utf8_lossy`. The contract names the result and
/// states what its documentation gives: valid UTF-8 is decoded as it is.
#[verifier::external_body]
fn lossy(b: &[u8]) -> (r: String)
    ensures
        r@ == utf8_lossy(b@),
        valid_utf8(b@) ==> r@ == decode_utf8(b@),
{
    String::from_utf8_lossy(b).into_owned()
}

/// A request path with `%XY` escapes decoded (as UTF-8, lossily).
pub open spec fn percent_decode_spec(s: Seq<char>) -> Seq<char> {
    utf8_lossy(pct_scan(encode_utf8(s), 0))
}

fn hex_of_byte(b: u8) -> (r: Option<u8>)
    ensures
        r == hex_val(b),
{
    if 48 <= b && b <= 57 {
        Some(b - 48)
    } else if 97 <= b && b <= 102 {
        Some(b - 87)
    } else if 65 <= b && b <= 70 {
        Some(b - 55)
    } else {
        None
    }
}

fn pair_of(x: u8, y: u8) -> (r: Option<u8>)
    ensures
        r == pct_pair(x, y),
{
    match (hex_of_byte(x), hex_of_byte(y)) {
        (Some(h), Some(l)) => Some(h * 16 + l),
        _ => {
            if x == 43 {
                hex_of_byte(y)
            } else {
                None
            }
        },
    }
}

/// Decodes `%XY` escapes in a request path (see `percent_decode_spec`).
pub fn percent_decode(s: &str) -> (r: String)
    requires
        pct_ok(s@),
    ensures
        r@ == percent_decode_spec(s@),
        valid_utf8(pct_scan(encode_utf8(s@), 0)) ==> r@ == decode_utf8(pct_scan(encode_utf8(s@), 0)),
{
    let b = s.as_bytes();
    let ghost bv = b@;
    let mut out: Vec<u8> = Vec::new();
    let mut i: usize = 0;
    while i < b.len()
        invariant
            bv == b@,
            i <= bv.len(),
            out@ + pct_scan(bv, i as int) == pct_scan(bv, 0),
        decreases bv.len() - i,
    {
        let ghost before = out@;
        let mut step: usize = 1;
        let mut byte = b[i];
        if b[i] == 37 && b.len() - i > 2 {
            match pair_of(b[i + 1], b[i + 2]) {
                Some(v) => {
                    byte = v;
                    step = 3;
                },
                None => {},
            }
        }
        out.push(byte);
        proof {
            assert(out@ + pct_scan(bv, i + step) =~= before + pct_scan(bv, i as int));
        }
        i = i + step;
    }
    proof {
        assert(pct_scan(bv, i as int) =~= Seq::<u8>::empty());
        assert(out@ =~= out@ + Seq::<u8>::empty());
    }
    lossy(out.as_slice())
}

/// Whether `percent_decode` can take `s`.
pub fn percent_decode_fits(s: &str) -> (b: bool)
    ensures
        b == pct_ok(s@),
{
    let bytes = s.as_bytes();
    let ghost bv = bytes@;
    let mut i: usize = 0;
    while i < bytes.len()
        invariant
            bv == bytes@,
            bv == encode_utf8(s@),
            i <= bv.len(),
            forall|j: int| 0 <= j < i && #[trigger] bv[j] == 37 && j + 2 < bv.len() ==> is_char_boundary(bv, j + 3),
        decreases bv.len() - i,
    {
        if bytes[i] == 37 && bytes.len() - i > 2 {
            if !s.is_char_boundary(i + 3) {
                return false;
            }
        }
        i += 1;
    }
    true
}

proof fn lemma_pct_scan_plain(b: Seq<u8>, i: int)
    requires
        0 <= i <= b.len(),
        forall|j: int| 0 <= j < b.len() ==> #[trigger] b[j] != 37,
    ensures
        pct_scan(b, i) == b.skip(i),
    decreases b.len() - i,
{
    if i < b.len() {
        lemma_pct_scan_plain(b, i + 1);
        assert(b.skip(i) =~= seq![b[i]] + b.skip(i + 1));
    } else {
        assert(b.skip(i) =~= Seq::<u8>::empty());
    }
}

/// A request path in ASCII without a `%` decodes to itself: its bytes
/// pass through unchanged, and as valid UTF-8 they read back as the path.
pub proof fn law_plain_path_unchanged(s: Seq<char>)
    requires
        vstd::utf8::is_ascii_chars(s),
        forall|i: int| 0 <= i < s.len() ==> s[i] != '%',
    ensures
        pct_ok(s),
        valid_utf8(pct_scan(encode_utf8(s), 0)),
        decode_utf8(pct_scan(encode_utf8(s), 0)) == s,
{
    vstd::utf8::is_ascii_chars_encode_utf8(s);
    let b = encode_utf8(s);
    assert forall|j: int| 0 <= j < b.len() implies #[trigger] b[j] != 37 by {
        assert(s[j] as u8 == b[j]);
        assert(s[j] != '%');
        assert('\0' <= s[j] <= '\u{7f}');
    }
    lemma_pct_scan_plain(b, 0);
    assert(b.skip(0) =~= b);
    vstd::utf8::encode_utf8_valid_utf8(s);
    vstd::utf8::encode_utf8_decode_utf8(s);
}

// ------------------------------------------------------------------ requests

/// Index of the first whitespace character of `s`, or its length.
pub open spec fn first_ws(s: Seq<char>) -> int
    decreases s.len(),
{
    if s.len() == 0 || is_ws(s[0]) {
        0
    } else {
        1 + first_ws(s.drop_first())
    }
}

/// Leading whitespace removed (`char::is_whitespace`).
pub open spec fn skip_ws(s: Seq<char>) -> Seq<char>
    decreases s.len(),
{
    if s.len() > 0 && is_ws(s[0]) {
        skip_ws(s.drop_first())
    } else {
        s
    }
}

/// The second whitespace-separated word of a request line: its target.
pub open spec fn request_target(req: Seq<char>) -> Option<Seq<char>> {
    let a = skip_ws(req);
    let rest = skip_ws(a.skip(first_ws(a)));
    if rest.len() == 0 {
        None
    } else {
        Some(rest.take(first_ws(rest)))
    }
}

/// The part of a target before its first `?`.
pub open spec fn before_query(t: Seq<char>) -> Seq<char> {
    t.take(crate::text::first_index(t, '?'))
}

/// Leading `/`s removed.
pub open spec fn trim_slashes(s: Seq<char>) -> Seq<char>
    decreases s.len(),
{
    if s.len() > 0 && s[0] == '/' {
        trim_slashes(s.drop_first())
    } else {
        s
    }
}

/// The file a request asks for, relative to `dist/`: the request target
/// without its query, percent-decoded, without leading slashes; the index
/// page for the root. Nothing for a request without a target.
pub open spec fn serve_target_spec(req: Seq<char>) -> Option<Seq<char>> {
    match request_target(req) {
        Some(t) => {
            let rel = trim_slashes(percent_decode_spec(before_query(t)));
            Some(
                if rel.len() == 0 {
                    "index.html"@
                } else {
                    rel
                },
            )
        },
        None => None,
    }
}

/// The target of a request can be decoded.
pub open spec fn serve_ok(req: Seq<char>) -> bool {
    match request_target(req) {
        Some(t) => pct_ok(before_query(t)),
        None => true,
    }
}

proof fn lemma_first_ws(s: Seq<char>)
    ensures
        0 <= first_ws(s) <= s.len(),
        forall|j: int| 0 <= j < first_ws(s) ==> !is_ws(#[trigger] s[j]),
        first_ws(s) < s.len() ==> is_ws(s[first_ws(s)]),
    decreases s.len(),
{
    if s.len() > 0 && !is_ws(s[0]) {
        lemma_first_ws(s.drop_first());
        assert forall|j: int| 0 <= j < first_ws(s) implies !is_ws(#[trigger] s[j]) by {
            if j > 0 {
                assert(s[j] == s.drop_first()[j - 1]);
            }
        }
    }
}

fn skip_ws_from(v: &[char], from: usize) -> (k: usize)
    requires
        from <= v@.len(),
    ensures
        from <= k <= v@.len(),
        skip_ws(v@.skip(from as int)) == v@.skip(k as int),
{
    let mut k = from;
    while k < v.len() && is_ws_char(v[k])
        invariant
            from <= k <= v@.len(),
            skip_ws(v@.skip(k as int)) == skip_ws(v@.skip(from as int)),
        decreases v@.len() - k,
    {
        assert(v@.skip(k as int).drop_first() =~= v@.skip(k + 1));
        k += 1;
    }
    k
}

fn word_end(v: &[char], from: usize) -> (k: usize)
    requires
        from <= v@.len(),
    ensures
        from <= k <= v@.len(),
        k - from == first_ws(v@.skip(from as int)),
{
    let mut k = from;
    while k < v.len() && !is_ws_char(v[k])
        invariant
            from <= k <= v@.len(),
            first_ws(v@.skip(from as int)) == (k - from) + first_ws(v@.skip(k as int)),
        decreases v@.len() - k,
    {
        assert(v@.skip(k as int).drop_first() =~= v@.skip(k + 1));
        k += 1;
    }
    k
}

/// The file a request asks for (see `serve_target_spec`).
pub fn serve_target(req: &str) -> (r: Option<String>)
    requires
        serve_ok(req@),
    ensures
        match (r, serve_target_spec(req@)) {
            (Some(x), Some(y)) => x@ == y,
            (None, None) => true,
            _ => false,
        },
{
    let v = chars_of(req);
    assert(v@.skip(0) =~= v@);
    let a0 = skip_ws_from(&v, 0);
    let a1 = word_end(&v, a0);
    let b0 = skip_ws_from(&v, a1);
    proof {
        let a = v@.skip(a0 as int);
        assert(a.skip(first_ws(a)) =~= v@.skip(a1 as int));
    }
    if b0 == v.len() {
        assert(v@.skip(b0 as int) =~= Seq::<char>::empty());
        return None;
    }
    let b1 = word_end(&v, b0);
    let target = slice_of(&v, b0, b1);
    proof {
        assert(target@ =~= v@.skip(b0 as int).take(first_ws(v@.skip(b0 as int))));
    }
    let q = crate::text::find_from(&target, '?', 0);
    assert(target@.skip(0) =~= target@);
    let path = string_of(&slice_of(&target, 0, q));
    assert(target@.subrange(0, q as int) =~= before_query(target@));
    let decoded = percent_decode(path.as_str());
    let dv = chars_of(decoded.as_str());
    let mut k: usize = 0;
    assert(dv@.skip(0) =~= dv@);
    while k < dv.len() && dv[k] == '/'
        invariant
            k <= dv@.len(),
            trim_slashes(dv@.skip(k as int)) == trim_slashes(dv@),
        decreases dv@.len() - k,
    {
        assert(dv@.skip(k as int).drop_first() =~= dv@.skip(k + 1));
        k += 1;
    }
    assert(dv@.subrange(k as int, dv@.len() as int) =~= dv@.skip(k as int));
    if k == dv.len() {
        Some(String::from_str("index.html"))
    } else {
        Some(string_of(&slice_of(&dv, k, dv.len())))
    }
}

/// Whether `serve_target` can take `req`.
pub fn serve_fits(req: &str) -> (b: bool)
    ensures
        b == serve_ok(req@),
{
    let v = chars_of(req);
    assert(v@.skip(0) =~= v@);
    let a0 = skip_ws_from(&v, 0);
    let a1 = word_end(&v, a0);
    let b0 = skip_ws_from(&v, a1);
    proof {
        let a = v@.skip(a0 as int);
        assert(a.skip(first_ws(a)) =~= v@.skip(a1 as int));
    }
    if b0 == v.len() {
        assert(v@.skip(b0 as int) =~= Seq::<char>::empty());
        return true;
    }
    let b1 = word_end(&v, b0);
    let target = slice_of(&v, b0, b1);
    proof {
        assert(target@ =~= v@.skip(b0 as int).take(first_ws(v@.skip(b0 as int))));
    }
    let q = crate::text::find_from(&target, '?', 0);
    assert(target@.skip(0) =~= target@);
    let path = string_of(&slice_of(&target, 0, q));
    assert(target@.subrange(0, q as int) =~= before_query(target@));
    percent_decode_fits(path.as_str())
}

// ------------------------------------------------------------------ responses

/// The content type served for a file extension.
pub open spec fn content_type_spec(ext: Seq<char>) -> Seq<char> {
    if ext == "html"@ {
        "text/html; charset=utf-8"@
    } else if ext == "css"@ {
        "text/css; charset=utf-8"@
    } else if ext == "js"@ {
        "text/javascript; charset=utf-8"@
    } else if ext == "json"@ {
        "application/json"@
    } else if ext == "md"@ || ext == "txt"@ {
        "text/plain; charset=utf-8"@
    } else if ext == "png"@ {
        "image/png"@
    } else if ext == "jpg"@ || ext == "jpeg"@ {
        "image/jpeg"@
    } else if ext == "svg"@ {
        "image/svg+xml"@
    } else if ext == "ico"@ {
        "image/x-icon"@
    } else if ext == "ttf"@ {
        "font/ttf"@
    } else if ext == "woff2"@ {
        "font/woff2"@
    } else {
        "application/octet-stream"@
    }
}

/// The content type served for a file extension (empty for none).
pub fn content_type(ext: &str) -> (r: &'static str)
    ensures
        r@ == content_type_spec(ext@),
{
    if eq_str(ext, "html") {
        "text/html; charset=utf-8"
    } else if eq_str(ext, "css") {
        "text/css; charset=utf-8"
    } else if eq_str(ext, "js") {
        "text/javascript; charset=utf-8"
    } else if eq_str(ext, "json") {
        "application/json"
    } else if eq_str(ext, "md") || eq_str(ext, "txt") {
        "text/plain; charset=utf-8"
    } else if eq_str(ext, "png") {
        "image/png"
    } else if eq_str(ext, "jpg") || eq_str(ext, "jpeg") {
        "image/jpeg"
    } else if eq_str(ext, "svg") {
        "image/svg+xml"
    } else if eq_str(ext, "ico") {
        "image/x-icon"
    } else if eq_str(ext, "ttf") {
        "font/ttf"
    } else if eq_str(ext, "woff2") {
        "font/woff2"
    } else {
        "application/octet-stream"
    }
}

/// Caching of a served file: fonts for a day, everything else never (the
/// dashboard must show a new build at once).
pub open spec fn cache_control_spec(ext: Seq<char>) -> Seq<char> {
    if ext == "ttf"@ || ext == "woff2"@ {
        "public, max-age=86400"@
    } else {
        "no-store"@
    }
}

/// Caching of a served file by extension.
pub fn cache_control(ext: &str) -> (r: &'static str)
    ensures
        r@ == cache_control_spec(ext@),
{
    if eq_str(ext, "ttf") || eq_str(ext, "woff2") {
        "public, max-age=86400"
    } else {
        "no-store"
    }
}

/// The head of a successful response.
pub open spec fn ok_head_spec(ext: Seq<char>, len: nat) -> Seq<char> {
    "HTTP/1.1 200 OK\r\nContent-Type: "@ + content_type_spec(ext) + "\r\nContent-Length: "@ + decimal(
        len,
    ) + "\r\nCache-Control: "@ + cache_control_spec(ext) + "\r\n\r\n"@
}

/// The head of a successful response for a file with extension `ext` and
/// `len` bytes.
pub fn ok_head(ext: &str, len: usize) -> (r: String)
    ensures
        r@ == ok_head_spec(ext@, len as nat),
{
    let mut r = String::from_str("HTTP/1.1 200 OK\r\nContent-Type: ");
    append_str(&mut r, content_type(ext));
    append_str(&mut r, "\r\nContent-Length: ");
    append_str(&mut r, fmt_usize(len).as_str());
    append_str(&mut r, "\r\nCache-Control: ");
    append_str(&mut r, cache_control(ext));
    append_str(&mut r, "\r\n\r\n");
    r
}

/// The response to a request for a file that is not there (or outside
/// `dist/`).
pub fn not_found() -> (r: &'static str)
    ensures
        r@ == "HTTP/1.1 404 NOT FOUND\r\nContent-Type: text/html; charset=utf-8\r\n\r\n<h1>404</h1>"@,
{
    "HTTP/1.1 404 NOT FOUND\r\nContent-Type: text/html; charset=utf-8\r\n\r\n<h1>404</h1>"
}

/// The response when a file cannot be read.
pub fn read_failed() -> (r: &'static str)
    ensures
        r@ == "HTTP/1.1 500 ERR\r\n\r\n"@,
{
    "HTTP/1.1 500 ERR\r\n\r\n"
}

} // verus!

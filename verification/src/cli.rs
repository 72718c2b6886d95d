//! The command line: positional arguments, the flags with values, the port
//! and bind address of `serve`, the body and tags of `new`, and which vault
//! a command works on.
use vstd::prelude::*;
use crate::frontmatter::{split_tags_flow, split_tags_flow_spec};
use crate::text::{chars_of, eq_str, is_ascii_digit, slice_of, starts_with, starts_with_chars, string_of};

verus! {

// ------------------------------------------------------------------ positionals

/// The flags that take the next argument as their value.
pub open spec fn takes_value(a: Seq<char>) -> bool {
    ||| a == "--vault"@
    ||| a == "-v"@
    ||| a == "--port"@
    ||| a == "-p"@
    ||| a == "-b"@
    ||| a == "--body"@
    ||| a == "--tags"@
}

fn is_value_flag(a: &str) -> (b: bool)
    ensures
        b == takes_value(a@),
{
    eq_str(a, "--vault") || eq_str(a, "-v") || eq_str(a, "--port") || eq_str(a, "-p") || eq_str(a, "-b")
        || eq_str(a, "--body") || eq_str(a, "--tags")
}

/// Scanning the arguments: the positionals so far, and whether the next
/// argument is a flag's value.
pub open spec fn pos_scan(args: Seq<Seq<char>>) -> (Seq<Seq<char>>, bool)
    decreases args.len(),
{
    if args.len() == 0 {
        (Seq::empty(), false)
    } else {
        let (out, skip) = pos_scan(args.drop_last());
        let a = args.last();
        if skip {
            (out, false)
        } else if takes_value(a) {
            (out, true)
        } else if a.len() > 1 && a[0] == '-' {
            (out, false)
        } else {
            (out.push(a), false)
        }
    }
}

/// The positional arguments: everything but the flags (`-x`, `--x`,
/// `--x=value`; a lone `-` counts as positional) and the values of the
/// flags that take one.
pub open spec fn positionals_spec(args: Seq<Seq<char>>) -> Seq<Seq<char>> {
    pos_scan(args).0
}

/// The positional arguments (see `positionals_spec`).
pub fn positionals(args: &[String]) -> (r: Vec<String>)
    ensures
        r.deep_view() == positionals_spec(args.deep_view()),
{
    let ghost av = args.deep_view();
    let mut out: Vec<String> = Vec::new();
    let mut skip_next = false;
    let mut i: usize = 0;
    assert(av.take(0) =~= Seq::<Seq<char>>::empty());
    assert(out.deep_view() =~= Seq::<Seq<char>>::empty());
    while i < args.len()
        invariant
            av == args.deep_view(),
            i <= av.len(),
            pos_scan(av.take(i as int)) == (out.deep_view(), skip_next),
        decreases av.len() - i,
    {
        proof {
            assert(av.take(i + 1).drop_last() =~= av.take(i as int));
            assert(av.take(i + 1).last() == args@[i as int]@);
        }
        let a = args[i].as_str();
        if skip_next {
            skip_next = false;
        } else if is_value_flag(a) {
            skip_next = true;
        } else {
            let v = chars_of(a);
            if v.len() > 1 && v[0] == '-' {
            } else {
                let ghost before = out.deep_view();
                out.push(args[i].clone());
                assert(out.deep_view() =~= before.push(a@));
            }
        }
        i += 1;
    }
    assert(av.take(av.len() as int) =~= av);
    out
}

/// The first positional argument, if any (a path for `check`, `done`,
/// `reopen` and `archive`).
pub fn positional_path(args: &[String]) -> (r: Option<String>)
    ensures
        match r {
            Some(p) => positionals_spec(args.deep_view()).len() > 0 && p@ == positionals_spec(
                args.deep_view(),
            )[0],
            None => positionals_spec(args.deep_view()).len() == 0,
        },
{
    let ps = positionals(args);
    if ps.len() > 0 {
        assert(ps.deep_view()[0] == ps@[0]@);
        Some(ps[0].clone())
    } else {
        None
    }
}

/// Words joined by single spaces (the title of `new`, the query of
/// `search`).
pub fn join_words(words: &[String]) -> (r: String)
    ensures
        r@ == crate::text::join(words.deep_view(), " "@),
{
    crate::text::join_strs(words, " ")
}

// ------------------------------------------------------------------ flags with values

/// The text after `p` when `a` starts with it.
pub open spec fn after_prefix(a: Seq<char>, p: Seq<char>) -> Option<Seq<char>> {
    if starts_with(a, p) {
        Some(a.skip(p.len() as int))
    } else {
        None
    }
}

fn strip_prefix_of(a: &str, p: &str) -> (r: Option<String>)
    ensures
        match (r, after_prefix(a@, p@)) {
            (Some(x), Some(y)) => x@ == y,
            (None, None) => true,
            _ => false,
        },
{
    let v = chars_of(a);
    let pv = chars_of(p);
    if starts_with_chars(&v, &pv) {
        Some(string_of(&slice_of(&v, pv.len(), v.len())))
    } else {
        None
    }
}

/// The vault given on the command line, from the argument `i` on:
/// `--vault=PATH`, or `--vault PATH` / `-v PATH`.
pub open spec fn vault_from(args: Seq<Seq<char>>, i: int) -> Option<Seq<char>>
    decreases args.len() - i,
{
    if i < 0 || i >= args.len() {
        None
    } else if after_prefix(args[i], "--vault="@) is Some {
        after_prefix(args[i], "--vault="@)
    } else if (args[i] == "--vault"@ || args[i] == "-v"@) && i + 1 < args.len() {
        Some(args[i + 1])
    } else {
        vault_from(args, i + 1)
    }
}

/// The vault given on the command line, if any.
pub fn explicit_vault(args: &[String]) -> (r: Option<String>)
    ensures
        match (r, vault_from(args.deep_view(), 0)) {
            (Some(x), Some(y)) => x@ == y,
            (None, None) => true,
            _ => false,
        },
{
    let ghost av = args.deep_view();
    let mut i: usize = 0;
    while i < args.len()
        invariant
            av == args.deep_view(),
            i <= av.len(),
            vault_from(av, i as int) == vault_from(av, 0),
        decreases av.len() - i,
    {
        assert(av[i as int] == args@[i as int]@);
        let a = args[i].as_str();
        match strip_prefix_of(a, "--vault=") {
            Some(v) => {
                return Some(v);
            },
            None => {},
        }
        if (eq_str(a, "--vault") || eq_str(a, "-v")) && i + 1 < args.len() {
            assert(av[i + 1] == args@[i + 1]@);
            return Some(args[i + 1].clone());
        }
        i += 1;
    }
    None
}

/// The bind address given to `serve`, from the argument `i` on:
/// `--bind=IP` or `--bind IP`, empty values skipped.
pub open spec fn bind_from(args: Seq<Seq<char>>, i: int) -> Option<Seq<char>>
    decreases args.len() - i,
{
    if i < 0 || i >= args.len() {
        None
    } else if after_prefix(args[i], "--bind="@) is Some && after_prefix(args[i], "--bind="@)->0.len()
        > 0 {
        after_prefix(args[i], "--bind="@)
    } else if args[i] == "--bind"@ && i + 1 < args.len() && args[i + 1].len() > 0 {
        Some(args[i + 1])
    } else {
        bind_from(args, i + 1)
    }
}

/// The address `serve` binds to; `0.0.0.0` unless given.
pub fn extract_bind(args: &[String]) -> (r: String)
    ensures
        r@ == match bind_from(args.deep_view(), 0) {
            Some(b) => b,
            None => "0.0.0.0"@,
        },
{
    let ghost av = args.deep_view();
    let mut i: usize = 0;
    while i < args.len()
        invariant
            av == args.deep_view(),
            i <= av.len(),
            bind_from(av, i as int) == bind_from(av, 0),
        decreases av.len() - i,
    {
        assert(av[i as int] == args@[i as int]@);
        let a = args[i].as_str();
        match strip_prefix_of(a, "--bind=") {
            Some(v) => {
                if !v.as_str().is_empty() {
                    return v;
                }
            },
            None => {},
        }
        if eq_str(a, "--bind") && i + 1 < args.len() {
            assert(av[i + 1] == args@[i + 1]@);
            if !args[i + 1].as_str().is_empty() {
                return args[i + 1].clone();
            }
        }
        i += 1;
    }
    String::from_str("0.0.0.0")
}

// ------------------------------------------------------------------ port

/// The value of a string of decimal digits.
pub open spec fn digits_value(s: Seq<char>) -> nat
    decreases s.len(),
{
    if s.len() == 0 {
        0
    } else {
        digits_value(s.drop_last()) * 10 + (s.last() as nat - '0' as nat) as nat
    }
}

/// The digits of a number: after the optional leading `+`.
pub open spec fn unsigned_digits(s: Seq<char>) -> Seq<char> {
    if s.len() > 0 && s[0] == '+' {
        s.skip(1)
    } else {
        s
    }
}

pub open spec fn all_digits(d: Seq<char>) -> bool {
    forall|i: int| 0 <= i < d.len() ==> is_ascii_digit(#[trigger] d[i])
}

/// What `str::parse::<u16>` accepts: an optional `+`, then one or more
/// ASCII digits whose value fits in 16 bits.
pub open spec fn parse_u16_spec(s: Seq<char>) -> Option<u16> {
    let d = unsigned_digits(s);
    if d.len() > 0 && all_digits(d) && digits_value(d) <= 65535 {
        Some(digits_value(d) as u16)
    } else {
        None
    }
}

proof fn lemma_digits_value_mono(s: Seq<char>, k: int)
    requires
        0 <= k <= s.len(),
        forall|i: int| 0 <= i < s.len() ==> is_ascii_digit(#[trigger] s[i]),
    ensures
        digits_value(s.take(k)) <= digits_value(s),
    decreases s.len() - k,
{
    if k < s.len() {
        lemma_digits_value_mono(s, k + 1);
        assert(s.take(k + 1).drop_last() =~= s.take(k));
    } else {
        assert(s.take(k) =~= s);
    }
}

/// A 16-bit unsigned number (see `parse_u16_spec`).
pub fn parse_u16(s: &str) -> (r: Option<u16>)
    ensures
        r == parse_u16_spec(s@),
{
    let v = chars_of(s);
    let start: usize = if v.len() > 0 && v[0] == '+' {
        1
    } else {
        0
    };
    let ghost d = unsigned_digits(s@);
    assert(d =~= v@.skip(start as int));
    if start >= v.len() {
        return None;
    }
    let mut acc: u32 = 0;
    let mut i: usize = start;
    assert(d.take(0) =~= Seq::<char>::empty());
    while i < v.len()
        invariant
            start <= i <= v@.len(),
            v@ == s@,
            d == unsigned_digits(s@),
            start == (if s@.len() > 0 && s@[0] == '+' {
                1usize
            } else {
                0usize
            }),
            d == v@.skip(start as int),
            acc as nat == digits_value(d.take(i - start)),
            acc <= 65535,
            forall|j: int| 0 <= j < i - start ==> is_ascii_digit(#[trigger] d[j]),
        decreases v@.len() - i,
    {
        let c = v[i];
        if !('0' <= c && c <= '9') {
            proof {
                assert(d[i - start] == c);
                assert(!is_ascii_digit(d[i - start]));
                assert(!all_digits(d));
            }
            return None;
        }
        proof {
            assert(d[i - start] == c);
            assert(d.take(i - start + 1).drop_last() =~= d.take(i - start));
            assert(d.take(i - start + 1).last() == c);
        }
        let next: u32 = acc * 10 + ((c as u32) - 48);
        if next > 65535 {
            proof {
                if all_digits(d) {
                    lemma_digits_value_mono(d, i - start + 1);
                }
            }
            return None;
        }
        acc = next;
        i += 1;
    }
    proof {
        assert(d.take(d.len() as int) =~= d);
    }
    Some(acc as u16)
}

/// The port given to `serve`: the argument after the first `--port` or
/// `-p`, when it reads as a 16-bit number; 8181 otherwise.
pub open spec fn port_spec(args: Seq<Seq<char>>) -> u16 {
    if exists|i: int| 0 <= i < args.len() && (args[i] == "--port"@ || args[i] == "-p"@) {
        let i = choose|i: int|
            0 <= i < args.len() && (args[i] == "--port"@ || args[i] == "-p"@) && forall|j: int|
                0 <= j < i ==> !(args[j] == "--port"@ || args[j] == "-p"@);
        if i + 1 < args.len() && parse_u16_spec(args[i + 1]) is Some {
            parse_u16_spec(args[i + 1])->0
        } else {
            8181
        }
    } else {
        8181
    }
}

/// The port `serve` listens on (see `port_spec`).
pub fn extract_port(args: &[String]) -> (r: u16)
    ensures
        r == port_spec(args.deep_view()),
{
    let ghost av = args.deep_view();
    let mut i: usize = 0;
    while i < args.len()
        invariant
            av == args.deep_view(),
            i <= av.len(),
            forall|j: int| 0 <= j < i ==> !(av[j] == "--port"@ || av[j] == "-p"@),
        decreases av.len() - i,
    {
        assert(av[i as int] == args@[i as int]@);
        if eq_str(args[i].as_str(), "--port") || eq_str(args[i].as_str(), "-p") {
            let ghost k = choose|k: int|
                0 <= k < av.len() && (av[k] == "--port"@ || av[k] == "-p"@) && forall|j: int|
                    0 <= j < k ==> !(av[j] == "--port"@ || av[j] == "-p"@);
            proof {
                assert(0 <= i < av.len() && (av[i as int] == "--port"@ || av[i as int] == "-p"@));
                assert(k == i) by {
                    if k < i {
                    } else if k > i {
                    }
                }
            }
            if i + 1 < args.len() {
                assert(av[i + 1] == args@[i + 1]@);
                match parse_u16(args[i + 1].as_str()) {
                    Some(n) => {
                        return n;
                    },
                    None => {
                        return 8181;
                    },
                }
            }
            return 8181;
        }
        i += 1;
    }
    8181
}

// ------------------------------------------------------------------ new: tags and body

/// The tags given to `new`, from the argument `i` on: `--tags=a,b` or
/// `--tags a,b`, split as a flow list; none when `--tags` is last.
pub open spec fn tags_from(args: Seq<Seq<char>>, i: int) -> Seq<Seq<char>>
    decreases args.len() - i,
{
    if i < 0 || i >= args.len() {
        Seq::empty()
    } else if after_prefix(args[i], "--tags="@) is Some {
        split_tags_flow_spec(after_prefix(args[i], "--tags="@)->0)
    } else if args[i] == "--tags"@ {
        if i + 1 < args.len() {
            split_tags_flow_spec(args[i + 1])
        } else {
            Seq::empty()
        }
    } else {
        tags_from(args, i + 1)
    }
}

/// The tags given to `new` (see `tags_from`).
pub fn extract_tags(args: &[String]) -> (r: Vec<String>)
    ensures
        r.deep_view() == tags_from(args.deep_view(), 0),
{
    let ghost av = args.deep_view();
    let mut i: usize = 0;
    while i < args.len()
        invariant
            av == args.deep_view(),
            i <= av.len(),
            tags_from(av, i as int) == tags_from(av, 0),
        decreases av.len() - i,
    {
        assert(av[i as int] == args@[i as int]@);
        let a = args[i].as_str();
        match strip_prefix_of(a, "--tags=") {
            Some(v) => {
                return split_tags_flow(v.as_str());
            },
            None => {},
        }
        if eq_str(a, "--tags") {
            if i + 1 < args.len() {
                assert(av[i + 1] == args@[i + 1]@);
                return split_tags_flow(args[i + 1].as_str());
            }
            let r: Vec<String> = Vec::new();
            assert(r.deep_view() =~= Seq::<Seq<char>>::empty());
            return r;
        }
        i += 1;
    }
    let r: Vec<String> = Vec::new();
    assert(r.deep_view() =~= Seq::<Seq<char>>::empty());
    r
}

/// The body given to `new` on the command line, from the argument `i` on:
/// `--body=TEXT`, `-b=TEXT`, or `--body TEXT` / `-b TEXT` (empty when the
/// flag is last); nothing when no such argument is given.
pub open spec fn body_from(args: Seq<Seq<char>>, i: int) -> Option<Seq<char>>
    decreases args.len() - i,
{
    if i < 0 || i >= args.len() {
        None
    } else if after_prefix(args[i], "--body="@) is Some {
        after_prefix(args[i], "--body="@)
    } else if after_prefix(args[i], "-b="@) is Some {
        after_prefix(args[i], "-b="@)
    } else if args[i] == "--body"@ || args[i] == "-b"@ {
        if i + 1 < args.len() {
            Some(args[i + 1])
        } else {
            Some(Seq::empty())
        }
    } else {
        body_from(args, i + 1)
    }
}

/// The body given on the command line, if one is (see `body_from`);
/// otherwise `new` reads its body from a piped standard input.
pub fn body_arg(args: &[String]) -> (r: Option<String>)
    ensures
        match (r, body_from(args.deep_view(), 0)) {
            (Some(x), Some(y)) => x@ == y,
            (None, None) => true,
            _ => false,
        },
{
    let ghost av = args.deep_view();
    let mut i: usize = 0;
    while i < args.len()
        invariant
            av == args.deep_view(),
            i <= av.len(),
            body_from(av, i as int) == body_from(av, 0),
        decreases av.len() - i,
    {
        assert(av[i as int] == args@[i as int]@);
        let a = args[i].as_str();
        match strip_prefix_of(a, "--body=") {
            Some(v) => {
                return Some(v);
            },
            None => {},
        }
        match strip_prefix_of(a, "-b=") {
            Some(v) => {
                return Some(v);
            },
            None => {},
        }
        if eq_str(a, "--body") || eq_str(a, "-b") {
            if i + 1 < args.len() {
                assert(av[i + 1] == args@[i + 1]@);
                return Some(args[i + 1].clone());
            }
            return Some(String::new());
        }
        i += 1;
    }
    None
}

/// Trailing line endings (`\n` and `\r`) removed.
pub open spec fn trim_newlines(s: Seq<char>) -> Seq<char>
    decreases s.len(),
{
    if s.len() > 0 && (s.last() == '\n' || s.last() == '\r') {
        trim_newlines(s.drop_last())
    } else {
        s
    }
}

/// A body read from standard input, without its trailing line endings.
pub fn trim_body(s: &str) -> (r: String)
    ensures
        r@ == trim_newlines(s@),
{
    let v = chars_of(s);
    let mut n = v.len();
    assert(v@.take(v@.len() as int) =~= v@);
    while n > 0 && (v[n - 1] == '\n' || v[n - 1] == '\r')
        invariant
            n <= v@.len(),
            trim_newlines(v@.take(n as int)) == trim_newlines(s@),
            v@ == s@,
        decreases n,
    {
        assert(v@.take(n as int).drop_last() =~= v@.take(n - 1));
        n -= 1;
    }
    assert(v@.take(v@.len() as int) =~= v@);
    assert(v@.subrange(0, n as int) =~= v@.take(n as int));
    string_of(&slice_of(&v, 0, n))
}

// ------------------------------------------------------------------ which vault

/// A value from the environment counts only when it is not empty.
pub open spec fn nonempty(o: Option<Seq<char>>) -> Option<Seq<char>> {
    match o {
        Some(s) => if s.len() > 0 {
            Some(s)
        } else {
            None
        },
        None => None,
    }
}

pub open spec fn opt_or(a: Option<Seq<char>>, b: Seq<char>) -> Seq<char> {
    match a {
        Some(x) => x,
        None => b,
    }
}

/// The vault a command works on: `--vault PATH` first, then `$MIND_VAULT`
/// (when not empty), then the config file's `vault`, then `~/mind`.
pub open spec fn vault_choice(
    explicit: Option<Seq<char>>,
    env: Option<Seq<char>>,
    config: Option<Seq<char>>,
    default: Seq<char>,
) -> Seq<char> {
    match explicit {
        Some(v) => v,
        None => match nonempty(env) {
            Some(v) => v,
            None => opt_or(config, default),
        },
    }
}

pub open spec fn opt_str_view(o: Option<String>) -> Option<Seq<char>> {
    match o {
        Some(s) => Some(s@),
        None => None,
    }
}

/// The vault a command works on (see `vault_choice`); `config` and
/// `default` are only used when the ones before them give nothing.
pub fn pick_vault(
    explicit: Option<String>,
    env: Option<String>,
    config: Option<String>,
    default: String,
) -> (r: String)
    ensures
        r@ == vault_choice(opt_str_view(explicit), opt_str_view(env), opt_str_view(config), default@),
{
    match explicit {
        Some(v) => v,
        None => {
            match env {
                Some(v) => {
                    if !v.as_str().is_empty() {
                        return v;
                    }
                },
                None => {},
            }
            match config {
                Some(c) => c,
                None => default,
            }
        },
    }
}

/// A path joined under `base` (`Path::join` with a relative `rel`).
pub open spec fn join_path(base: Seq<char>, rel: Seq<char>) -> Seq<char> {
    if base.len() == 0 {
        rel
    } else if base.last() == '/' {
        base + rel
    } else {
        base + "/"@ + rel
    }
}

/// The default vault: `mind` in the home directory.
pub fn default_vault(home: &str) -> (r: String)
    ensures
        r@ == join_path(home@, "mind"@),
{
    let v = chars_of(home);
    if v.len() == 0 {
        String::from_str("mind")
    } else if v[v.len() - 1] == '/' {
        let mut r = home.to_owned();
        r.append("mind");
        r
    } else {
        let mut r = home.to_owned();
        r.append("/");
        r.append("mind");
        r
    }
}

} // verus!

//! The wire formats: the one-object JSON envelope a forwarded command
//! travels in, and the JSON lock record file.
//!
//! Both formats are small fixed-shape JSON objects; the grammar is defined
//! here as specification functions, the encoders and decoders are proved
//! against it, and decoding an encoded value gives the value back.

use vstd::prelude::*;

verus! {

broadcast use vstd::utf8::char_u32_cast;

// ---------------------------------------------------------------------------
// Character classes.
// ---------------------------------------------------------------------------

/// JSON insignificant whitespace.
pub open spec fn is_ws(c: char) -> bool {
    c == ' ' || c == '\n' || c == '\r' || c == '\t'
}

pub open spec fn is_digit(c: char) -> bool {
    '0' <= c && c <= '9'
}

pub open spec fn is_hex(c: char) -> bool {
    is_digit(c) || ('a' <= c && c <= 'f') || ('A' <= c && c <= 'F')
}

/// Value of one hexadecimal digit.
pub open spec fn hex_val(c: char) -> u32 {
    if is_digit(c) {
        (c as u32 - '0' as u32) as u32
    } else if 'a' <= c && c <= 'f' {
        (c as u32 - 'a' as u32 + 10) as u32
    } else {
        (c as u32 - 'A' as u32 + 10) as u32
    }
}

/// Four hexadecimal digits stand at `i`.
pub open spec fn hex4_ok(s: Seq<char>, i: int) -> bool {
    &&& i + 4 <= s.len()
    &&& is_hex(s[i])
    &&& is_hex(s[i + 1])
    &&& is_hex(s[i + 2])
    &&& is_hex(s[i + 3])
}

/// The value of the four hexadecimal digits at `i`.
pub open spec fn hex4(s: Seq<char>, i: int) -> u32
    recommends
        hex4_ok(s, i),
{
    (hex_val(s[i]) * 0x1000 + hex_val(s[i + 1]) * 0x100 + hex_val(s[i + 2]) * 0x10 + hex_val(
        s[i + 3],
    )) as u32
}

// ---------------------------------------------------------------------------
// Trusted bridges to std.
// ---------------------------------------------------------------------------

/// Relies on `String: FromIterator<char>`: collecting chars builds the
/// string of exactly those chars.
#[verifier::external_body]
fn chars_to_string(v: &Vec<char>) -> (r: String)
    ensures
        r@ == v@,
{
    v.iter().collect()
}

/// Relies on `char::from_u32`: `Some` exactly on Unicode scalar values
/// (not a surrogate, below `0x110000`), yielding the char with that code.
#[verifier::external_body]
fn char_from_u32(v: u32) -> (r: Option<char>)
    ensures
        r is Some <==> (v < 0xD800 || (0xE000 <= v && v < 0x110000)),
        r matches Option::Some(c) ==> c as u32 == v,
{
    char::from_u32(v)
}

// ---------------------------------------------------------------------------
// Whitespace.
// ---------------------------------------------------------------------------

/// First index at or after `i` that does not hold whitespace.
pub open spec fn spec_skip_ws(s: Seq<char>, i: int) -> int
    decreases s.len() - i,
{
    if 0 <= i < s.len() && is_ws(s[i]) {
        spec_skip_ws(s, i + 1)
    } else {
        i
    }
}

fn ws_at(s: &str, j: usize) -> (r: bool)
    requires
        j < s@.len(),
    ensures
        r == is_ws(s@[j as int]),
{
    let c = s.get_char(j);
    c == ' ' || c == '\n' || c == '\r' || c == '\t'
}

fn skip_ws(s: &str, i: usize) -> (r: usize)
    requires
        i <= s@.len(),
    ensures
        r == spec_skip_ws(s@, i as int),
        i <= r <= s@.len(),
    decreases s@.len() - i,
{
    let len = s.unicode_len();
    let mut j = i;
    while j < len && ws_at(s, j)
        invariant
            i <= j <= s@.len(),
            len == s@.len(),
            spec_skip_ws(s@, i as int) == spec_skip_ws(s@, j as int),
        decreases len - j,
    {
        j = j + 1;
    }
    j
}

// ---------------------------------------------------------------------------
// JSON strings.
// ---------------------------------------------------------------------------

/// The chars of a string value read from `i` (just past the opening quote)
/// to its closing quote, escapes decoded, together with the index just past
/// the closing quote.  `None` when the input is not a well-formed string
/// remainder: unescaped control chars, bad escapes, lone surrogates, or a
/// missing closing quote.
pub open spec fn spec_parse_string_body(s: Seq<char>, i: int) -> Option<(Seq<char>, int)>
    decreases s.len() - i, 0int,
{
    if i < 0 || i >= s.len() {
        Option::None
    } else if s[i] == '"' {
        Option::Some((Seq::empty(), i + 1))
    } else if s[i] == '\\' {
        if i + 1 >= s.len() {
            Option::None
        } else {
            let e = s[i + 1];
            if e == '"' || e == '\\' || e == '/' {
                spec_parse_cons(s, e, i + 2)
            } else if e == 'b' {
                spec_parse_cons(s, '\u{8}', i + 2)
            } else if e == 'f' {
                spec_parse_cons(s, '\u{c}', i + 2)
            } else if e == 'n' {
                spec_parse_cons(s, '\n', i + 2)
            } else if e == 'r' {
                spec_parse_cons(s, '\r', i + 2)
            } else if e == 't' {
                spec_parse_cons(s, '\t', i + 2)
            } else if e == 'u' && hex4_ok(s, i + 2) {
                let h = hex4(s, i + 2);
                if h < 0xD800 || h >= 0xE000 {
                    spec_parse_cons(s, h as char, i + 6)
                } else if h < 0xDC00 && i + 12 <= s.len() && s[i + 6] == '\\' && s[i + 7] == 'u'
                    && hex4_ok(s, i + 8) {
                    let l = hex4(s, i + 8);
                    if 0xDC00 <= l && l < 0xE000 {
                        spec_parse_cons(
                            s,
                            (0x10000 + (h - 0xD800) * 0x400 + (l - 0xDC00)) as char,
                            i + 12,
                        )
                    } else {
                        Option::None
                    }
                } else {
                    Option::None
                }
            } else {
                Option::None
            }
        }
    } else if (s[i] as u32) < 0x20 {
        Option::None
    } else {
        spec_parse_cons(s, s[i], i + 1)
    }
}

/// One decoded char `c`, followed by the rest of the string from `i`.
pub open spec fn spec_parse_cons(s: Seq<char>, c: char, i: int) -> Option<(Seq<char>, int)>
    decreases s.len() - i, 1int,
{
    match spec_parse_string_body(s, i) {
        Option::None => Option::None,
        Option::Some((t, j)) => Option::Some((seq![c] + t, j)),
    }
}

/// Reads one hexadecimal digit.
fn hex_digit(c: char) -> (r: Option<u32>)
    ensures
        r is Some <==> is_hex(c),
        r matches Option::Some(v) ==> v == hex_val(c) && v < 16,
{
    let u = c as u32;
    if '0' as u32 <= u && u <= '9' as u32 {
        Option::Some(u - '0' as u32)
    } else if 'a' as u32 <= u && u <= 'f' as u32 {
        Option::Some(u - 'a' as u32 + 10)
    } else if 'A' as u32 <= u && u <= 'F' as u32 {
        Option::Some(u - 'A' as u32 + 10)
    } else {
        Option::None
    }
}

/// Reads the four hexadecimal digits at `i`.
fn read_hex4(s: &str, i: usize) -> (r: Option<u32>)
    requires
        i <= s@.len(),
    ensures
        r is Some <==> hex4_ok(s@, i as int),
        r matches Option::Some(v) ==> v == hex4(s@, i as int) && v <= 0xFFFF,
{
    let len = s.unicode_len();
    if len < 4 || i > len - 4 {
        return Option::None;
    }
    let d0 = hex_digit(s.get_char(i));
    let d1 = hex_digit(s.get_char(i + 1));
    let d2 = hex_digit(s.get_char(i + 2));
    let d3 = hex_digit(s.get_char(i + 3));
    match (d0, d1, d2, d3) {
        (Option::Some(a), Option::Some(b), Option::Some(c), Option::Some(d)) => Option::Some(
            a * 0x1000 + b * 0x100 + c * 0x10 + d,
        ),
        _ => Option::None,
    }
}

/// Decodes a string value from `i` (just past the opening quote).
#[verifier::rlimit(100)]
fn parse_string_body(s: &str, i: usize) -> (r: Option<(Vec<char>, usize)>)
    requires
        i <= s@.len(),
    ensures
        ({
            let sp = spec_parse_string_body(s@, i as int);
            match r {
                Option::Some((v, j)) => sp matches Option::Some(p) && p.0 == v@ && p.1 == j as int
                    && i < j <= s@.len(),
                Option::None => sp is None,
            }
        }),
    decreases s@.len() - i, 0int,
{
    let len = s.unicode_len();
    if i >= len {
        return Option::None;
    }
    let c = s.get_char(i);
    if c == '"' {
        let v: Vec<char> = Vec::new();
        proof {
            assert(v@ =~= Seq::<char>::empty());
        }
        return Option::Some((v, i + 1));
    }
    if c == '\\' {
        if i + 1 >= len {
            return Option::None;
        }
        let e = s.get_char(i + 1);
        if e == '"' || e == '\\' || e == '/' {
            return parse_cons(s, e, i + 2);
        }
        if e == 'b' {
            return parse_cons(s, '\u{8}', i + 2);
        }
        if e == 'f' {
            return parse_cons(s, '\u{c}', i + 2);
        }
        if e == 'n' {
            return parse_cons(s, '\n', i + 2);
        }
        if e == 'r' {
            return parse_cons(s, '\r', i + 2);
        }
        if e == 't' {
            return parse_cons(s, '\t', i + 2);
        }
        if e == 'u' {
            let h = match read_hex4(s, i + 2) {
                Option::Some(h) => h,
                Option::None => {
                    return Option::None;
                },
            };
            if h < 0xD800 || h >= 0xE000 {
                let hc = char_from_u32(h).unwrap();
                proof {
                    vstd::utf8::char_u32_cast(hc, h);
                }
                return parse_cons(s, hc, i + 6);
            }
            if h < 0xDC00 && len >= 12 && i <= len - 12 && s.get_char(i + 6) == '\\'
                && s.get_char(i + 7) == 'u' {
                let l = match read_hex4(s, i + 8) {
                    Option::Some(l) => l,
                    Option::None => {
                        return Option::None;
                    },
                };
                if 0xDC00 <= l && l < 0xE000 {
                    let v = 0x10000 + (h - 0xD800) * 0x400 + (l - 0xDC00);
                    let c2 = char_from_u32(v).unwrap();
                    proof {
                        vstd::utf8::char_u32_cast(c2, v);
                    }
                    return parse_cons(s, c2, i + 12);
                }
                return Option::None;
            }
            return Option::None;
        }
        return Option::None;
    }
    if (c as u32) < 0x20 {
        return Option::None;
    }
    parse_cons(s, c, i + 1)
}

/// One decoded char, then the rest of the string from `i`.
fn parse_cons(s: &str, c: char, i: usize) -> (r: Option<(Vec<char>, usize)>)
    requires
        i <= s@.len(),
    ensures
        ({
            let sp = spec_parse_cons(s@, c, i as int);
            match r {
                Option::Some((v, j)) => sp matches Option::Some(p) && p.0 == v@ && p.1 == j as int
                    && i < j + 1 && j <= s@.len(),
                Option::None => sp is None,
            }
        }),
    decreases s@.len() - i, 1int,
{
    match parse_string_body(s, i) {
        Option::None => Option::None,
        Option::Some((t, j)) => {
            let ghost t0 = t@;
            let mut t = t;
            t.insert(0, c);
            proof {
                assert(t@ =~= seq![c] + t0);
            }
            Option::Some((t, j))
        },
    }
}

/// Decodes a whole string value: the opening quote at `i`, the body, the
/// closing quote.
fn parse_string(s: &str, i: usize) -> (r: Option<(Vec<char>, usize)>)
    requires
        i <= s@.len(),
    ensures
        ({
            let sp = spec_parse_string(s@, i as int);
            match r {
                Option::Some((v, j)) => sp matches Option::Some(p) && p.0 == v@ && p.1 == j as int
                    && i < j <= s@.len(),
                Option::None => sp is None,
            }
        }),
{
    let len = s.unicode_len();
    if i < len && s.get_char(i) == '"' {
        parse_string_body(s, i + 1)
    } else {
        Option::None
    }
}

/// A string value starts at `i` with its opening quote.
pub open spec fn spec_parse_string(s: Seq<char>, i: int) -> Option<(Seq<char>, int)> {
    if 0 <= i < s.len() && s[i] == '"' {
        spec_parse_string_body(s, i + 1)
    } else {
        Option::None
    }
}

// ---------------------------------------------------------------------------
// JSON numbers (integers only: both wire formats carry only integers).
// ---------------------------------------------------------------------------

/// Folds the digits from `i` into `acc`, stopping at the first non-digit:
/// the folded value and the index just past the digits.
pub open spec fn spec_parse_digits(s: Seq<char>, i: int, acc: int) -> (int, int)
    decreases s.len() - i,
{
    if 0 <= i < s.len() && is_digit(s[i]) {
        spec_parse_digits(s, i + 1, acc * 10 + (s[i] as u32 - '0' as u32))
    } else {
        (acc, i)
    }
}

/// An integer (optional minus sign, one or more digits) starts at `i`: its
/// value and the index just past it.
pub open spec fn spec_parse_int(s: Seq<char>, i: int) -> Option<(int, int)> {
    if i < 0 || i >= s.len() {
        Option::None
    } else if s[i] == '-' {
        if i + 1 < s.len() && is_digit(s[i + 1]) {
            let (v, j) = spec_parse_digits(s, i + 1, 0);
            Option::Some((-v, j))
        } else {
            Option::None
        }
    } else if is_digit(s[i]) {
        Option::Some(spec_parse_digits(s, i, 0))
    } else {
        Option::None
    }
}

proof fn lemma_parse_digits_bounds(s: Seq<char>, i: int, acc: int)
    requires
        0 <= i <= s.len(),
        0 <= acc,
    ensures
        i <= spec_parse_digits(s, i, acc).1 <= s.len(),
        spec_parse_digits(s, i, acc).0 >= acc,
    decreases s.len() - i,
{
    if i < s.len() && is_digit(s[i]) {
        lemma_parse_digits_bounds(s, i + 1, acc * 10 + (s[i] as u32 - '0' as u32));
    }
}

/// Reads the digits at `i` into a magnitude, or `None` when they do not fit
/// in a `u64`.
fn parse_digits(s: &str, i: usize) -> (r: Option<(u64, usize)>)
    requires
        i <= s@.len(),
    ensures
        ({
            let (v, j) = spec_parse_digits(s@, i as int, 0);
            match r {
                Option::Some((m, k)) => m == v && k as int == j && i <= k <= s@.len(),
                Option::None => v > u64::MAX,
            }
        }),
{
    let len = s.unicode_len();
    let mut j = i;
    let mut acc: u64 = 0;
    while j < len && digit_at(s, j)
        invariant
            i <= j <= s@.len(),
            len == s@.len(),
            spec_parse_digits(s@, i as int, 0) == spec_parse_digits(s@, j as int, acc as int),
        decreases len - j,
    {
        let d = s.get_char(j) as u32 as u64 - '0' as u32 as u64;
        let next = match acc.checked_mul(10) {
            Option::Some(t) => t.checked_add(d),
            Option::None => Option::None,
        };
        match next {
            Option::Some(n) => {
                acc = n;
            },
            Option::None => {
                proof {
                    let stuck = acc as int * 10 + (s@[j as int] as u32 - '0' as u32);
                    assert(stuck > u64::MAX);
                    lemma_parse_digits_bounds(s@, j as int + 1, stuck);
                }
                return Option::None;
            },
        }
        j = j + 1;
    }
    Option::Some((acc, j))
}

fn digit_at(s: &str, j: usize) -> (r: bool)
    requires
        j < s@.len(),
    ensures
        r == is_digit(s@[j as int]),
{
    let c = s.get_char(j);
    '0' <= c && c <= '9'
}

/// Reads the integer at `i` as a sign and a magnitude, or `None` when no
/// integer stands there or its magnitude does not fit in a `u64`.
fn parse_int(s: &str, i: usize) -> (r: Option<(bool, u64, usize)>)
    requires
        i <= s@.len(),
    ensures
        ({
            match spec_parse_int(s@, i as int) {
                Option::None => r is None,
                Option::Some((v, j)) => match r {
                    Option::Some((neg, m, k)) => k as int == j && i <= k <= s@.len() && v == (
                    if neg {
                        -(m as int)
                    } else {
                        m as int
                    }),
                    Option::None => v > u64::MAX || v < -(u64::MAX as int),
                },
            }
        }),
{
    let len = s.unicode_len();
    if i >= len {
        return Option::None;
    }
    let c = s.get_char(i);
    if c == '-' {
        if i + 1 < len && digit_at(s, i + 1) {
            match parse_digits(s, i + 1) {
                Option::Some((m, k)) => Option::Some((true, m, k)),
                Option::None => Option::None,
            }
        } else {
            Option::None
        }
    } else if '0' <= c && c <= '9' {
        match parse_digits(s, i) {
            Option::Some((m, k)) => Option::Some((false, m, k)),
            Option::None => Option::None,
        }
    } else {
        Option::None
    }
}

// ---------------------------------------------------------------------------
// Arrays of strings.
// ---------------------------------------------------------------------------

/// A JSON array of string values starts at `i` with `[`.
pub open spec fn spec_parse_str_array(s: Seq<char>, i: int) -> Option<(Seq<Seq<char>>, int)> {
    if 0 <= i < s.len() && s[i] == '[' {
        let j = spec_skip_ws(s, i + 1);
        if j < s.len() && s[j] == ']' {
            Option::Some((Seq::empty(), j + 1))
        } else {
            spec_parse_str_items(s, j)
        }
    } else {
        Option::None
    }
}

/// One string item at `i`, then either `,` and more items or the closing
/// `]`.
#[verifier::opaque]
pub open spec fn spec_parse_str_items(s: Seq<char>, i: int) -> Option<(Seq<Seq<char>>, int)>
    decreases s.len() - i,
{
    match spec_parse_string(s, i) {
        Option::None => Option::None,
        Option::Some((v, j)) => {
            let k = spec_skip_ws(s, j);
            if k < s.len() && s[k] == ',' {
                let n = spec_skip_ws(s, k + 1);
                if i < n <= s.len() {
                    match spec_parse_str_items(s, n) {
                        Option::None => Option::None,
                        Option::Some((rest, m)) => Option::Some((seq![v] + rest, m)),
                    }
                } else {
                    Option::None
                }
            } else if k < s.len() && s[k] == ']' {
                Option::Some((seq![v], k + 1))
            } else {
                Option::None
            }
        },
    }
}

/// The views of a vector of decoded strings.
pub open spec fn strs_view(v: Seq<String>) -> Seq<Seq<char>> {
    v.map_values(|p: String| p@)
}

/// Decodes the array of strings at `i`.
fn parse_str_array(s: &str, i: usize) -> (r: Option<(Vec<String>, usize)>)
    requires
        i <= s@.len(),
    ensures
        ({
            match spec_parse_str_array(s@, i as int) {
                Option::None => r is None,
                Option::Some((v, j)) => r matches Option::Some(p) && strs_view(p.0@) == v && p.1
                    as int == j && i < p.1 <= s@.len(),
            }
        }),
{
    proof {
        reveal(spec_parse_str_items);
    }
    let len = s.unicode_len();
    if i < len && s.get_char(i) == '[' {
        let j = skip_ws(s, i + 1);
        if j < len && s.get_char(j) == ']' {
            let v: Vec<String> = Vec::new();
            proof {
                assert(strs_view(v@) =~= Seq::<Seq<char>>::empty());
            }
            Option::Some((v, j + 1))
        } else {
            parse_str_items(s, j)
        }
    } else {
        Option::None
    }
}

/// Decodes string items from `i` up to the closing `]`.
fn parse_str_items(s: &str, i: usize) -> (r: Option<(Vec<String>, usize)>)
    requires
        i <= s@.len(),
    ensures
        ({
            match spec_parse_str_items(s@, i as int) {
                Option::None => r is None,
                Option::Some((v, j)) => r matches Option::Some(p) && strs_view(p.0@) == v && p.1
                    as int == j && i < p.1 <= s@.len(),
            }
        }),
    decreases s@.len() - i,
{
    proof {
        reveal(spec_parse_str_items);
    }
    let len = s.unicode_len();
    let (chars, j) = match parse_string(s, i) {
        Option::None => {
            return Option::None;
        },
        Option::Some(p) => p,
    };
    let item = chars_to_string(&chars);
    let k = skip_ws(s, j);
    if k < len && s.get_char(k) == ',' {
        let n = skip_ws(s, k + 1);
        match parse_str_items(s, n) {
            Option::None => Option::None,
            Option::Some((rest, m)) => {
                let ghost rest0 = rest@;
                let mut rest = rest;
                rest.insert(0, item);
                proof {
                    assert(rest@ =~= seq![item] + rest0);
                    assert(strs_view(rest@) =~= seq![chars@]
                        + strs_view(rest0));
                }
                Option::Some((rest, m))
            },
        }
    } else if k < len && s.get_char(k) == ']' {
        let mut v: Vec<String> = Vec::new();
        v.push(item);
        proof {
            assert(strs_view(v@) =~= seq![chars@]);
        }
        Option::Some((v, k + 1))
    } else {
        Option::None
    }
}

// ---------------------------------------------------------------------------
// The command envelope: {"name": string, "link": string, "metadata":
// [string]}, members in any order, each exactly once, no others.
// ---------------------------------------------------------------------------

pub open spec fn name_key() -> Seq<char> {
    seq!['n', 'a', 'm', 'e']
}

pub open spec fn link_key() -> Seq<char> {
    seq!['l', 'i', 'n', 'k']
}

pub open spec fn metadata_key() -> Seq<char> {
    seq!['m', 'e', 't', 'a', 'd', 'a', 't', 'a']
}

/// The envelope fields collected so far.
pub struct ReqFields {
    pub name: Option<Seq<char>>,
    pub link: Option<Seq<char>>,
    pub metadata: Option<Seq<Seq<char>>>,
}

/// One `"key": value` member starts at `i`; a known key not yet seen takes
/// its value, anything else fails.
pub open spec fn spec_parse_req_members(s: Seq<char>, i: int, acc: ReqFields) -> Option<
    (ReqFields, int),
>
    decreases s.len() - i, 1int,
{
    match spec_parse_string(s, i) {
        Option::None => Option::None,
        Option::Some((key, j)) => {
            let k = spec_skip_ws(s, j);
            if !(k < s.len() && s[k] == ':') {
                Option::None
            } else {
                let v0 = spec_skip_ws(s, k + 1);
                if key == name_key() && acc.name is None {
                    match spec_parse_string(s, v0) {
                        Option::None => Option::None,
                        Option::Some((val, j2)) => if i < j2 <= s.len() {
                            spec_parse_req_more(
                                s,
                                j2,
                                ReqFields { name: Option::Some(val), ..acc },
                            )
                        } else {
                            Option::None
                        },
                    }
                } else if key == link_key() && acc.link is None {
                    match spec_parse_string(s, v0) {
                        Option::None => Option::None,
                        Option::Some((val, j2)) => if i < j2 <= s.len() {
                            spec_parse_req_more(
                                s,
                                j2,
                                ReqFields { link: Option::Some(val), ..acc },
                            )
                        } else {
                            Option::None
                        },
                    }
                } else if key == metadata_key() && acc.metadata is None {
                    match spec_parse_str_array(s, v0) {
                        Option::None => Option::None,
                        Option::Some((vals, j2)) => if i < j2 <= s.len() {
                            spec_parse_req_more(
                                s,
                                j2,
                                ReqFields { metadata: Option::Some(vals), ..acc },
                            )
                        } else {
                            Option::None
                        },
                    }
                } else {
                    Option::None
                }
            }
        },
    }
}

/// After a member's value at `i`: either `,` and another member, or the
/// closing `}`.
pub open spec fn spec_parse_req_more(s: Seq<char>, i: int, acc: ReqFields) -> Option<
    (ReqFields, int),
>
    decreases s.len() - i, 0int,
{
    let k = spec_skip_ws(s, i);
    if k < s.len() && s[k] == ',' {
        let n = spec_skip_ws(s, k + 1);
        if i < n <= s.len() {
            spec_parse_req_members(s, n, acc)
        } else {
            Option::None
        }
    } else if k < s.len() && s[k] == '}' {
        Option::Some((acc, k + 1))
    } else {
        Option::None
    }
}

/// The whole envelope: one object carrying exactly the three fields, and
/// nothing after it.  `None` on anything else: the command is dropped.
pub open spec fn spec_parse_request(s: Seq<char>) -> Option<
    (Seq<char>, Seq<char>, Seq<Seq<char>>),
> {
    let i = spec_skip_ws(s, 0);
    if !(i < s.len() && s[i] == '{') {
        Option::None
    } else {
        let j = spec_skip_ws(s, i + 1);
        match spec_parse_req_members(
            s,
            j,
            ReqFields { name: Option::None, link: Option::None, metadata: Option::None },
        ) {
            Option::None => Option::None,
            Option::Some((acc, k)) => {
                let e = spec_skip_ws(s, k);
                if e == s.len() {
                    match (acc.name, acc.link, acc.metadata) {
                        (
                            Option::Some(name),
                            Option::Some(link),
                            Option::Some(metadata),
                        ) => Option::Some((name, link, metadata)),
                        _ => Option::None,
                    }
                } else {
                    Option::None
                }
            },
        }
    }
}

pub open spec fn opt_str_view(o: Option<String>) -> Option<Seq<char>> {
    match o {
        Option::Some(x) => Option::Some(x@),
        Option::None => Option::None,
    }
}

pub open spec fn opt_strs_view(o: Option<Vec<String>>) -> Option<Seq<Seq<char>>> {
    match o {
        Option::Some(x) => Option::Some(strs_view(x@)),
        Option::None => Option::None,
    }
}

pub open spec fn req_fields_of(
    name: Option<String>,
    link: Option<String>,
    metadata: Option<Vec<String>>,
) -> ReqFields {
    ReqFields {
        name: opt_str_view(name),
        link: opt_str_view(link),
        metadata: opt_strs_view(metadata),
    }
}

fn key_is(v: &Vec<char>, name: bool, link: bool) -> (r: bool)
    requires
        !(name && link),
    ensures
        name ==> r == (v@ == name_key()),
        link ==> r == (v@ == link_key()),
        !name && !link ==> r == (v@ == metadata_key()),
{
    if name {
        let r = v.len() == 4 && v[0] == 'n' && v[1] == 'a' && v[2] == 'm' && v[3] == 'e';
        proof {
            if r {
                assert(v@ =~= name_key());
            }
        }
        r
    } else if link {
        let r = v.len() == 4 && v[0] == 'l' && v[1] == 'i' && v[2] == 'n' && v[3] == 'k';
        proof {
            if r {
                assert(v@ =~= link_key());
            }
        }
        r
    } else {
        let r = v.len() == 8 && v[0] == 'm' && v[1] == 'e' && v[2] == 't' && v[3] == 'a' && v[4]
            == 'd' && v[5] == 'a' && v[6] == 't' && v[7] == 'a';
        proof {
            if r {
                assert(v@ =~= metadata_key());
            }
        }
        r
    }
}

/// Decodes members of the envelope from `i`.
fn parse_req_members(
    s: &str,
    i: usize,
    name: Option<String>,
    link: Option<String>,
    metadata: Option<Vec<String>>,
) -> (r: Option<(Option<String>, Option<String>, Option<Vec<String>>, usize)>)
    requires
        i <= s@.len(),
    ensures
        ({
            match spec_parse_req_members(s@, i as int, req_fields_of(name, link, metadata)) {
                Option::None => r is None,
                Option::Some((acc, j)) => r matches Option::Some(p) && req_fields_of(
                    p.0,
                    p.1,
                    p.2,
                ) == acc && p.3 as int == j && p.3 <= s@.len(),
            }
        }),
    decreases s@.len() - i, 1int,
{
    let len = s.unicode_len();
    let (key, j) = match parse_string(s, i) {
        Option::None => {
            return Option::None;
        },
        Option::Some(p) => p,
    };
    let k = skip_ws(s, j);
    if !(k < len && s.get_char(k) == ':') {
        return Option::None;
    }
    let v0 = skip_ws(s, k + 1);
    if key_is(&key, true, false) && name.is_none() {
        match parse_string(s, v0) {
            Option::None => Option::None,
            Option::Some((val, j2)) => {
                let val = chars_to_string(&val);
                parse_req_more(s, j2, Option::Some(val), link, metadata)
            },
        }
    } else if key_is(&key, false, true) && link.is_none() {
        match parse_string(s, v0) {
            Option::None => Option::None,
            Option::Some((val, j2)) => {
                let val = chars_to_string(&val);
                parse_req_more(s, j2, name, Option::Some(val), metadata)
            },
        }
    } else if key_is(&key, false, false) && metadata.is_none() {
        match parse_str_array(s, v0) {
            Option::None => Option::None,
            Option::Some((vals, j2)) => parse_req_more(
                s,
                j2,
                name,
                link,
                Option::Some(vals),
            ),
        }
    } else {
        Option::None
    }
}

/// Decodes what follows a member's value from `i`.
fn parse_req_more(
    s: &str,
    i: usize,
    name: Option<String>,
    link: Option<String>,
    metadata: Option<Vec<String>>,
) -> (r: Option<(Option<String>, Option<String>, Option<Vec<String>>, usize)>)
    requires
        i <= s@.len(),
    ensures
        ({
            match spec_parse_req_more(s@, i as int, req_fields_of(name, link, metadata)) {
                Option::None => r is None,
                Option::Some((acc, j)) => r matches Option::Some(p) && req_fields_of(
                    p.0,
                    p.1,
                    p.2,
                ) == acc && p.3 as int == j && p.3 <= s@.len(),
            }
        }),
    decreases s@.len() - i, 0int,
{
    let len = s.unicode_len();
    let k = skip_ws(s, i);
    if k < len && s.get_char(k) == ',' {
        let n = skip_ws(s, k + 1);
        parse_req_members(s, n, name, link, metadata)
    } else if k < len && s.get_char(k) == '}' {
        Option::Some((name, link, metadata, k + 1))
    } else {
        Option::None
    }
}

/// The wire-level fields of a decoded command envelope; the raw link string
/// is classified by the receiver, which can probe the filesystem.
pub struct InsertPayload {
    pub name: String,
    pub link: String,
    pub metadata: Vec<String>,
}

/// Decodes one command envelope, exactly as the grammar says: `Some` on a
/// well-formed envelope carrying all three fields, `None` on everything
/// else (the command is then dropped silently).
pub fn decode_request(s: &str) -> (r: Option<InsertPayload>)
    ensures
        ({
            match spec_parse_request(s@) {
                Option::None => r is None,
                Option::Some((name, link, metadata)) => r matches Option::Some(p) && p.name@
                    == name && p.link@ == link && strs_view(p.metadata@) == metadata,
            }
        }),
{
    let len = s.unicode_len();
    let i = skip_ws(s, 0);
    if !(i < len && s.get_char(i) == '{') {
        return Option::None;
    }
    let j = skip_ws(s, i + 1);
    match parse_req_members(s, j, Option::None, Option::None, Option::None) {
        Option::None => Option::None,
        Option::Some((name, link, metadata, k)) => {
            let e = skip_ws(s, k);
            if e == len {
                match (name, link, metadata) {
                    (Option::Some(name), Option::Some(link), Option::Some(metadata)) => {
                        Option::Some(InsertPayload { name, link, metadata })
                    },
                    _ => Option::None,
                }
            } else {
                Option::None
            }
        },
    }
}

// ---------------------------------------------------------------------------
// The lock record: {"hostname": string, "listener_port": int} or
// {"time_locked": int}, distinguished by which fields are present.
// ---------------------------------------------------------------------------

pub open spec fn hostname_key() -> Seq<char> {
    seq!['h', 'o', 's', 't', 'n', 'a', 'm', 'e']
}

pub open spec fn listener_port_key() -> Seq<char> {
    seq!['l', 'i', 's', 't', 'e', 'n', 'e', 'r', '_', 'p', 'o', 'r', 't']
}

pub open spec fn time_locked_key() -> Seq<char> {
    seq!['t', 'i', 'm', 'e', '_', 'l', 'o', 'c', 'k', 'e', 'd']
}

/// The integer at `i` read as a port: values outside `u16` are rejected.
pub open spec fn spec_parse_port(s: Seq<char>, i: int) -> Option<(int, int)> {
    match spec_parse_int(s, i) {
        Option::Some((v, j)) => if 0 <= v <= 0xFFFF {
            Option::Some((v, j))
        } else {
            Option::None
        },
        Option::None => Option::None,
    }
}

/// The integer at `i` read as a timestamp: values outside `i64` are
/// rejected.
pub open spec fn spec_parse_time(s: Seq<char>, i: int) -> Option<(int, int)> {
    match spec_parse_int(s, i) {
        Option::Some((v, j)) => if -0x8000000000000000 <= v < 0x8000000000000000 {
            Option::Some((v, j))
        } else {
            Option::None
        },
        Option::None => Option::None,
    }
}

/// The lock fields collected so far; numbers out of their field's range are
/// rejected where they are read.
pub struct LockFields {
    pub hostname: Option<Seq<char>>,
    pub listener_port: Option<int>,
    pub time_locked: Option<int>,
}

pub open spec fn spec_parse_lock_members(s: Seq<char>, i: int, acc: LockFields) -> Option<
    (LockFields, int),
>
    decreases s.len() - i, 1int,
{
    match spec_parse_string(s, i) {
        Option::None => Option::None,
        Option::Some((key, j)) => {
            let k = spec_skip_ws(s, j);
            if !(k < s.len() && s[k] == ':') {
                Option::None
            } else {
                let v0 = spec_skip_ws(s, k + 1);
                if key == hostname_key() && acc.hostname is None {
                    match spec_parse_string(s, v0) {
                        Option::None => Option::None,
                        Option::Some((val, j2)) => if i < j2 <= s.len() {
                            spec_parse_lock_more(
                                s,
                                j2,
                                LockFields { hostname: Option::Some(val), ..acc },
                            )
                        } else {
                            Option::None
                        },
                    }
                } else if key == listener_port_key() && acc.listener_port is None {
                    match spec_parse_port(s, v0) {
                        Option::None => Option::None,
                        Option::Some((v, j2)) => if i < j2 <= s.len() {
                            spec_parse_lock_more(
                                s,
                                j2,
                                LockFields { listener_port: Option::Some(v), ..acc },
                            )
                        } else {
                            Option::None
                        },
                    }
                } else if key == time_locked_key() && acc.time_locked is None {
                    match spec_parse_time(s, v0) {
                        Option::None => Option::None,
                        Option::Some((v, j2)) => if i < j2 <= s.len() {
                            spec_parse_lock_more(
                                s,
                                j2,
                                LockFields { time_locked: Option::Some(v), ..acc },
                            )
                        } else {
                            Option::None
                        },
                    }
                } else {
                    Option::None
                }
            }
        },
    }
}

pub open spec fn spec_parse_lock_more(s: Seq<char>, i: int, acc: LockFields) -> Option<
    (LockFields, int),
>
    decreases s.len() - i, 0int,
{
    let k = spec_skip_ws(s, i);
    if k < s.len() && s[k] == ',' {
        let n = spec_skip_ws(s, k + 1);
        if i < n <= s.len() {
            spec_parse_lock_members(s, n, acc)
        } else {
            Option::None
        }
    } else if k < s.len() && s[k] == '}' {
        Option::Some((acc, k + 1))
    } else {
        Option::None
    }
}

/// The mathematical value of a decoded lock record.
pub enum LockRec {
    WithListener { hostname: Seq<char>, listener_port: int },
    WithoutListener { time_locked: int },
}

/// The whole lock record: one object whose fields are exactly
/// {hostname, listener_port} or exactly {time_locked}, nothing after it.
pub open spec fn spec_parse_lock(s: Seq<char>) -> Option<LockRec> {
    let i = spec_skip_ws(s, 0);
    if !(i < s.len() && s[i] == '{') {
        Option::None
    } else {
        let j = spec_skip_ws(s, i + 1);
        match spec_parse_lock_members(
            s,
            j,
            LockFields {
                hostname: Option::None,
                listener_port: Option::None,
                time_locked: Option::None,
            },
        ) {
            Option::None => Option::None,
            Option::Some((acc, k)) => {
                let e = spec_skip_ws(s, k);
                if e == s.len() {
                    match (acc.hostname, acc.listener_port, acc.time_locked) {
                        (Option::Some(h), Option::Some(p), Option::None) => Option::Some(
                            LockRec::WithListener { hostname: h, listener_port: p },
                        ),
                        (Option::None, Option::None, Option::Some(t)) => Option::Some(
                            LockRec::WithoutListener { time_locked: t },
                        ),
                        _ => Option::None,
                    }
                } else {
                    Option::None
                }
            },
        }
    }
}

pub open spec fn opt_port_view(o: Option<u16>) -> Option<int> {
    match o {
        Option::Some(x) => Option::Some(x as int),
        Option::None => Option::None,
    }
}

pub open spec fn opt_time_view(o: Option<i64>) -> Option<int> {
    match o {
        Option::Some(x) => Option::Some(x as int),
        Option::None => Option::None,
    }
}

pub open spec fn lock_fields_of(
    hostname: Option<String>,
    listener_port: Option<u16>,
    time_locked: Option<i64>,
) -> LockFields {
    LockFields {
        hostname: opt_str_view(hostname),
        listener_port: opt_port_view(listener_port),
        time_locked: opt_time_view(time_locked),
    }
}

fn lock_key_is(v: &Vec<char>, hostname: bool, port: bool) -> (r: bool)
    requires
        !(hostname && port),
    ensures
        hostname ==> r == (v@ == hostname_key()),
        port ==> r == (v@ == listener_port_key()),
        !hostname && !port ==> r == (v@ == time_locked_key()),
{
    if hostname {
        let r = v.len() == 8 && v[0] == 'h' && v[1] == 'o' && v[2] == 's' && v[3] == 't' && v[4]
            == 'n' && v[5] == 'a' && v[6] == 'm' && v[7] == 'e';
        proof {
            if r {
                assert(v@ =~= hostname_key());
            }
        }
        r
    } else if port {
        let r = v.len() == 13 && v[0] == 'l' && v[1] == 'i' && v[2] == 's' && v[3] == 't' && v[4]
            == 'e' && v[5] == 'n' && v[6] == 'e' && v[7] == 'r' && v[8] == '_' && v[9] == 'p'
            && v[10] == 'o' && v[11] == 'r' && v[12] == 't';
        proof {
            if r {
                assert(v@ =~= listener_port_key());
            }
        }
        r
    } else {
        let r = v.len() == 11 && v[0] == 't' && v[1] == 'i' && v[2] == 'm' && v[3] == 'e' && v[4]
            == '_' && v[5] == 'l' && v[6] == 'o' && v[7] == 'c' && v[8] == 'k' && v[9] == 'e'
            && v[10] == 'd';
        proof {
            if r {
                assert(v@ =~= time_locked_key());
            }
        }
        r
    }
}

/// Reads the integer at `i` as a port, rejecting values outside `u16`.
fn parse_port(s: &str, i: usize) -> (r: Option<(u16, usize)>)
    requires
        i <= s@.len(),
    ensures
        ({
            match spec_parse_port(s@, i as int) {
                Option::None => r is None,
                Option::Some((v, j)) => r matches Option::Some(p) && p.0 as int == v && p.1
                    as int == j && i <= p.1 <= s@.len(),
            }
        }),
{
    match parse_int(s, i) {
        Option::None => Option::None,
        Option::Some((neg, m, k)) => {
            if neg && m != 0 {
                Option::None
            } else if m > 0xFFFF {
                Option::None
            } else {
                Option::Some((m as u16, k))
            }
        },
    }
}

/// Reads the integer at `i` as a timestamp, rejecting values outside `i64`.
fn parse_time(s: &str, i: usize) -> (r: Option<(i64, usize)>)
    requires
        i <= s@.len(),
    ensures
        ({
            match spec_parse_time(s@, i as int) {
                Option::None => r is None,
                Option::Some((v, j)) => r matches Option::Some(p) && p.0 as int == v && p.1
                    as int == j && i <= p.1 <= s@.len(),
            }
        }),
{
    match parse_int(s, i) {
        Option::None => Option::None,
        Option::Some((neg, m, k)) => {
            if neg {
                if m <= 0x7FFFFFFFFFFFFFFF {
                    Option::Some((-(m as i64), k))
                } else if m == 0x8000000000000000 {
                    Option::Some((i64::MIN, k))
                } else {
                    Option::None
                }
            } else {
                if m <= 0x7FFFFFFFFFFFFFFF {
                    Option::Some((m as i64, k))
                } else {
                    Option::None
                }
            }
        },
    }
}

/// Decodes members of the lock record from `i`.
#[verifier::rlimit(100)]
fn parse_lock_members(
    s: &str,
    i: usize,
    hostname: Option<String>,
    listener_port: Option<u16>,
    time_locked: Option<i64>,
) -> (r: Option<(Option<String>, Option<u16>, Option<i64>, usize)>)
    requires
        i <= s@.len(),
    ensures
        ({
            match spec_parse_lock_members(
                s@,
                i as int,
                lock_fields_of(hostname, listener_port, time_locked),
            ) {
                Option::None => r is None,
                Option::Some((acc, j)) => r matches Option::Some(p) && lock_fields_of(
                    p.0,
                    p.1,
                    p.2,
                ) == acc && p.3 as int == j && p.3 <= s@.len(),
            }
        }),
    decreases s@.len() - i, 1int,
{
    let len = s.unicode_len();
    let (key, j) = match parse_string(s, i) {
        Option::None => {
            return Option::None;
        },
        Option::Some(p) => p,
    };
    let k = skip_ws(s, j);
    if !(k < len && s.get_char(k) == ':') {
        return Option::None;
    }
    let v0 = skip_ws(s, k + 1);
    if lock_key_is(&key, true, false) && hostname.is_none() {
        match parse_string(s, v0) {
            Option::None => Option::None,
            Option::Some((val, j2)) => {
                let val = chars_to_string(&val);
                parse_lock_more(s, j2, Option::Some(val), listener_port, time_locked)
            },
        }
    } else if lock_key_is(&key, false, true) && listener_port.is_none() {
        match parse_port(s, v0) {
            Option::None => Option::None,
            Option::Some((p, j2)) => parse_lock_more(
                s,
                j2,
                hostname,
                Option::Some(p),
                time_locked,
            ),
        }
    } else if lock_key_is(&key, false, false) && time_locked.is_none() {
        match parse_time(s, v0) {
            Option::None => Option::None,
            Option::Some((t, j2)) => parse_lock_more(
                s,
                j2,
                hostname,
                listener_port,
                Option::Some(t),
            ),
        }
    } else {
        Option::None
    }
}

/// Decodes what follows a lock member's value from `i`.
fn parse_lock_more(
    s: &str,
    i: usize,
    hostname: Option<String>,
    listener_port: Option<u16>,
    time_locked: Option<i64>,
) -> (r: Option<(Option<String>, Option<u16>, Option<i64>, usize)>)
    requires
        i <= s@.len(),
    ensures
        ({
            match spec_parse_lock_more(
                s@,
                i as int,
                lock_fields_of(hostname, listener_port, time_locked),
            ) {
                Option::None => r is None,
                Option::Some((acc, j)) => r matches Option::Some(p) && lock_fields_of(
                    p.0,
                    p.1,
                    p.2,
                ) == acc && p.3 as int == j && p.3 <= s@.len(),
            }
        }),
    decreases s@.len() - i, 0int,
{
    let len = s.unicode_len();
    let k = skip_ws(s, i);
    if k < len && s.get_char(k) == ',' {
        let n = skip_ws(s, k + 1);
        parse_lock_members(s, n, hostname, listener_port, time_locked)
    } else if k < len && s.get_char(k) == '}' {
        Option::Some((hostname, listener_port, time_locked, k + 1))
    } else {
        Option::None
    }
}

// ---------------------------------------------------------------------------
// Encoders.
// ---------------------------------------------------------------------------

/// One hexadecimal (or decimal) digit as a lowercase char.
pub open spec fn digit_char(d: int) -> char {
    if d < 10 {
        ('0' as u32 + d) as char
    } else {
        ('a' as u32 + (d - 10)) as char
    }
}

/// How one char is written inside a string value: quote and backslash are
/// escaped, control chars become `\u00XX`, everything else stands as it is.
pub open spec fn escape_char(c: char) -> Seq<char> {
    if c == '"' {
        seq!['\\', '"']
    } else if c == '\\' {
        seq!['\\', '\\']
    } else if (c as u32) < 0x20 {
        seq!['\\', 'u', '0', '0', digit_char((c as u32 / 16) as int), digit_char((c as u32 % 16) as int)]
    } else {
        seq![c]
    }
}

/// A string's chars written out one by one.
pub open spec fn escape_string(s: Seq<char>) -> Seq<char>
    decreases s.len(),
{
    if s.len() == 0 {
        Seq::empty()
    } else {
        escape_char(s[0]) + escape_string(s.drop_first())
    }
}

/// A whole string value: quotes around the escaped chars.
pub open spec fn quoted(s: Seq<char>) -> Seq<char> {
    seq!['"'] + escape_string(s) + seq!['"']
}

/// The decimal digits of a non-negative integer.
pub open spec fn dec_digits(n: int) -> Seq<char>
    recommends
        n >= 0,
    decreases n,
{
    if n < 10 {
        seq![digit_char(n)]
    } else {
        dec_digits(n / 10) + seq![digit_char(n % 10)]
    }
}

/// A decimal integer, with a sign when negative.
pub open spec fn dec_int(v: int) -> Seq<char> {
    if v < 0 {
        seq!['-'] + dec_digits(-v)
    } else {
        dec_digits(v)
    }
}

/// String values joined with commas, as they stand inside an array.
pub open spec fn joined_items(items: Seq<Seq<char>>) -> Seq<char>
    decreases items.len(),
{
    if items.len() == 0 {
        Seq::empty()
    } else if items.len() == 1 {
        quoted(items[0])
    } else {
        quoted(items[0]) + seq![','] + joined_items(items.drop_first())
    }
}

/// The encoded command envelope, fields in a fixed order, no whitespace.
pub open spec fn spec_encode_request(
    name: Seq<char>,
    link: Seq<char>,
    metadata: Seq<Seq<char>>,
) -> Seq<char> {
    seq!['{'] + quoted(name_key()) + seq![':'] + quoted(name) + seq![','] + quoted(link_key())
        + seq![':'] + quoted(link) + seq![','] + quoted(metadata_key()) + seq![':'] + seq!['[']
        + joined_items(metadata) + seq![']'] + seq!['}']
}

/// The encoded lock record of a live listener.
pub open spec fn spec_encode_lock_with(hostname: Seq<char>, listener_port: int) -> Seq<char> {
    seq!['{'] + quoted(hostname_key()) + seq![':'] + quoted(hostname) + seq![','] + quoted(
        listener_port_key(),
    ) + seq![':'] + dec_digits(listener_port) + seq!['}']
}

/// The encoded lock record of an instance without a listener.
pub open spec fn spec_encode_lock_without(time_locked: int) -> Seq<char> {
    seq!['{'] + quoted(time_locked_key()) + seq![':'] + dec_int(time_locked) + seq!['}']
}

/// One digit value as a char.
fn digit_char_exec(d: u8) -> (r: char)
    requires
        d < 16,
    ensures
        r == digit_char(d as int),
{
    if d < 10 {
        (48u8 + d) as char
    } else {
        (97u8 + (d - 10)) as char
    }
}

proof fn lemma_escape_snoc(t: Seq<char>, c: char)
    ensures
        escape_string(t.push(c)) == escape_string(t) + escape_char(c),
    decreases t.len(),
{
    if t.len() == 0 {
        assert(t.push(c)[0] == c);
        assert(t.push(c).drop_first() =~= Seq::<char>::empty());
        assert(escape_string(t.push(c)) == escape_char(c) + escape_string(
            Seq::<char>::empty(),
        ));
        assert(escape_char(c) + escape_string(Seq::<char>::empty()) =~= escape_char(c));
        assert(escape_string(t) + escape_char(c) =~= escape_char(c));
    } else {
        assert(t.push(c).drop_first() =~= t.drop_first().push(c));
        lemma_escape_snoc(t.drop_first(), c);
        assert(escape_string(t.push(c)) =~= escape_string(t) + escape_char(c));
    }
}

/// Writes the chars of `s`, escaped, onto `out`.
fn push_escaped(out: &mut Vec<char>, s: &str)
    ensures
        final(out)@ == old(out)@ + escape_string(s@),
{
    let len = s.unicode_len();
    let mut i: usize = 0;
    proof {
        assert(s@.take(0) =~= Seq::<char>::empty());
        assert(out@ + escape_string(s@.take(0)) =~= out@);
    }
    while i < len
        invariant
            0 <= i <= s@.len(),
            len == s@.len(),
            out@ == old(out)@ + escape_string(s@.take(i as int)),
        decreases len - i,
    {
        let c = s.get_char(i);
        if c == '"' {
            out.push('\\');
            out.push('"');
        } else if c == '\\' {
            out.push('\\');
            out.push('\\');
        } else if (c as u32) < 0x20 {
            let u = c as u32;
            out.push('\\');
            out.push('u');
            out.push('0');
            out.push('0');
            out.push(digit_char_exec((u / 16) as u8));
            out.push(digit_char_exec((u % 16) as u8));
        } else {
            out.push(c);
        }
        proof {
            assert(s@.take(i + 1) =~= s@.take(i as int).push(s@[i as int]));
            lemma_escape_snoc(s@.take(i as int), s@[i as int]);
            assert(out@ =~= old(out)@ + escape_string(s@.take(i + 1)));
        }
        i = i + 1;
    }
    proof {
        assert(s@.take(len as int) =~= s@);
    }
}

/// Writes a whole string value onto `out`.
fn push_quoted(out: &mut Vec<char>, s: &str)
    ensures
        final(out)@ == old(out)@ + quoted(s@),
{
    out.push('"');
    push_escaped(out, s);
    out.push('"');
    proof {
        assert(out@ =~= old(out)@ + quoted(s@));
    }
}

/// Writes the decimal digits of `n` onto `out`.
fn push_u64(out: &mut Vec<char>, n: u64)
    ensures
        final(out)@ == old(out)@ + dec_digits(n as int),
    decreases n,
{
    if n < 10 {
        out.push(digit_char_exec(n as u8));
    } else {
        push_u64(out, n / 10);
        out.push(digit_char_exec((n % 10) as u8));
        proof {
            assert(out@ =~= old(out)@ + dec_digits(n as int));
        }
    }
}

/// Writes a signed decimal onto `out`.
fn push_i64(out: &mut Vec<char>, v: i64)
    ensures
        final(out)@ == old(out)@ + dec_int(v as int),
{
    if v < 0 {
        out.push('-');
        let mag: u64 = if v == i64::MIN {
            0x8000000000000000u64
        } else {
            (-v) as u64
        };
        push_u64(out, mag);
        proof {
            assert(out@ =~= old(out)@ + dec_int(v as int));
        }
    } else {
        push_u64(out, v as u64);
    }
}

proof fn lemma_joined_snoc(t: Seq<Seq<char>>, x: Seq<char>)
    ensures
        joined_items(t.push(x)) == if t.len() == 0 {
            quoted(x)
        } else {
            joined_items(t) + seq![','] + quoted(x)
        },
    decreases t.len(),
{
    if t.len() == 0 {
        assert(t.push(x)[0] == x);
        assert(joined_items(t.push(x)) == quoted(x));
    } else if t.len() == 1 {
        assert(t.push(x)[0] == t[0]);
        assert(t.push(x).drop_first() =~= seq![x]);
        assert(joined_items(seq![x]) == quoted(x));
        assert(joined_items(t.push(x)) =~= joined_items(t) + seq![','] + quoted(x));
    } else {
        assert(t.push(x)[0] == t[0]);
        assert(t.push(x).drop_first() =~= t.drop_first().push(x));
        lemma_joined_snoc(t.drop_first(), x);
        assert(joined_items(t.push(x)) =~= joined_items(t) + seq![','] + quoted(x));
    }
}

/// Writes the comma-joined string values of `items` onto `out`.
fn push_joined(out: &mut Vec<char>, items: &Vec<String>)
    ensures
        final(out)@ == old(out)@ + joined_items(strs_view(items@)),
{
    let mut i: usize = 0;
    proof {
        assert(strs_view(items@).take(0) =~= Seq::<Seq<char>>::empty());
        assert(out@ + joined_items(strs_view(items@).take(0)) =~= out@);
    }
    while i < items.len()
        invariant
            0 <= i <= items@.len(),
            out@ == old(out)@ + joined_items(strs_view(items@).take(i as int)),
        decreases items@.len() - i,
    {
        if i > 0 {
            out.push(',');
        }
        push_quoted(out, items[i].as_str());
        proof {
            let views = strs_view(items@);
            assert(views.take(i + 1) =~= views.take(i as int).push(views[i as int]));
            lemma_joined_snoc(views.take(i as int), views[i as int]);
            assert(out@ =~= old(out)@ + joined_items(views.take(i + 1)));
        }
        i = i + 1;
    }
    proof {
        assert(strs_view(items@).take(items@.len() as int) =~= strs_view(items@));
    }
}

/// Encodes one command envelope, exactly as the sender writes it.
pub fn encode_request(req: &crate::requests::InsertRequest) -> (r: String)
    ensures
        r@ == spec_encode_request(
            req.name@,
            req.link@.text(),
            strs_view(req.metadata@),
        ),
{
    let mut out: Vec<char> = Vec::new();
    out.push('{');
    push_quoted(&mut out, "name");
    out.push(':');
    push_quoted(&mut out, req.name.as_str());
    out.push(',');
    push_quoted(&mut out, "link");
    out.push(':');
    push_quoted(&mut out, req.link.as_str());
    out.push(',');
    push_quoted(&mut out, "metadata");
    out.push(':');
    out.push('[');
    push_joined(&mut out, &req.metadata);
    out.push(']');
    out.push('}');
    proof {
        reveal_strlit("name");
        reveal_strlit("link");
        reveal_strlit("metadata");
        assert("name"@ =~= name_key());
        assert("link"@ =~= link_key());
        assert("metadata"@ =~= metadata_key());
        assert(out@ =~= spec_encode_request(
            req.name@,
            req.link@.text(),
            strs_view(req.metadata@),
        ));
    }
    chars_to_string(&out)
}

/// Encodes a lock record, exactly as the owner writes it.
pub fn encode_lock(lock: &crate::lock::Lock) -> (r: String)
    ensures
        ({
            match lock {
                crate::lock::Lock::WithListener(l) => r@ == spec_encode_lock_with(
                    l.hostname@,
                    l.listener_port as int,
                ),
                crate::lock::Lock::WithoutListener(t) => r@ == spec_encode_lock_without(
                    t.time_locked as int,
                ),
            }
        }),
{
    let mut out: Vec<char> = Vec::new();
    out.push('{');
    match lock {
        crate::lock::Lock::WithListener(l) => {
            push_quoted(&mut out, "hostname");
            out.push(':');
            push_quoted(&mut out, l.hostname.as_str());
            out.push(',');
            push_quoted(&mut out, "listener_port");
            out.push(':');
            push_u64(&mut out, l.listener_port as u64);
            out.push('}');
            proof {
                reveal_strlit("hostname");
                reveal_strlit("listener_port");
                assert("hostname"@ =~= hostname_key());
                assert("listener_port"@ =~= listener_port_key());
                assert(out@ =~= spec_encode_lock_with(l.hostname@, l.listener_port as int));
            }
        },
        crate::lock::Lock::WithoutListener(t) => {
            push_quoted(&mut out, "time_locked");
            out.push(':');
            push_i64(&mut out, t.time_locked);
            out.push('}');
            proof {
                reveal_strlit("time_locked");
                assert("time_locked"@ =~= time_locked_key());
                assert(out@ =~= spec_encode_lock_without(t.time_locked as int));
            }
        },
    }
    chars_to_string(&out)
}

/// Decodes a lock record, exactly as the grammar says: a malformed record
/// is `None`, which the reader treats as fatal.
pub fn decode_lock(s: &str) -> (r: Option<crate::lock::Lock>)
    ensures
        ({
            match spec_parse_lock(s@) {
                Option::None => r is None,
                Option::Some(LockRec::WithListener { hostname, listener_port }) => r matches
                    Option::Some(l) && l matches crate::lock::Lock::WithListener(w)
                    && w.hostname@ == hostname && w.listener_port as int == listener_port,
                Option::Some(LockRec::WithoutListener { time_locked }) => r matches Option::Some(
                    l,
                ) && l matches crate::lock::Lock::WithoutListener(w) && w.time_locked as int
                    == time_locked,
            }
        }),
{
    let len = s.unicode_len();
    let i = skip_ws(s, 0);
    if !(i < len && s.get_char(i) == '{') {
        return Option::None;
    }
    let j = skip_ws(s, i + 1);
    match parse_lock_members(s, j, Option::None, Option::None, Option::None) {
        Option::None => Option::None,
        Option::Some((hostname, listener_port, time_locked, k)) => {
            let e = skip_ws(s, k);
            if e == len {
                match (hostname, listener_port, time_locked) {
                    (Option::Some(h), Option::Some(p), Option::None) => Option::Some(
                        crate::lock::Lock::WithListener(
                            crate::lock::LockedWithListener { hostname: h, listener_port: p },
                        ),
                    ),
                    (Option::None, Option::None, Option::Some(t)) => Option::Some(
                        crate::lock::Lock::WithoutListener(
                            crate::lock::LockedWithoutListener { time_locked: t },
                        ),
                    ),
                    _ => Option::None,
                }
            } else {
                Option::None
            }
        },
    }
}


// ---------------------------------------------------------------------------
// Decoding an encoded value gives the value back.
// ---------------------------------------------------------------------------

proof fn lemma_digit_char(d: int)
    requires
        0 <= d < 16,
    ensures
        is_hex(digit_char(d)),
        hex_val(digit_char(d)) == d,
        d < 10 ==> is_digit(digit_char(d)),
        d >= 10 ==> !is_digit(digit_char(d)),
{
}

/// One unfolding of the parser at a simple backslash escape.
proof fn lemma_body_branch_simple(s: Seq<char>, i: int, e: char)
    requires
        0 <= i,
        i + 1 < s.len(),
        s[i] == '\\',
        s[i + 1] == e,
        e == '"' || e == '\\' || e == '/',
    ensures
        spec_parse_string_body(s, i) == spec_parse_cons(s, e, i + 2),
{
}

/// One unfolding of the parser at a short `\u` escape.
proof fn lemma_body_branch_u(s: Seq<char>, i: int)
    requires
        0 <= i,
        i + 1 < s.len(),
        s[i] == '\\',
        s[i + 1] == 'u',
        hex4_ok(s, i + 2),
        hex4(s, i + 2) < 0xD800 || hex4(s, i + 2) >= 0xE000,
    ensures
        spec_parse_string_body(s, i) == spec_parse_cons(s, hex4(s, i + 2) as char, i + 6),
{
}

/// One unfolding of the parser at an ordinary char.
proof fn lemma_body_branch_raw(s: Seq<char>, i: int)
    requires
        0 <= i < s.len(),
        s[i] != '"',
        s[i] != '\\',
        s[i] as u32 >= 0x20,
    ensures
        spec_parse_string_body(s, i) == spec_parse_cons(s, s[i], i + 1),
{
}

/// One unfolding of the chained char.
proof fn lemma_parse_cons_char(s: Seq<char>, c: char, i: int, tail: Seq<char>, end: int)
    requires
        spec_parse_string_body(s, i) == Option::Some((tail, end)),
    ensures
        spec_parse_cons(s, c, i) == Option::Some((seq![c] + tail, end)),
{
}

/// Parsing a string body over the escaped chars of `content` (then the
/// closing quote) yields `content` and stops just past the quote.
#[verifier::rlimit(100)]
#[verifier::spinoff_prover]
proof fn lemma_parse_body_escaped(pre: Seq<char>, content: Seq<char>, rest: Seq<char>)
    ensures
        ({
            let r = spec_parse_string_body(
                pre + escape_string(content) + seq!['"'] + rest,
                pre.len() as int,
            );
            r == Option::Some((content, pre.len() + escape_string(content).len() + 1 as int))
        }),
    decreases content.len(),
{
    let full = pre + escape_string(content) + seq!['"'] + rest;
    let i = pre.len() as int;
    if content.len() == 0 {
        assert(escape_string(content) =~= Seq::<char>::empty());
        assert(full[i] == '"');
        assert(spec_parse_string_body(full, i) matches Option::Some(p) && p.0
            == Seq::<char>::empty() && p.1 == i + 1);
        assert(content =~= Seq::<char>::empty());
    } else {
        let c = content[0];
        let tail = content.drop_first();
        let ec = escape_char(c);
        assert(escape_string(content) == ec + escape_string(tail));
        let pre2 = pre + ec;
        assert(full =~= pre2 + escape_string(tail) + seq!['"'] + rest);
        lemma_parse_body_escaped(pre2, tail, rest);
        let end = pre2.len() + escape_string(tail).len() + 1 as int;
        assert(end == pre.len() + escape_string(content).len() + 1);
        assert(seq![c] + tail =~= content);
        if c == '"' || c == '\\' {
            assert(ec =~= seq!['\\', c]);
            assert(full[i] == '\\' && full[i + 1] == c);
            lemma_body_branch_simple(full, i, c);
            lemma_parse_cons_char(full, c, i + 2, tail, end);
        } else if (c as u32) < 0x20 {
            let u = c as u32;
            let d1 = digit_char(u as int / 16);
            let d2 = digit_char(u as int % 16);
            assert(ec =~= seq!['\\', 'u', '0', '0', d1, d2]);
            assert(full[i] == '\\' && full[i + 1] == 'u');
            assert(full[i + 2] == '0' && full[i + 3] == '0' && full[i + 4] == d1 && full[i + 5]
                == d2);
            lemma_digit_char(u as int / 16);
            lemma_digit_char(u as int % 16);
            assert(hex4_ok(full, i + 2));
            assert(hex4(full, i + 2) == u) by {
                assert(hex_val('0') == 0);
                assert(hex_val(full[i + 4]) == u as int / 16);
                assert(hex_val(full[i + 5]) == u as int % 16);
                assert(u as int == (u as int / 16) * 16 + u as int % 16);
            }
            vstd::utf8::char_u32_cast(c, u);
            assert((u as char) == c);
            lemma_body_branch_u(full, i);
            lemma_parse_cons_char(full, c, i + 6, tail, end);
        } else {
            assert(ec =~= seq![c]);
            assert(full[i] == c);
            lemma_body_branch_raw(full, i);
            lemma_parse_cons_char(full, c, i + 1, tail, end);
        }
    }
}

/// Parsing a whole encoded string value yields its content.
proof fn lemma_parse_quoted(pre: Seq<char>, content: Seq<char>, rest: Seq<char>)
    ensures
        ({
            let r = spec_parse_string(pre + quoted(content) + rest, pre.len() as int);
            r == Option::Some((content, pre.len() + quoted(content).len() as int))
        }),
{
    let full = pre + quoted(content) + rest;
    let i = pre.len() as int;
    assert(full[i] == '"');
    let pre2 = pre + seq!['"'];
    assert(full =~= pre2 + escape_string(content) + seq!['"'] + rest);
    lemma_parse_body_escaped(pre2, content, rest);
    assert(spec_parse_string(full, i) == spec_parse_string_body(full, i + 1));
}

/// Powers of ten.
pub open spec fn pow10(k: nat) -> int
    decreases k,
{
    if k == 0 {
        1
    } else {
        10 * pow10((k - 1) as nat)
    }
}

proof fn lemma_pow10_pos(k: nat)
    ensures
        pow10(k) >= 1,
    decreases k,
{
    if k > 0 {
        lemma_pow10_pos((k - 1) as nat);
    }
}

proof fn lemma_dec_digits_shape(n: int)
    requires
        n >= 0,
    ensures
        dec_digits(n).len() >= 1,
        forall|j: int| 0 <= j < dec_digits(n).len() ==> is_digit(#[trigger] dec_digits(n)[j]),
    decreases n,
{
    if n < 10 {
        lemma_digit_char(n);
    } else {
        lemma_dec_digits_shape(n / 10);
        lemma_digit_char(n % 10);
        assert(forall|j: int|
            0 <= j < dec_digits(n / 10).len() ==> dec_digits(n)[j] == dec_digits(n / 10)[j]);
        assert(dec_digits(n).last() == digit_char(n % 10));
    }
}

/// Folding the encoded digits of `n` into `acc` lands just past them with
/// `acc` shifted under `n`.
proof fn lemma_digits_consume(pre: Seq<char>, n: int, rest: Seq<char>, acc: int)
    requires
        n >= 0,
        acc >= 0,
    ensures
        ({
            let full = pre + dec_digits(n) + rest;
            let k = dec_digits(n).len() as int;
            spec_parse_digits(full, pre.len() as int, acc) == spec_parse_digits(
                full,
                pre.len() + k,
                acc * pow10(k as nat) + n,
            )
        }),
    decreases n,
{
    let full = pre + dec_digits(n) + rest;
    let i = pre.len() as int;
    let k = dec_digits(n).len() as int;
    lemma_dec_digits_shape(n);
    lemma_pow10_pos(k as nat);
    if n < 10 {
        lemma_digit_char(n);
        assert(full[i] == digit_char(n));
        assert(full[i] as u32 - '0' as u32 == n);
        assert(spec_parse_digits(full, i, acc) == spec_parse_digits(full, i + 1, acc * 10 + n));
        assert(pow10(0) == 1);
        assert(pow10(1) == 10 * pow10(0));
    } else {
        let head = dec_digits(n / 10);
        let k1 = head.len() as int;
        let d = digit_char(n % 10);
        assert(dec_digits(n) == head + seq![d]);
        assert(full =~= pre + head + (seq![d] + rest));
        lemma_digits_consume(pre, n / 10, seq![d] + rest, acc);
        lemma_pow10_pos(k1 as nat);
        let acc1 = acc * pow10(k1 as nat) + n / 10;
        assert(spec_parse_digits(full, i, acc) == spec_parse_digits(full, i + k1, acc1));
        lemma_digit_char(n % 10);
        assert(full[i + k1] == d);
        assert(full[i + k1] as u32 - '0' as u32 == n % 10);
        assert(acc1 >= 0);
        assert(spec_parse_digits(full, i + k1, acc1) == spec_parse_digits(
            full,
            i + k1 + 1,
            acc1 * 10 + n % 10,
        ));
        assert(k == k1 + 1);
        assert(pow10(k as nat) == 10 * pow10(k1 as nat));
        assert(acc1 * 10 + n % 10 == acc * pow10(k as nat) + n) by (nonlinear_arith)
            requires
                acc1 == acc * pow10(k1 as nat) + n / 10,
                n == (n / 10) * 10 + n % 10,
                pow10(k as nat) == 10 * pow10(k1 as nat),
        {
        }
    }
}

/// Parsing the encoded integer `v` yields `v` and stops at the first char
/// after its digits, which must not itself be a digit.
proof fn lemma_parse_int_encoded(pre: Seq<char>, v: int, rest: Seq<char>)
    requires
        rest.len() >= 1,
        !is_digit(rest[0]),
    ensures
        ({
            let r = spec_parse_int(pre + dec_int(v) + rest, pre.len() as int);
            r == Option::Some((v, pre.len() + dec_int(v).len() as int))
        }),
{
    let full = pre + dec_int(v) + rest;
    let i = pre.len() as int;
    if v >= 0 {
        lemma_dec_digits_shape(v);
        assert(full =~= pre + dec_digits(v) + rest);
        assert(full[i] == dec_digits(v)[0]);
        assert(is_digit(full[i]));
        assert(full[i] != '-');
        lemma_digits_consume(pre, v, rest, 0);
        let k = dec_digits(v).len() as int;
        assert(full[i + k] == rest[0]);
        assert(spec_parse_digits(full, i + k, v) == (v, i + k));
        assert(spec_parse_digits(full, i, 0) == (v, i + k));
    } else {
        lemma_dec_digits_shape(-v);
        assert(dec_int(v) == seq!['-'] + dec_digits(-v));
        let pre2 = pre + seq!['-'];
        assert(full =~= pre2 + dec_digits(-v) + rest);
        assert(full[i] == '-');
        assert(full[i + 1] == dec_digits(-v)[0]);
        assert(is_digit(full[i + 1]));
        lemma_digits_consume(pre2, -v, rest, 0);
        let k = dec_digits(-v).len() as int;
        assert(full[i + 1 + k] == rest[0]);
        assert(spec_parse_digits(full, i + 1 + k, -v) == (-v, i + 1 + k));
        assert(spec_parse_digits(full, i + 1, 0) == (-v, i + 1 + k));
    }
}


/// The first char of a non-empty joined item list is a quote.
proof fn lemma_joined_first(items: Seq<Seq<char>>)
    requires
        items.len() >= 1,
    ensures
        joined_items(items).len() >= 2,
        joined_items(items)[0] == '"',
{
    assert(quoted(items[0])[0] == '"');
}

/// One unfolding of the item-list parser at its last item.
proof fn lemma_items_step_last(s: Seq<char>, i: int, v: Seq<char>, j: int)
    requires
        spec_parse_string(s, i) == Option::Some((v, j)),
        spec_skip_ws(s, j) == j,
        0 <= j < s.len(),
        s[j] == ']',
    ensures
        spec_parse_str_items(s, i) == Option::Some((seq![v], j + 1)),
{
    reveal(spec_parse_str_items);
}

/// One unfolding of the item-list parser at a comma.
proof fn lemma_items_step_more(
    s: Seq<char>,
    i: int,
    v: Seq<char>,
    j: int,
    restv: Seq<Seq<char>>,
    m: int,
)
    requires
        spec_parse_string(s, i) == Option::Some((v, j)),
        spec_skip_ws(s, j) == j,
        0 <= j < s.len(),
        s[j] == ',',
        spec_skip_ws(s, j + 1) == j + 1,
        i < j + 1 <= s.len(),
        spec_parse_str_items(s, j + 1) == Option::Some((restv, m)),
    ensures
        spec_parse_str_items(s, i) == Option::Some((seq![v] + restv, m)),
{
    reveal(spec_parse_str_items);
}

/// Parsing the last encoded item (then the closing bracket).
#[verifier::rlimit(100)]
#[verifier::spinoff_prover]
proof fn lemma_parse_items_one(pre: Seq<char>, head: Seq<char>, rest: Seq<char>)
    ensures
        ({
            let r = spec_parse_str_items(
                pre + quoted(head) + seq![']'] + rest,
                pre.len() as int,
            );
            r == Option::Some((seq![head], pre.len() + quoted(head).len() + 1 as int))
        }),
{
    let full = pre + quoted(head) + seq![']'] + rest;
    let i = pre.len() as int;
    assert(full =~= pre + quoted(head) + (seq![']'] + rest));
    lemma_parse_quoted(pre, head, seq![']'] + rest);
    let j = i + quoted(head).len() as int;
    assert(full[j] == ']');
    assert(!is_ws(full[j]));
    assert(spec_skip_ws(full, j) == j);
    lemma_items_step_last(full, i, head, j);
}

/// Parsing item by item over an encoded item list (then the closing
/// bracket) yields the items and stops just past the bracket.
#[verifier::rlimit(100)]
#[verifier::spinoff_prover]
proof fn lemma_parse_items_encoded(pre: Seq<char>, items: Seq<Seq<char>>, rest: Seq<char>)
    requires
        items.len() >= 1,
    ensures
        ({
            let r = spec_parse_str_items(
                pre + joined_items(items) + seq![']'] + rest,
                pre.len() as int,
            );
            r == Option::Some((items, pre.len() + joined_items(items).len() + 1 as int))
        }),
    decreases items.len(),
{
    let full = pre + joined_items(items) + seq![']'] + rest;
    let i = pre.len() as int;
    let head = items[0];
    if items.len() == 1 {
        assert(joined_items(items) == quoted(head));
        assert(full =~= pre + quoted(head) + seq![']'] + rest);
        lemma_parse_items_one(pre, head, rest);
        assert(seq![head] =~= items);
    } else {
        let tail = items.drop_first();
        assert(joined_items(items) == quoted(head) + seq![','] + joined_items(tail));
        assert(full =~= pre + quoted(head) + (seq![','] + joined_items(tail) + seq![']'] + rest));
        lemma_parse_quoted(pre, head, seq![','] + joined_items(tail) + seq![']'] + rest);
        let j = i + quoted(head).len() as int;
        assert(full[j] == ',');
        assert(!is_ws(full[j]));
        assert(spec_skip_ws(full, j) == j);
        lemma_joined_first(tail);
        assert(full[j + 1] == joined_items(tail)[0]);
        assert(!is_ws(full[j + 1]));
        assert(spec_skip_ws(full, j + 1) == j + 1);
        let pre2 = pre + quoted(head) + seq![','];
        assert(full =~= pre2 + joined_items(tail) + seq![']'] + rest);
        lemma_parse_items_encoded(pre2, tail, rest);
        let m = pre2.len() + joined_items(tail).len() + 1 as int;
        lemma_items_step_more(full, i, head, j, tail, m);
        assert(seq![head] + tail =~= items);
        assert(m == pre.len() + joined_items(items).len() + 1);
    }
}

/// Parsing an encoded array of strings yields its items.
proof fn lemma_parse_array_encoded(pre: Seq<char>, items: Seq<Seq<char>>, rest: Seq<char>)
    ensures
        ({
            let r = spec_parse_str_array(
                pre + seq!['['] + joined_items(items) + seq![']'] + rest,
                pre.len() as int,
            );
            r == Option::Some((items, pre.len() + joined_items(items).len() + 2 as int))
        }),
{
    let full = pre + seq!['['] + joined_items(items) + seq![']'] + rest;
    let i = pre.len() as int;
    assert(full[i] == '[');
    if items.len() == 0 {
        assert(joined_items(items) =~= Seq::<char>::empty());
        assert(full[i + 1] == ']');
        assert(!is_ws(full[i + 1]));
        assert(spec_skip_ws(full, i + 1) == i + 1);
        assert(items =~= Seq::<char>::empty().map_values(|x: char| seq![x]).take(0));
        assert(items =~= Seq::<Seq<char>>::empty());
    } else {
        lemma_joined_first(items);
        assert(full[i + 1] == '"');
        assert(!is_ws(full[i + 1]));
        assert(spec_skip_ws(full, i + 1) == i + 1);
        let pre2 = pre + seq!['['];
        assert(full =~= pre2 + joined_items(items) + seq![']'] + rest);
        lemma_parse_items_encoded(pre2, items, rest);
    }
}


// One-unfolding steps of the lock-record member parser.

proof fn lemma_lock_more_close(s: Seq<char>, i: int, acc: LockFields, k: int)
    requires
        spec_skip_ws(s, i) == k,
        0 <= k < s.len(),
        s[k] == '}',
    ensures
        spec_parse_lock_more(s, i, acc) == Option::Some((acc, k + 1)),
{
}

proof fn lemma_lock_more_comma(
    s: Seq<char>,
    i: int,
    acc: LockFields,
    k: int,
    out: LockFields,
    m: int,
)
    requires
        spec_skip_ws(s, i) == k,
        0 <= k < s.len(),
        s[k] == ',',
        spec_skip_ws(s, k + 1) == k + 1,
        i < k + 1 <= s.len(),
        spec_parse_lock_members(s, k + 1, acc) == Option::Some((out, m)),
    ensures
        spec_parse_lock_more(s, i, acc) == Option::Some((out, m)),
{
}

proof fn lemma_lock_member_host(
    s: Seq<char>,
    i: int,
    j: int,
    val: Seq<char>,
    j2: int,
    acc: LockFields,
    out: LockFields,
    m: int,
)
    requires
        spec_parse_string(s, i) == Option::Some((hostname_key(), j)),
        spec_skip_ws(s, j) == j,
        0 <= j < s.len(),
        s[j] == ':',
        spec_skip_ws(s, j + 1) == j + 1,
        acc.hostname is None,
        spec_parse_string(s, j + 1) == Option::Some((val, j2)),
        i < j2 <= s.len(),
        spec_parse_lock_more(
            s,
            j2,
            LockFields { hostname: Option::Some(val), ..acc },
        ) == Option::Some((out, m)),
    ensures
        spec_parse_lock_members(s, i, acc) == Option::Some((out, m)),
{
}

#[verifier::rlimit(100)]
#[verifier::spinoff_prover]
proof fn lemma_lock_member_port(
    s: Seq<char>,
    i: int,
    j: int,
    v: int,
    j2: int,
    acc: LockFields,
    out: LockFields,
    m: int,
)
    requires
        spec_parse_string(s, i) == Option::Some((listener_port_key(), j)),
        spec_skip_ws(s, j) == j,
        0 <= j < s.len(),
        s[j] == ':',
        spec_skip_ws(s, j + 1) == j + 1,
        acc.listener_port is None,
        spec_parse_port(s, j + 1) == Option::Some((v, j2)),
        i < j2 <= s.len(),
        spec_parse_lock_more(
            s,
            j2,
            LockFields { listener_port: Option::Some(v), ..acc },
        ) == Option::Some((out, m)),
    ensures
        spec_parse_lock_members(s, i, acc) == Option::Some((out, m)),
{
    assert(listener_port_key()[0] != hostname_key()[0]);
}

#[verifier::rlimit(100)]
#[verifier::spinoff_prover]
proof fn lemma_lock_member_time(
    s: Seq<char>,
    i: int,
    j: int,
    v: int,
    j2: int,
    acc: LockFields,
    out: LockFields,
    m: int,
)
    requires
        spec_parse_string(s, i) == Option::Some((time_locked_key(), j)),
        spec_skip_ws(s, j) == j,
        0 <= j < s.len(),
        s[j] == ':',
        spec_skip_ws(s, j + 1) == j + 1,
        acc.time_locked is None,
        spec_parse_time(s, j + 1) == Option::Some((v, j2)),
        i < j2 <= s.len(),
        spec_parse_lock_more(
            s,
            j2,
            LockFields { time_locked: Option::Some(v), ..acc },
        ) == Option::Some((out, m)),
    ensures
        spec_parse_lock_members(s, i, acc) == Option::Some((out, m)),
{
    assert(time_locked_key()[0] != hostname_key()[0]);
    assert(time_locked_key().len() != listener_port_key().len());
}

/// Decoding an encoded listenerless lock record gives the record back.
#[verifier::rlimit(100)]
#[verifier::spinoff_prover]
pub proof fn lemma_lock_round_trip_without(time_locked: int)
    requires
        -0x8000000000000000 <= time_locked < 0x8000000000000000,
    ensures
        ({
            let r = spec_parse_lock(spec_encode_lock_without(time_locked));
            r == Option::Some(LockRec::WithoutListener { time_locked })
        }),
{
    let s = spec_encode_lock_without(time_locked);
    let qk = quoted(time_locked_key());
    let num = dec_int(time_locked);
    assert(s == seq!['{'] + qk + seq![':'] + num + seq!['}']);
    assert(s[0] == '{');
    assert(!is_ws(s[0]));
    assert(spec_skip_ws(s, 0) == 0);
    assert(s[1] == '"');
    assert(!is_ws(s[1]));
    assert(spec_skip_ws(s, 1) == 1);
    let pre1 = seq!['{'];
    assert(s =~= pre1 + qk + (seq![':'] + num + seq!['}']));
    lemma_parse_quoted(pre1, time_locked_key(), seq![':'] + num + seq!['}']);
    let j = 1 + qk.len() as int;
    assert(s[j] == ':');
    assert(!is_ws(s[j]));
    assert(spec_skip_ws(s, j) == j);
    let pre2 = pre1 + qk + seq![':'];
    assert(s =~= pre2 + num + seq!['}']);
    lemma_parse_int_encoded(pre2, time_locked, seq!['}']);
    assert(!is_ws(num[0])) by {
        lemma_dec_digits_shape(if time_locked >= 0 {
            time_locked
        } else {
            -time_locked
        });
        if time_locked >= 0 {
            assert(num[0] == dec_digits(time_locked)[0]);
        } else {
            assert(num[0] == '-');
        }
    }
    assert(s[j + 1] == num[0]);
    assert(spec_skip_ws(s, j + 1) == j + 1);
    let j2 = j + 1 + num.len() as int;
    assert(spec_parse_time(s, j + 1) == Option::Some((time_locked, j2)));
    let acc0 = LockFields {
        hostname: Option::None,
        listener_port: Option::None,
        time_locked: Option::None,
    };
    let acc1 = LockFields { time_locked: Option::Some(time_locked), ..acc0 };
    assert(s[j2] == '}');
    assert(!is_ws(s[j2]));
    assert(spec_skip_ws(s, j2) == j2);
    lemma_lock_more_close(s, j2, acc1, j2);
    lemma_lock_member_time(s, 1, j, time_locked, j2, acc0, acc1, j2 + 1);
    assert(j2 + 1 == s.len());
    assert(spec_skip_ws(s, j2 + 1) == j2 + 1);
}

/// Decoding an encoded listener lock record gives the record back.
#[verifier::rlimit(100)]
#[verifier::spinoff_prover]
pub proof fn lemma_lock_round_trip_with(hostname: Seq<char>, listener_port: int)
    requires
        0 <= listener_port <= 0xFFFF,
    ensures
        ({
            let r = spec_parse_lock(spec_encode_lock_with(hostname, listener_port));
            r == Option::Some(LockRec::WithListener { hostname, listener_port })
        }),
{
    let s = spec_encode_lock_with(hostname, listener_port);
    let qhk = quoted(hostname_key());
    let qh = quoted(hostname);
    let qpk = quoted(listener_port_key());
    let num = dec_digits(listener_port);
    assert(s == seq!['{'] + qhk + seq![':'] + qh + seq![','] + qpk + seq![':'] + num
        + seq!['}']);
    assert(s[0] == '{');
    assert(!is_ws(s[0]));
    assert(spec_skip_ws(s, 0) == 0);
    assert(s[1] == '"');
    assert(!is_ws(s[1]));
    assert(spec_skip_ws(s, 1) == 1);
    let pre1 = seq!['{'];
    let rest1 = seq![':'] + qh + seq![','] + qpk + seq![':'] + num + seq!['}'];
    assert(s =~= pre1 + qhk + rest1);
    lemma_parse_quoted(pre1, hostname_key(), rest1);
    let j = 1 + qhk.len() as int;
    assert(s[j] == ':');
    assert(!is_ws(s[j]));
    assert(spec_skip_ws(s, j) == j);
    let pre2 = pre1 + qhk + seq![':'];
    let rest2 = seq![','] + qpk + seq![':'] + num + seq!['}'];
    assert(s =~= pre2 + qh + rest2);
    lemma_parse_quoted(pre2, hostname, rest2);
    let j2 = pre2.len() + qh.len() as int;
    assert(s[j2] == ',');
    assert(!is_ws(s[j2]));
    assert(spec_skip_ws(s, j2) == j2);
    assert(s[j2 + 1] == '"');
    assert(!is_ws(s[j2 + 1]));
    assert(spec_skip_ws(s, j2 + 1) == j2 + 1);
    let pre3 = pre2 + qh + seq![','];
    let rest3 = seq![':'] + num + seq!['}'];
    assert(s =~= pre3 + qpk + rest3);
    lemma_parse_quoted(pre3, listener_port_key(), rest3);
    let j3 = pre3.len() + qpk.len() as int;
    assert(s[j3] == ':');
    assert(!is_ws(s[j3]));
    assert(spec_skip_ws(s, j3) == j3);
    let pre4 = pre3 + qpk + seq![':'];
    assert(s =~= pre4 + num + seq!['}']);
    assert(num == dec_int(listener_port));
    lemma_parse_int_encoded(pre4, listener_port, seq!['}']);
    lemma_dec_digits_shape(listener_port);
    assert(s[j3 + 1] == num[0]);
    assert(!is_ws(num[0]));
    assert(spec_skip_ws(s, j3 + 1) == j3 + 1);
    let j4 = j3 + 1 + num.len() as int;
    assert(spec_parse_port(s, j3 + 1) == Option::Some((listener_port, j4)));
    let acc0 = LockFields {
        hostname: Option::None,
        listener_port: Option::None,
        time_locked: Option::None,
    };
    let acc1 = LockFields { hostname: Option::Some(hostname), ..acc0 };
    let acc2 = LockFields { listener_port: Option::Some(listener_port), ..acc1 };
    assert(s[j4] == '}');
    assert(!is_ws(s[j4]));
    assert(spec_skip_ws(s, j4) == j4);
    lemma_lock_more_close(s, j4, acc2, j4);
    lemma_lock_member_port(s, j2 + 1, j3, listener_port, j4, acc1, acc2, j4 + 1);
    lemma_lock_more_comma(s, j2, acc1, j2, acc2, j4 + 1);
    lemma_lock_member_host(s, 1, j, hostname, j2, acc0, acc2, j4 + 1);
    assert(j4 + 1 == s.len());
    assert(spec_skip_ws(s, j4 + 1) == j4 + 1);
}


// One-unfolding steps of the envelope member parser.

proof fn lemma_req_more_close(s: Seq<char>, i: int, acc: ReqFields, k: int)
    requires
        spec_skip_ws(s, i) == k,
        0 <= k < s.len(),
        s[k] == '}',
    ensures
        spec_parse_req_more(s, i, acc) == Option::Some((acc, k + 1)),
{
}

proof fn lemma_req_more_comma(
    s: Seq<char>,
    i: int,
    acc: ReqFields,
    k: int,
    out: ReqFields,
    m: int,
)
    requires
        spec_skip_ws(s, i) == k,
        0 <= k < s.len(),
        s[k] == ',',
        spec_skip_ws(s, k + 1) == k + 1,
        i < k + 1 <= s.len(),
        spec_parse_req_members(s, k + 1, acc) == Option::Some((out, m)),
    ensures
        spec_parse_req_more(s, i, acc) == Option::Some((out, m)),
{
}

#[verifier::rlimit(100)]
#[verifier::spinoff_prover]
proof fn lemma_req_member_name(
    s: Seq<char>,
    i: int,
    j: int,
    val: Seq<char>,
    j2: int,
    acc: ReqFields,
    out: ReqFields,
    m: int,
)
    requires
        spec_parse_string(s, i) == Option::Some((name_key(), j)),
        spec_skip_ws(s, j) == j,
        0 <= j < s.len(),
        s[j] == ':',
        spec_skip_ws(s, j + 1) == j + 1,
        acc.name is None,
        spec_parse_string(s, j + 1) == Option::Some((val, j2)),
        i < j2 <= s.len(),
        spec_parse_req_more(s, j2, ReqFields { name: Option::Some(val), ..acc })
            == Option::Some((out, m)),
    ensures
        spec_parse_req_members(s, i, acc) == Option::Some((out, m)),
{
}

#[verifier::rlimit(100)]
#[verifier::spinoff_prover]
proof fn lemma_req_member_link(
    s: Seq<char>,
    i: int,
    j: int,
    val: Seq<char>,
    j2: int,
    acc: ReqFields,
    out: ReqFields,
    m: int,
)
    requires
        spec_parse_string(s, i) == Option::Some((link_key(), j)),
        spec_skip_ws(s, j) == j,
        0 <= j < s.len(),
        s[j] == ':',
        spec_skip_ws(s, j + 1) == j + 1,
        acc.link is None,
        spec_parse_string(s, j + 1) == Option::Some((val, j2)),
        i < j2 <= s.len(),
        spec_parse_req_more(s, j2, ReqFields { link: Option::Some(val), ..acc })
            == Option::Some((out, m)),
    ensures
        spec_parse_req_members(s, i, acc) == Option::Some((out, m)),
{
    assert(link_key()[0] != name_key()[0]);
}

#[verifier::rlimit(100)]
#[verifier::spinoff_prover]
proof fn lemma_req_member_metadata(
    s: Seq<char>,
    i: int,
    j: int,
    vals: Seq<Seq<char>>,
    j2: int,
    acc: ReqFields,
    out: ReqFields,
    m: int,
)
    requires
        spec_parse_string(s, i) == Option::Some((metadata_key(), j)),
        spec_skip_ws(s, j) == j,
        0 <= j < s.len(),
        s[j] == ':',
        spec_skip_ws(s, j + 1) == j + 1,
        acc.metadata is None,
        spec_parse_str_array(s, j + 1) == Option::Some((vals, j2)),
        i < j2 <= s.len(),
        spec_parse_req_more(s, j2, ReqFields { metadata: Option::Some(vals), ..acc })
            == Option::Some((out, m)),
    ensures
        spec_parse_req_members(s, i, acc) == Option::Some((out, m)),
{
    assert(name_key().len() == 4);
    assert(link_key().len() == 4);
    assert(metadata_key().len() == 8);
    assert(metadata_key() != name_key());
    assert(metadata_key() != link_key());
}

/// Decoding an encoded command envelope gives the fields back: the wire
/// format loses nothing.
#[verifier::rlimit(100)]
#[verifier::spinoff_prover]
pub proof fn lemma_request_round_trip(name: Seq<char>, link: Seq<char>, metadata: Seq<Seq<char>>)
    ensures
        ({
            let r = spec_parse_request(spec_encode_request(name, link, metadata));
            r == Option::Some((name, link, metadata))
        }),
{
    let s = spec_encode_request(name, link, metadata);
    let qnk = quoted(name_key());
    let qn = quoted(name);
    let qlk = quoted(link_key());
    let ql = quoted(link);
    let qmk = quoted(metadata_key());
    let arr = seq!['['] + joined_items(metadata) + seq![']'];
    assert(s == seq!['{'] + qnk + seq![':'] + qn + seq![','] + qlk + seq![':'] + ql + seq![',']
        + qmk + seq![':'] + arr + seq!['}']);
    assert(s[0] == '{');
    assert(!is_ws(s[0]));
    assert(spec_skip_ws(s, 0) == 0);
    assert(s[1] == '"');
    assert(!is_ws(s[1]));
    assert(spec_skip_ws(s, 1) == 1);
    let pre1 = seq!['{'];
    let rest1 = seq![':'] + qn + seq![','] + qlk + seq![':'] + ql + seq![','] + qmk + seq![':']
        + arr + seq!['}'];
    assert(s =~= pre1 + qnk + rest1);
    lemma_parse_quoted(pre1, name_key(), rest1);
    let j1 = 1 + qnk.len() as int;
    assert(s[j1] == ':');
    assert(!is_ws(s[j1]));
    assert(spec_skip_ws(s, j1) == j1);
    let pre2 = pre1 + qnk + seq![':'];
    let rest2 = seq![','] + qlk + seq![':'] + ql + seq![','] + qmk + seq![':'] + arr + seq!['}'];
    assert(s =~= pre2 + qn + rest2);
    lemma_parse_quoted(pre2, name, rest2);
    let j2 = pre2.len() + qn.len() as int;
    assert(s[j2] == ',');
    assert(!is_ws(s[j2]));
    assert(spec_skip_ws(s, j2) == j2);
    assert(s[j2 + 1] == '"');
    assert(!is_ws(s[j2 + 1]));
    assert(spec_skip_ws(s, j2 + 1) == j2 + 1);
    let pre3 = pre2 + qn + seq![','];
    let rest3 = seq![':'] + ql + seq![','] + qmk + seq![':'] + arr + seq!['}'];
    assert(s =~= pre3 + qlk + rest3);
    lemma_parse_quoted(pre3, link_key(), rest3);
    let j3 = pre3.len() + qlk.len() as int;
    assert(s[j3] == ':');
    assert(!is_ws(s[j3]));
    assert(spec_skip_ws(s, j3) == j3);
    let pre4 = pre3 + qlk + seq![':'];
    let rest4 = seq![','] + qmk + seq![':'] + arr + seq!['}'];
    assert(s =~= pre4 + ql + rest4);
    lemma_parse_quoted(pre4, link, rest4);
    let j4 = pre4.len() + ql.len() as int;
    assert(s[j4] == ',');
    assert(!is_ws(s[j4]));
    assert(spec_skip_ws(s, j4) == j4);
    assert(s[j4 + 1] == '"');
    assert(!is_ws(s[j4 + 1]));
    assert(spec_skip_ws(s, j4 + 1) == j4 + 1);
    let pre5 = pre4 + ql + seq![','];
    let rest5 = seq![':'] + arr + seq!['}'];
    assert(s =~= pre5 + qmk + rest5);
    lemma_parse_quoted(pre5, metadata_key(), rest5);
    let j5 = pre5.len() + qmk.len() as int;
    assert(s[j5] == ':');
    assert(!is_ws(s[j5]));
    assert(spec_skip_ws(s, j5) == j5);
    let pre6 = pre5 + qmk + seq![':'];
    assert(s =~= pre6 + seq!['['] + joined_items(metadata) + seq![']'] + seq!['}']);
    lemma_parse_array_encoded(pre6, metadata, seq!['}']);
    assert(s[j5 + 1] == '[');
    assert(!is_ws(s[j5 + 1]));
    assert(spec_skip_ws(s, j5 + 1) == j5 + 1);
    let j6 = j5 + 1 + arr.len() as int;
    assert(spec_parse_str_array(s, j5 + 1) == Option::Some((metadata, j6)));
    let acc0 = ReqFields { name: Option::None, link: Option::None, metadata: Option::None };
    let acc1 = ReqFields { name: Option::Some(name), ..acc0 };
    let acc2 = ReqFields { link: Option::Some(link), ..acc1 };
    let acc3 = ReqFields { metadata: Option::Some(metadata), ..acc2 };
    assert(s[j6] == '}');
    assert(!is_ws(s[j6]));
    assert(spec_skip_ws(s, j6) == j6);
    lemma_req_more_close(s, j6, acc3, j6);
    lemma_req_member_metadata(s, j4 + 1, j5, metadata, j6, acc2, acc3, j6 + 1);
    lemma_req_more_comma(s, j4, acc2, j4, acc3, j6 + 1);
    lemma_req_member_link(s, j2 + 1, j3, link, j4, acc1, acc3, j6 + 1);
    lemma_req_more_comma(s, j2, acc1, j2, acc3, j6 + 1);
    lemma_req_member_name(s, 1, j1, name, j2, acc0, acc3, j6 + 1);
    assert(j6 + 1 == s.len());
    assert(spec_skip_ws(s, j6 + 1) == j6 + 1);
}

} // verus!

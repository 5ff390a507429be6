//! The small JSON dialect exchanged with WASM decoder plugins.
//!
//! A plugin answers a decode call with an array of objects such as
//! `[{"label":"...","value":"...","offset":0,"length":4}]` and may declare its
//! parameters as `[{"name":"...","type":"...","default":"...","choices":["..."]}]`.
//! The readers here are lenient scanners rather than full JSON parsers: they
//! skip what they do not recognise. The specifications below follow the
//! scanner step by step, since that is what decides which input gives which
//! result.

use vstd::prelude::*;

use crate::app::types::{make_param, param_type_for, str_eq, string_views, DecoderParam};
use crate::decode::types::DecodedValue;
use crate::text::push_char;

verus! {

broadcast use vstd::string::group_string_axioms;

/// Unicode `White_Space`, the characters `char::is_whitespace` accepts.
pub open spec fn is_ws(c: char) -> bool {
    let v = c as u32;
    (0x09 <= v <= 0x0d) || v == 0x20 || v == 0x85 || v == 0xa0 || v == 0x1680 || (0x2000 <= v
        <= 0x200a) || v == 0x2028 || v == 0x2029 || v == 0x202f || v == 0x205f || v == 0x3000
}

/// An ASCII decimal digit.
pub open spec fn is_digit(c: char) -> bool {
    '0' <= c <= '9'
}

/// Whether a character is whitespace (Unicode `White_Space`).
pub fn is_whitespace(c: char) -> (r: bool)
    ensures
        r == is_ws(c),
{
    let v = c as u32;
    (0x09 <= v && v <= 0x0d) || v == 0x20 || v == 0x85 || v == 0xa0 || v == 0x1680 || (0x2000
        <= v && v <= 0x200a) || v == 0x2028 || v == 0x2029 || v == 0x202f || v == 0x205f || v
        == 0x3000
}

/// The characters of a string slice.
pub fn chars_of(s: &str) -> (v: Vec<char>)
    ensures
        v@ == s@,
{
    let mut v: Vec<char> = Vec::new();
    for c in iter: s.chars()
        invariant
            v@ == iter.seq().take(iter.index() as int),
    {
        v.push(c);
    }
    v
}

/// A string made of the given characters.
pub fn string_of(v: &Vec<char>) -> (s: String)
    ensures
        s@ == v@,
{
    let mut s = String::new();
    crate::text::push_chars(&mut s, v);
    s
}

/// `s` without leading whitespace.
pub open spec fn trim_start(s: Seq<char>) -> Seq<char>
    decreases s.len(),
{
    if s.len() > 0 && is_ws(s[0]) {
        trim_start(s.drop_first())
    } else {
        s
    }
}

/// `s` without trailing whitespace.
pub open spec fn trim_end(s: Seq<char>) -> Seq<char>
    decreases s.len(),
{
    if s.len() > 0 && is_ws(s.last()) {
        trim_end(s.drop_last())
    } else {
        s
    }
}

/// `s` without leading and trailing whitespace, as `str::trim` gives it.
pub open spec fn trimmed(s: Seq<char>) -> Seq<char> {
    trim_end(trim_start(s))
}

/// Characters without leading and trailing whitespace.
pub fn trim_chars(v: &Vec<char>) -> (t: Vec<char>)
    ensures
        t@ == trimmed(v@),
{
    let mut a: usize = 0;
    assert(v@.subrange(0, v@.len() as int) =~= v@);
    while a < v.len() && is_whitespace(v[a])
        invariant
            a <= v@.len(),
            trim_start(v@) == trim_start(v@.subrange(a as int, v@.len() as int)),
        decreases v.len() - a,
    {
        proof {
            assert(v@.subrange(a as int, v@.len() as int).drop_first() =~= v@.subrange(a + 1, v@.len() as int));
        }
        a = a + 1;
    }
    let ghost front = v@.subrange(a as int, v@.len() as int);
    let mut b: usize = v.len();
    while b > a && is_whitespace(v[b - 1])
        invariant
            a <= b <= v@.len(),
            front == v@.subrange(a as int, v@.len() as int),
            trim_start(v@) == front,
            trim_end(front) == trim_end(v@.subrange(a as int, b as int)),
        decreases b - a,
    {
        proof {
            assert(v@.subrange(a as int, b as int).drop_last() =~= v@.subrange(a as int, b - 1));
        }
        b = b - 1;
    }
    let mut t: Vec<char> = Vec::new();
    let mut k: usize = a;
    while k < b
        invariant
            a <= k <= b <= v@.len(),
            t@ == v@.subrange(a as int, k as int),
        decreases b - k,
    {
        t.push(v[k]);
        k = k + 1;
        proof {
            assert(t@ =~= v@.subrange(a as int, k as int));
        }
    }
    t
}

/// Where `skip_ws_comma` stops: the first position from `i` below `len` that
/// holds neither whitespace nor a comma.
pub open spec fn skip_ws_comma_spec(c: Seq<char>, i: int, len: int) -> int
    decreases len - i,
{
    if 0 <= i < len && i < c.len() && (is_ws(c[i]) || c[i] == ',') {
        skip_ws_comma_spec(c, i + 1, len)
    } else {
        i
    }
}

/// Advances `i` past whitespace and commas.
pub fn skip_ws_comma(chars: &[char], i: &mut usize, len: usize)
    requires
        len <= chars@.len(),
    ensures
        *final(i) == skip_ws_comma_spec(chars@, *old(i) as int, len as int),
{
    let ghost start = *i;
    while *i < len && (is_whitespace(chars[*i]) || chars[*i] == ',')
        invariant
            len <= chars@.len(),
            skip_ws_comma_spec(chars@, start as int, len as int) == skip_ws_comma_spec(chars@, *i as int, len as int),
        decreases len - *i,
    {
        *i = *i + 1;
    }
}

/// Where a scan stops that passes colons and whitespace.
pub open spec fn skip_colon_ws(c: Seq<char>, i: int) -> int
    decreases c.len() - i,
{
    if 0 <= i < c.len() && (c[i] == ':' || is_ws(c[i])) {
        skip_colon_ws(c, i + 1)
    } else {
        i
    }
}

/// Where a scan stops that looks for the next `,` or `}`.
pub open spec fn skip_to_delim(c: Seq<char>, i: int) -> int
    decreases c.len() - i,
{
    if 0 <= i < c.len() && c[i] != ',' && c[i] != '}' {
        skip_to_delim(c, i + 1)
    } else {
        i
    }
}

/// The position of the next `"` from `i`, or the end.
pub open spec fn find_quote(c: Seq<char>, i: int) -> int
    decreases c.len() - i,
{
    if 0 <= i < c.len() && c[i] != '"' {
        find_quote(c, i + 1)
    } else {
        i
    }
}

/// What a backslash followed by `x` stands for inside a string.
pub open spec fn unescape(x: char) -> Seq<char> {
    if x == 'n' {
        seq!['\n']
    } else if x == 't' {
        seq!['\t']
    } else if x == '\\' {
        seq!['\\']
    } else if x == '"' {
        seq!['"']
    } else if x == '/' {
        seq!['/']
    } else {
        seq!['\\', x]
    }
}

/// The text of a string whose body starts at `j`, and the position after its
/// closing quote (or the end, when it is not closed).
pub open spec fn string_body(c: Seq<char>, j: int) -> (Seq<char>, int)
    decreases c.len() - j,
{
    if j < 0 || j >= c.len() {
        (Seq::empty(), j)
    } else if c[j] == '"' {
        (Seq::empty(), j + 1)
    } else if c[j] == '\\' && j + 1 < c.len() {
        let r = string_body(c, j + 2);
        (unescape(c[j + 1]) + r.0, r.1)
    } else {
        let r = string_body(c, j + 1);
        (seq![c[j]] + r.0, r.1)
    }
}

/// The string read from position `i`: it starts at the next `"`; with no
/// quote left it is empty and reading stops at the end.
pub open spec fn string_at(c: Seq<char>, i: int) -> (Seq<char>, int) {
    let q = find_quote(c, i);
    if q >= c.len() {
        (Seq::empty(), q)
    } else {
        string_body(c, q + 1)
    }
}

proof fn lemma_find_quote(c: Seq<char>, i: int)
    requires
        0 <= i,
    ensures
        i <= find_quote(c, i),
        i <= c.len() ==> find_quote(c, i) <= c.len(),
        find_quote(c, i) < c.len() ==> c[find_quote(c, i)] == '"',
    decreases c.len() - i,
{
    if 0 <= i < c.len() && c[i] != '"' {
        lemma_find_quote(c, i + 1);
    }
}

proof fn lemma_string_body(c: Seq<char>, j: int)
    requires
        0 <= j <= c.len(),
    ensures
        j <= string_body(c, j).1 <= c.len(),
        j < c.len() ==> j < string_body(c, j).1,
    decreases c.len() - j,
{
    if j < c.len() {
        if c[j] == '"' {
        } else if c[j] == '\\' && j + 1 < c.len() {
            lemma_string_body(c, j + 2);
        } else {
            lemma_string_body(c, j + 1);
        }
    }
}

/// Reading a string moves forward, and stays within the text.
pub proof fn lemma_string_at_progress(c: Seq<char>, i: int)
    requires
        0 <= i < c.len(),
    ensures
        i < string_at(c, i).1 <= c.len(),
{
    lemma_find_quote(c, i);
    let q = find_quote(c, i);
    if q < c.len() {
        lemma_string_body(c, q + 1);
    }
}

/// Reads a string from `*i`: skips to the next `"`, decodes up to the closing
/// quote and leaves `*i` after it.
pub fn parse_json_string(chars: &[char], i: &mut usize) -> (s: String)
    requires
        *old(i) <= chars@.len(),
    ensures
        (s@, *final(i) as int) == string_at(chars@, *old(i) as int),
{
    let len = chars.len();
    let ghost c = chars@;
    let ghost start = *i as int;
    while *i < len && chars[*i] != '"'
        invariant
            len == c.len(),
            c == chars@,
            *i <= len,
            find_quote(c, start) == find_quote(c, *i as int),
        decreases len - *i,
    {
        *i = *i + 1;
    }
    if *i >= len {
        return String::new();
    }
    *i = *i + 1;
    let ghost body_start = *i as int;
    let mut s = String::new();
    while *i < len && chars[*i] != '"'
        invariant
            len == c.len(),
            c == chars@,
            body_start <= *i <= len,
            string_body(c, body_start) == (s@ + string_body(c, *i as int).0, string_body(c, *i as int).1),
        decreases len - *i,
    {
        let ghost before = s@;
        let ghost j = *i as int;
        if chars[*i] == '\\' && *i + 1 < len {
            *i = *i + 1;
            let x = chars[*i];
            if x == 'n' {
                push_char(&mut s, '\n');
            } else if x == 't' {
                push_char(&mut s, '\t');
            } else if x == '\\' {
                push_char(&mut s, '\\');
            } else if x == '"' {
                push_char(&mut s, '"');
            } else if x == '/' {
                push_char(&mut s, '/');
            } else {
                push_char(&mut s, '\\');
                push_char(&mut s, x);
            }
            proof {
                assert(s@ =~= before + unescape(x));
                assert(before + string_body(c, j).0 =~= s@ + string_body(c, j + 2).0);
            }
        } else {
            push_char(&mut s, chars[*i]);
            proof {
                assert(before + string_body(c, j).0 =~= s@ + string_body(c, j + 1).0);
            }
        }
        *i = *i + 1;
    }
    if *i < len {
        *i = *i + 1;
    }
    proof {
        assert(s@ + Seq::<char>::empty() =~= s@);
    }
    s
}

/// The decimal value of a run of digits.
pub open spec fn digits_value(ds: Seq<char>) -> nat
    decreases ds.len(),
{
    if ds.len() == 0 {
        0
    } else {
        (digits_value(ds.drop_last()) * 10 + (ds.last() as int - 48)) as nat
    }
}

/// Where a run of digits from `i` ends.
pub open spec fn digits_end(c: Seq<char>, i: int) -> int
    decreases c.len() - i,
{
    if 0 <= i < c.len() && is_digit(c[i]) {
        digits_end(c, i + 1)
    } else {
        i
    }
}

/// What `str::parse::<i64>` gives for an optional `-` followed by digits, or 0
/// where it fails (no digits, or a value outside `i64`).
pub open spec fn number_value(t: Seq<char>) -> i64 {
    let neg = t.len() > 0 && t[0] == '-';
    let ds = if neg {
        t.drop_first()
    } else {
        t
    };
    let v = digits_value(ds);
    if ds.len() == 0 {
        0
    } else if neg {
        if v <= 0x8000_0000_0000_0000 {
            (-v) as i64
        } else {
            0
        }
    } else {
        if v < 0x8000_0000_0000_0000 {
            v as i64
        } else {
            0
        }
    }
}

/// The number read from position `i`, and the position after it.
pub open spec fn number_at(c: Seq<char>, i: int) -> (i64, int) {
    let s = if 0 <= i < c.len() && c[i] == '-' {
        i + 1
    } else {
        i
    };
    let e = digits_end(c, s);
    (number_value(c.subrange(i, e)), e)
}

proof fn lemma_digits_end(c: Seq<char>, i: int)
    requires
        0 <= i <= c.len(),
    ensures
        i <= digits_end(c, i) <= c.len(),
        forall|k: int| i <= k < digits_end(c, i) ==> is_digit(#[trigger] c[k]),
    decreases c.len() - i,
{
    if i < c.len() && is_digit(c[i]) {
        lemma_digits_end(c, i + 1);
    }
}

proof fn lemma_digits_value_grows(ds: Seq<char>, d: char)
    requires
        is_digit(d),
    ensures
        digits_value(ds.push(d)) >= digits_value(ds) * 10,
        digits_value(ds.push(d)) == digits_value(ds) * 10 + (d as int - 48),
{
    assert(ds.push(d).drop_last() =~= ds);
}

/// Reads an integer (an optional `-` and digits) from `*i`, leaving `*i` after
/// it. Text that `i64` cannot hold reads as 0.
pub fn parse_json_number(chars: &[char], i: &mut usize) -> (n: i64)
    requires
        *old(i) <= chars@.len(),
    ensures
        (n, *final(i) as int) == number_at(chars@, *old(i) as int),
{
    let len = chars.len();
    let ghost c = chars@;
    let start = *i;
    let mut neg = false;
    if *i < len && chars[*i] == '-' {
        *i = *i + 1;
        neg = true;
    }
    let digits_start = *i;
    proof {
        lemma_digits_end(c, digits_start as int);
    }
    let mut acc: u128 = 0;
    let mut big = false;
    while *i < len && '0' <= chars[*i] && chars[*i] <= '9'
        invariant
            len == c.len(),
            c == chars@,
            digits_start <= *i <= len,
            digits_end(c, digits_start as int) == digits_end(c, *i as int),
            forall|k: int| digits_start <= k < *i ==> is_digit(#[trigger] c[k]),
            !big ==> acc == digits_value(c.subrange(digits_start as int, *i as int)) && acc
                <= 0x8000_0000_0000_0000,
            big ==> digits_value(c.subrange(digits_start as int, *i as int)) > 0x8000_0000_0000_0000,
        decreases len - *i,
    {
        let d = chars[*i];
        let ghost prev = c.subrange(digits_start as int, *i as int);
        proof {
            assert(c.subrange(digits_start as int, *i + 1) =~= prev.push(d));
            lemma_digits_value_grows(prev, d);
        }
        if !big {
            let dv = (d as u32 - 48) as u128;
            acc = acc * 10 + dv;
            if acc > 0x8000_0000_0000_0000 {
                big = true;
            }
        }
        *i = *i + 1;
    }
    let ghost t = c.subrange(start as int, *i as int);
    let ghost ds = c.subrange(digits_start as int, *i as int);
    proof {
        if neg {
            assert(t.drop_first() =~= ds);
        } else {
            assert(t =~= ds);
            if t.len() > 0 {
                assert(is_digit(t[0]));
            }
        }
    }
    if *i == digits_start {
        return 0;
    }
    if big {
        return 0;
    }
    if neg {
        if acc <= 0x8000_0000_0000_0000 {
            (0i128 - acc as i128) as i64
        } else {
            0
        }
    } else {
        if acc < 0x8000_0000_0000_0000 {
            acc as i64
        } else {
            0
        }
    }
}

/// `s` with `"`, `\`, newline and tab escaped by a backslash.
pub open spec fn escape_text(s: Seq<char>) -> Seq<char>
    decreases s.len(),
{
    if s.len() == 0 {
        Seq::empty()
    } else {
        escape_text(s.drop_last()) + escape_char(s.last())
    }
}

/// The escaped form of one character.
pub open spec fn escape_char(c: char) -> Seq<char> {
    if c == '"' {
        seq!['\\', '"']
    } else if c == '\\' {
        seq!['\\', '\\']
    } else if c == '\n' {
        seq!['\\', 'n']
    } else if c == '\t' {
        seq!['\\', 't']
    } else {
        seq![c]
    }
}

/// Appends the escaped form of `s` to `out`.
pub fn json_escape_into(out: &mut String, s: &str)
    ensures
        final(out)@ == old(out)@ + escape_text(s@),
{
    let ghost start = out@;
    let cs = chars_of(s);
    let mut k: usize = 0;
    while k < cs.len()
        invariant
            k <= cs@.len(),
            cs@ == s@,
            out@ == start + escape_text(cs@.take(k as int)),
        decreases cs.len() - k,
    {
        let ghost before = out@;
        let c = cs[k];
        if c == '"' {
            push_char(out, '\\');
            push_char(out, '"');
        } else if c == '\\' {
            push_char(out, '\\');
            push_char(out, '\\');
        } else if c == '\n' {
            push_char(out, '\\');
            push_char(out, 'n');
        } else if c == '\t' {
            push_char(out, '\\');
            push_char(out, 't');
        } else {
            push_char(out, c);
        }
        proof {
            assert(cs@.take(k + 1).drop_last() =~= cs@.take(k as int));
            assert(out@ =~= before + escape_char(c));
        }
        k = k + 1;
    }
    proof {
        assert(cs@.take(k as int) =~= cs@);
    }
}

/// One `"key":"value"` member of the parameters object.
pub open spec fn param_value_member(k: Seq<char>, v: Seq<char>) -> Seq<char> {
    seq!['"'] + escape_text(k) + seq!['"', ':', '"'] + escape_text(v) + seq!['"']
}

/// The members of the parameters object, separated by commas.
pub open spec fn param_value_members(ps: Seq<(Seq<char>, Seq<char>)>) -> Seq<char>
    decreases ps.len(),
{
    if ps.len() == 0 {
        Seq::empty()
    } else if ps.len() == 1 {
        param_value_member(ps[0].0, ps[0].1)
    } else {
        param_value_members(ps.drop_last()) + seq![','] + param_value_member(ps.last().0, ps.last().1)
    }
}

/// The parameter pairs as character sequences.
pub open spec fn pair_views(ps: Seq<(String, String)>) -> Seq<(Seq<char>, Seq<char>)> {
    ps.map_values(|p: (String, String)| (p.0@, p.1@))
}

/// Builds the object `{"key":"value",...}` of parameter values handed to a
/// WASM decoder, escaping keys and values.
pub fn build_params_json(params: &[(String, String)]) -> (json: String)
    ensures
        json@ == seq!['{'] + param_value_members(pair_views(params@)) + seq!['}'],
{
    let mut json = String::new();
    push_char(&mut json, '{');
    let mut i: usize = 0;
    while i < params.len()
        invariant
            i <= params@.len(),
            json@ == seq!['{'] + param_value_members(pair_views(params@.take(i as int))),
        decreases params.len() - i,
    {
        let ghost before = json@;
        if i > 0 {
            push_char(&mut json, ',');
        }
        let (k, v) = &params[i];
        push_char(&mut json, '"');
        json_escape_into(&mut json, k.as_str());
        push_char(&mut json, '"');
        push_char(&mut json, ':');
        push_char(&mut json, '"');
        json_escape_into(&mut json, v.as_str());
        push_char(&mut json, '"');
        proof {
            let t = pair_views(params@.take(i + 1));
            assert(t.drop_last() =~= pair_views(params@.take(i as int)));
            assert(t.last() == (k@, v@));
            if i > 0 {
                assert(json@ =~= before + seq![','] + param_value_member(k@, v@));
            } else {
                assert(json@ =~= before + param_value_member(k@, v@));
            }
        }
        i = i + 1;
    }
    push_char(&mut json, '}');
    proof {
        assert(params@.take(i as int) =~= params@);
    }
    json
}

/// What a JSON string reader gives back for text that `json_escape_into`
/// wrote: the escaped text between quotes reads as the unescaped text, and
/// reading stops just after the closing quote.
pub proof fn lemma_escape_roundtrip(s: Seq<char>, rest: Seq<char>)
    ensures
        string_body(escape_text(s) + seq!['"'] + rest, 0) == (s, escape_text(s).len() + 1int),
    decreases s.len(),
{
    lemma_escape_suffix(s, Seq::empty(), rest);
    assert(Seq::<char>::empty() + escape_text(s) + seq!['"'] + rest =~= escape_text(s) + seq!['"'] + rest);
}

proof fn lemma_escape_suffix(s: Seq<char>, pre: Seq<char>, rest: Seq<char>)
    ensures
        string_body(pre + escape_text(s) + seq!['"'] + rest, pre.len() as int) == (
            s,
            pre.len() + escape_text(s).len() + 1int,
        ),
    decreases s.len(),
{
    let c = pre + escape_text(s) + seq!['"'] + rest;
    if s.len() == 0 {
        assert(c[pre.len() as int] == '"');
    } else {
        let head = s[0];
        let tail = s.drop_first();
        lemma_escape_split(s);
        let pre2 = pre + escape_char(head);
        lemma_escape_suffix(tail, pre2, rest);
        assert(c =~= pre2 + escape_text(tail) + seq!['"'] + rest);
        let e = escape_char(head);
        if e.len() == 2 {
            assert(c[pre.len() as int] == '\\');
            assert(c[pre.len() as int + 1] == e[1]);
            assert(unescape(e[1]) == seq![head]);
        } else {
            assert(c[pre.len() as int] == head);
        }
        assert(seq![head] + tail =~= s);
    }
}

/// Escaping splits at the first character.
proof fn lemma_escape_split(s: Seq<char>)
    requires
        s.len() > 0,
    ensures
        escape_text(s) == escape_char(s[0]) + escape_text(s.drop_first()),
    decreases s.len(),
{
    if s.len() == 1 {
        assert(s.drop_first() =~= Seq::<char>::empty());
        assert(s.drop_last() =~= Seq::<char>::empty());
    } else {
        lemma_escape_split(s.drop_last());
        assert(s.drop_last().drop_first() =~= s.drop_first().drop_last());
        assert(s.drop_first().last() == s.last());
    }
}

/// Where a scan stops that passes colons and whitespace.
fn skip_colons(chars: &[char], i: &mut usize)
    requires
        *old(i) <= chars@.len(),
    ensures
        *final(i) == skip_colon_ws(chars@, *old(i) as int),
{
    let ghost start = *i as int;
    while *i < chars.len() && (chars[*i] == ':' || is_whitespace(chars[*i]))
        invariant
            *i <= chars@.len(),
            skip_colon_ws(chars@, start) == skip_colon_ws(chars@, *i as int),
        decreases chars.len() - *i,
    {
        *i = *i + 1;
    }
}

/// Skips to the next `,` or `}`.
fn skip_value(chars: &[char], i: &mut usize)
    requires
        *old(i) <= chars@.len(),
    ensures
        *final(i) == skip_to_delim(chars@, *old(i) as int),
{
    let ghost start = *i as int;
    while *i < chars.len() && chars[*i] != ',' && chars[*i] != '}'
        invariant
            *i <= chars@.len(),
            skip_to_delim(chars@, start) == skip_to_delim(chars@, *i as int),
        decreases chars.len() - *i,
    {
        *i = *i + 1;
    }
}

proof fn lemma_skip_ws_comma(c: Seq<char>, i: int, len: int)
    requires
        0 <= i <= len <= c.len(),
    ensures
        i <= skip_ws_comma_spec(c, i, len) <= len,
    decreases len - i,
{
    if i < len && (is_ws(c[i]) || c[i] == ',') {
        lemma_skip_ws_comma(c, i + 1, len);
    }
}

proof fn lemma_skip_colon_ws(c: Seq<char>, i: int)
    requires
        0 <= i <= c.len(),
    ensures
        i <= skip_colon_ws(c, i) <= c.len(),
    decreases c.len() - i,
{
    if i < c.len() && (c[i] == ':' || is_ws(c[i])) {
        lemma_skip_colon_ws(c, i + 1);
    }
}

/// Between a key and its value the reader passes every colon and every
/// whitespace character, and only those: it stops at the first character
/// that is neither, or at the end of the text.
pub proof fn lemma_colon_and_whitespace_skipped(c: Seq<char>, i: int)
    requires
        0 <= i <= c.len(),
    ensures
        i <= skip_colon_ws(c, i) <= c.len(),
        forall|k: int| i <= k < skip_colon_ws(c, i) ==> c[k] == ':' || is_ws(#[trigger] c[k]),
        skip_colon_ws(c, i) < c.len() ==> c[skip_colon_ws(c, i)] != ':' && !is_ws(c[skip_colon_ws(c, i)]),
    decreases c.len() - i,
{
    if i < c.len() && (c[i] == ':' || is_ws(c[i])) {
        lemma_colon_and_whitespace_skipped(c, i + 1);
    }
}

proof fn lemma_skip_to_delim(c: Seq<char>, i: int)
    requires
        0 <= i <= c.len(),
    ensures
        i <= skip_to_delim(c, i) <= c.len(),
    decreases c.len() - i,
{
    if i < c.len() && c[i] != ',' && c[i] != '}' {
        lemma_skip_to_delim(c, i + 1);
    }
}

proof fn lemma_number_at(c: Seq<char>, i: int)
    requires
        0 <= i < c.len(),
        is_digit(c[i]) || c[i] == '-',
    ensures
        i < number_at(c, i).1 <= c.len(),
{
    if c[i] == '-' {
        lemma_digits_end(c, i + 1);
    } else {
        lemma_digits_end(c, i);
        assert(digits_end(c, i) == digits_end(c, i + 1));
        lemma_digits_end(c, i + 1);
    }
}

/// The members of a result object read so far: label, value, offset, length.
pub type ResultFields = (Seq<char>, Seq<char>, Option<usize>, Option<usize>);

/// A decode result as the specification sees it: label, value, range.
pub type ResultEntry = (Seq<char>, Seq<char>, Option<(usize, usize)>);

/// No members read yet.
pub open spec fn no_result_fields() -> ResultFields {
    (Seq::empty(), Seq::empty(), None, None)
}

/// Records a string member: `label` and `value` are kept, other keys ignored.
pub open spec fn set_string_field(f: ResultFields, key: Seq<char>, v: Seq<char>) -> ResultFields {
    if key == "label"@ {
        (v, f.1, f.2, f.3)
    } else if key == "value"@ {
        (f.0, v, f.2, f.3)
    } else {
        f
    }
}

/// Records a number member: `offset` and `length` are kept (as `usize`, so a
/// negative number wraps), other keys ignored.
pub open spec fn set_number_field(f: ResultFields, key: Seq<char>, n: i64) -> ResultFields {
    if key == "offset"@ {
        (f.0, f.1, Some(n as usize), f.3)
    } else if key == "length"@ {
        (f.0, f.1, f.2, Some(n as usize))
    } else {
        f
    }
}

/// Whether a number value starts with this character.
pub open spec fn starts_number(c: char) -> bool {
    is_digit(c) || c == '-'
}

/// Reads one member at `i`: a key, then a string, a number or a skipped value.
pub open spec fn result_member(c: Seq<char>, i: int, f: ResultFields) -> (ResultFields, int) {
    let (key, j) = string_at(c, i);
    let k = skip_colon_ws(c, j);
    if k < c.len() && c[k] == '"' {
        let (v, m) = string_at(c, k);
        (set_string_field(f, key, v), m)
    } else if k < c.len() && starts_number(c[k]) {
        let (n, m) = number_at(c, k);
        (set_number_field(f, key, n), m)
    } else {
        (f, skip_to_delim(c, k))
    }
}

/// Reads members from `i` up to the closing `}` (or the end).
pub open spec fn result_members(c: Seq<char>, i: int, f: ResultFields) -> (ResultFields, int)
    decreases c.len() - i,
{
    if i < 0 || i >= c.len() || c[i] == '}' {
        (f, i)
    } else {
        let j = skip_ws_comma_spec(c, i, c.len() as int);
        if j >= c.len() || c[j] == '}' {
            (f, j)
        } else {
            let (g, m) = result_member(c, j, f);
            if i < m <= c.len() {
                result_members(c, m, g)
            } else {
                (g, m)
            }
        }
    }
}

/// The entry an object yields: none without a label; a range only with both
/// an offset and a length.
pub open spec fn result_entry_of(f: ResultFields) -> Option<ResultEntry> {
    if f.0.len() == 0 {
        None
    } else {
        Some(
            (
                f.0,
                f.1,
                match (f.2, f.3) {
                    (Some(o), Some(l)) => Some((o, l)),
                    _ => None,
                },
            ),
        )
    }
}

/// The entries of the objects from position `i` of an array text `c` (which
/// ends with its `]`).
pub open spec fn result_entries(c: Seq<char>, i: int) -> Seq<ResultEntry>
    decreases c.len() - i,
{
    let len = c.len() as int;
    if i < 0 || i >= len - 1 {
        Seq::empty()
    } else {
        let j = skip_ws_comma_spec(c, i, len);
        if j >= len - 1 || c[j] == ']' {
            Seq::empty()
        } else if c[j] != '{' {
            if i < j + 1 <= len {
                result_entries(c, j + 1)
            } else {
                Seq::empty()
            }
        } else {
            let (f, m) = result_members(c, j + 1, no_result_fields());
            let m2 = if m < len && c[m] == '}' {
                m + 1
            } else {
                m
            };
            let rest = if i < m2 <= len {
                result_entries(c, m2)
            } else {
                Seq::empty()
            };
            match result_entry_of(f) {
                Some(e) => seq![e] + rest,
                None => rest,
            }
        }
    }
}

/// Whether every object from position `i` of an array text `c` is closed by
/// its `}`, read the way [`result_entries`] reads them.
pub open spec fn results_closed(c: Seq<char>, i: int) -> bool
    decreases c.len() - i,
{
    let len = c.len() as int;
    if i < 0 || i >= len - 1 {
        true
    } else {
        let j = skip_ws_comma_spec(c, i, len);
        if j >= len - 1 || c[j] == ']' {
            true
        } else if c[j] != '{' {
            if i < j + 1 <= len {
                results_closed(c, j + 1)
            } else {
                true
            }
        } else {
            let m = result_members(c, j + 1, no_result_fields()).1;
            if m < len && c[m] == '}' {
                if i < m + 1 <= len {
                    results_closed(c, m + 1)
                } else {
                    true
                }
            } else {
                false
            }
        }
    }
}

/// The answer of `parse_json_results` for a text: after trimming, an empty text
/// or `[]` is an empty list; a text that is not bracketed by `[` and `]`, or
/// holds an object that is never closed, is an error; otherwise the entries
/// of its objects.
pub open spec fn parse_results_spec(text: Seq<char>) -> Result<Seq<ResultEntry>, JsonError> {
    let t = trimmed(text);
    if t.len() == 0 || t == "[]"@ {
        Ok(Seq::empty())
    } else if t[0] != '[' || t.last() != ']' || !results_closed(t, 1) {
        Err(JsonError::ExpectedArray)
    } else {
        Ok(result_entries(t, 1))
    }
}

/// Why a plugin's answer was refused.
#[derive(Clone, Copy, PartialEq, Eq, Structural, Debug)]
pub enum JsonError {
    /// The answer is not a JSON array.
    ExpectedArray,
}

/// Whether `v` holds exactly the entries `w`, none of them coloured yet.
pub open spec fn entries_match(v: Seq<DecodedValue>, w: Seq<ResultEntry>) -> bool {
    &&& v.len() == w.len()
    &&& forall|k: int|
        0 <= k < v.len() ==> {
            &&& #[trigger] v[k].label@ == w[k].0
            &&& v[k].value@ == w[k].1
            &&& v[k].range == w[k].2
            &&& v[k].color_index is None
        }
}

proof fn lemma_result_member(c: Seq<char>, i: int, f: ResultFields)
    requires
        0 <= i < c.len(),
    ensures
        i < result_member(c, i, f).1 <= c.len(),
{
    lemma_string_at_progress(c, i);
    let j = string_at(c, i).1;
    lemma_skip_colon_ws(c, j);
    let k = skip_colon_ws(c, j);
    if k < c.len() && c[k] == '"' {
        lemma_string_at_progress(c, k);
    } else if k < c.len() && starts_number(c[k]) {
        lemma_number_at(c, k);
    } else {
        lemma_skip_to_delim(c, k);
    }
}

proof fn lemma_result_members(c: Seq<char>, i: int, f: ResultFields)
    requires
        0 <= i <= c.len(),
    ensures
        i <= result_members(c, i, f).1 <= c.len(),
    decreases c.len() - i,
{
    if i < c.len() && c[i] != '}' {
        lemma_skip_ws_comma(c, i, c.len() as int);
        let j = skip_ws_comma_spec(c, i, c.len() as int);
        if j < c.len() && c[j] != '}' {
            lemma_result_member(c, j, f);
            let (g, m) = result_member(c, j, f);
            lemma_result_members(c, m, g);
        }
    }
}

/// The members of a result object as they are read.
struct ResultFieldsExec {
    label: String,
    value: String,
    offset: Option<usize>,
    length: Option<usize>,
}

impl ResultFieldsExec {
    spec fn view(&self) -> ResultFields {
        (self.label@, self.value@, self.offset, self.length)
    }
}

/// Reads one member of a result object.
fn read_result_member(chars: &[char], i: &mut usize, f: &mut ResultFieldsExec)
    requires
        *old(i) < chars@.len(),
    ensures
        (final(f).view(), *final(i) as int) == result_member(chars@, *old(i) as int, old(f).view()),
{
    let ghost c = chars@;
    let ghost i0 = *i as int;
    let key = parse_json_string(chars, i);
    proof {
        lemma_string_at_progress(c, i0);
    }
    skip_colons(chars, i);
    proof {
        lemma_skip_colon_ws(c, string_at(c, i0).1);
    }
    if *i < chars.len() && chars[*i] == '"' {
        let val = parse_json_string(chars, i);
        if str_eq(key.as_str(), "label") {
            f.label = val;
        } else if str_eq(key.as_str(), "value") {
            f.value = val;
        }
    } else if *i < chars.len() && (('0' <= chars[*i] && chars[*i] <= '9') || chars[*i] == '-') {
        let num = parse_json_number(chars, i);
        if str_eq(key.as_str(), "offset") {
            f.offset = Some(num as usize);
        } else if str_eq(key.as_str(), "length") {
            f.length = Some(num as usize);
        }
    } else {
        skip_value(chars, i);
    }
}

/// Reads the members of a result object from `*i` up to its `}`.
fn read_result_members(chars: &[char], i: &mut usize, f: &mut ResultFieldsExec)
    requires
        *old(i) <= chars@.len(),
    ensures
        (final(f).view(), *final(i) as int) == result_members(chars@, *old(i) as int, old(f).view()),
{
    let ghost c = chars@;
    let ghost want = result_members(c, *i as int, f.view());
    let len = chars.len();
    while *i < len && chars[*i] != '}'
        invariant
            len == c.len(),
            c == chars@,
            *i <= len,
            result_members(c, *i as int, f.view()) == want,
            want == result_members(c, *old(i) as int, old(f).view()),
        decreases len - *i,
    {
        let ghost i0 = *i as int;
        skip_ws_comma(chars, i, len);
        proof {
            lemma_skip_ws_comma(c, i0, len as int);
        }
        if *i >= len || chars[*i] == '}' {
            proof {
                assert(result_members(c, i0, f.view()) == (f.view(), *i as int));
            }
            return;
        }
        proof {
            lemma_result_member(c, *i as int, f.view());
        }
        let ghost before = f.view();
        let ghost j = *i as int;
        read_result_member(chars, i, f);
        proof {
            assert(result_member(c, j, before) == (f.view(), *i as int));
            assert(result_members(c, i0, before) == result_members(c, *i as int, f.view()));
        }
    }
}

/// Parses a decode answer: a JSON array of `{"label","value","offset","length"}`
/// objects. Objects without a label are dropped; a range is kept when both
/// offset and length are present; other keys and stray text are skipped; an
/// object that is never closed makes the answer an error.
pub fn parse_json_results(json: &str) -> (r: Result<Vec<DecodedValue>, JsonError>)
    ensures
        match (r, parse_results_spec(json@)) {
            (Ok(v), Ok(w)) => entries_match(v@, w),
            (Err(e), Err(e2)) => e == e2,
            _ => false,
        },
{
    let all = chars_of(json);
    let chars = trim_chars(&all);
    let len = chars.len();
    let ghost c = chars@;
    let mut results: Vec<DecodedValue> = Vec::new();
    if len == 0 {
        return Ok(results);
    }
    if len == 2 && chars[0] == '[' && chars[1] == ']' {
        proof {
            reveal_strlit("[]");
            assert(c =~= "[]"@);
        }
        return Ok(results);
    }
    proof {
        reveal_strlit("[]");
        if c == "[]"@ {
            assert(c[0] == '[' && c[1] == ']');
        }
    }
    if chars[0] != '[' || chars[len - 1] != ']' {
        return Err(JsonError::ExpectedArray);
    }
    proof {
        assert(len >= 2);
    }
    let ghost mut got: Seq<ResultEntry> = Seq::empty();
    let mut i: usize = 1;
    while i < len - 1
        invariant_except_break
            1 <= i <= len,
            got + result_entries(c, i as int) == result_entries(c, 1),
            results_closed(c, i as int) == results_closed(c, 1),
        invariant
            len == c.len(),
            len >= 2,
            c == chars@,
            c[0] == '[',
            c[len - 1] == ']',
            c == trimmed(json@),
            c != "[]"@,
            entries_match(results@, got),
        ensures
            got == result_entries(c, 1),
            results_closed(c, 1),
        decreases len - i,
    {
        let ghost i0 = i as int;
        skip_ws_comma(chars.as_slice(), &mut i, len);
        proof {
            lemma_skip_ws_comma(c, i0, len as int);
        }
        if i >= len - 1 || chars[i] == ']' {
            proof {
                assert(result_entries(c, i0) == Seq::<ResultEntry>::empty());
                assert(results_closed(c, i0));
                assert(got + Seq::<ResultEntry>::empty() =~= got);
            }
            break;
        }
        if chars[i] != '{' {
            proof {
                assert(result_entries(c, i0) == result_entries(c, i + 1));
                assert(results_closed(c, i0) == results_closed(c, i + 1));
            }
            i = i + 1;
            continue;
        }
        i = i + 1;
        let ghost j1 = i as int;
        let mut f = ResultFieldsExec {
            label: String::new(),
            value: String::new(),
            offset: None,
            length: None,
        };
        proof {
            assert(f.view() == no_result_fields());
        }
        read_result_members(chars.as_slice(), &mut i, &mut f);
        proof {
            lemma_result_members(c, j1, no_result_fields());
        }
        if i < len && chars[i] == '}' {
            proof {
                assert(results_closed(c, i0) == results_closed(c, i + 1));
            }
            i = i + 1;
        } else {
            proof {
                assert(!results_closed(c, i0));
            }
            return Err(JsonError::ExpectedArray);
        }
        let ghost fv = f.view();
        let ghost rest = result_entries(c, i as int);
        proof {
            assert(result_entries(c, i0) == match result_entry_of(fv) {
                Some(e) => seq![e] + rest,
                None => rest,
            });
        }
        if !f.label.as_str().is_empty() {
            let range = match (f.offset, f.length) {
                (Some(o), Some(l)) => Some((o, l)),
                _ => None,
            };
            let d = DecodedValue { label: f.label, value: f.value, range, color_index: None };
            proof {
                let e = result_entry_of(fv).unwrap();
                assert(got.push(e) + rest =~= got + (seq![e] + rest));
                assert forall|k: int| 0 <= k < results@.push(d).len() implies {
                    &&& #[trigger] results@.push(d)[k].label@ == got.push(e)[k].0
                    &&& results@.push(d)[k].value@ == got.push(e)[k].1
                    &&& results@.push(d)[k].range == got.push(e)[k].2
                    &&& results@.push(d)[k].color_index is None
                } by {
                    if k < results@.len() {
                        assert(results@.push(d)[k] == results@[k]);
                        assert(got.push(e)[k] == got[k]);
                        assert(results@[k].label@ == got[k].0);
                    } else {
                        assert(results@.push(d)[k] == d);
                        assert(got.push(e)[k] == e);
                    }
                }
                got = got.push(e);
            }
            results.push(d);
        }
    }
    Ok(results)
}

/// The members of a parameter object read so far: name, type name, default,
/// and the choices collected from its arrays.
pub type ParamFields = (Seq<char>, Seq<char>, Seq<char>, Seq<Seq<char>>);

/// No members read yet: the type name defaults to `string`.
pub open spec fn no_param_fields() -> ParamFields {
    (Seq::empty(), "string"@, Seq::empty(), Seq::empty())
}

/// Records a string member: `name`, `type` and `default` are kept.
pub open spec fn set_param_field(f: ParamFields, key: Seq<char>, v: Seq<char>) -> ParamFields {
    if key == "name"@ {
        (v, f.1, f.2, f.3)
    } else if key == "type"@ {
        (f.0, v, f.2, f.3)
    } else if key == "default"@ {
        (f.0, f.1, v, f.3)
    } else {
        f
    }
}

/// Reads the strings of an array from `i` up to its `]`, after `acc`.
pub open spec fn choice_items(c: Seq<char>, i: int, acc: Seq<Seq<char>>) -> (Seq<Seq<char>>, int)
    decreases c.len() - i,
{
    if i < 0 || i >= c.len() || c[i] == ']' {
        (acc, i)
    } else {
        let j = skip_ws_comma_spec(c, i, c.len() as int);
        if j < c.len() && c[j] == '"' {
            let (t, m) = string_at(c, j);
            if i < m <= c.len() {
                choice_items(c, m, acc.push(t))
            } else {
                (acc.push(t), m)
            }
        } else if j < c.len() && c[j] != ']' {
            if i < j + 1 <= c.len() {
                choice_items(c, j + 1, acc)
            } else {
                (acc, j + 1)
            }
        } else {
            (acc, j)
        }
    }
}

/// Reads one member of a parameter object at `i`. Strings set a field; any
/// array, whatever its key, adds its strings to the choices; other values are
/// skipped.
pub open spec fn param_member(c: Seq<char>, i: int, f: ParamFields) -> (ParamFields, int) {
    let (key, j) = string_at(c, i);
    let k = skip_colon_ws(c, j);
    if k < c.len() && c[k] == '"' {
        let (v, m) = string_at(c, k);
        (set_param_field(f, key, v), m)
    } else if k < c.len() && c[k] == '[' {
        let (cs, m) = choice_items(c, k + 1, f.3);
        let m2 = if m < c.len() {
            m + 1
        } else {
            m
        };
        ((f.0, f.1, f.2, cs), m2)
    } else {
        (f, skip_to_delim(c, k))
    }
}

/// Reads members from `i` up to the closing `}` (or the end).
pub open spec fn param_members(c: Seq<char>, i: int, f: ParamFields) -> (ParamFields, int)
    decreases c.len() - i,
{
    if i < 0 || i >= c.len() || c[i] == '}' {
        (f, i)
    } else {
        let j = skip_ws_comma_spec(c, i, c.len() as int);
        if j >= c.len() || c[j] == '}' {
            (f, j)
        } else {
            let (g, m) = param_member(c, j, f);
            if i < m <= c.len() {
                param_members(c, m, g)
            } else {
                (g, m)
            }
        }
    }
}

/// The parameters declared by the objects from position `i` of an array text
/// `c`; objects without a name declare nothing.
pub open spec fn param_entries(c: Seq<char>, i: int) -> Seq<ParamFields>
    decreases c.len() - i,
{
    let len = c.len() as int;
    if i < 0 || i >= len - 1 {
        Seq::empty()
    } else {
        let j = skip_ws_comma_spec(c, i, len);
        if j >= len - 1 || c[j] == ']' {
            Seq::empty()
        } else if c[j] != '{' {
            if i < j + 1 <= len {
                param_entries(c, j + 1)
            } else {
                Seq::empty()
            }
        } else {
            let (f, m) = param_members(c, j + 1, no_param_fields());
            let m2 = if m < len && c[m] == '}' {
                m + 1
            } else {
                m
            };
            let rest = if i < m2 <= len {
                param_entries(c, m2)
            } else {
                Seq::empty()
            };
            if f.0.len() == 0 {
                rest
            } else {
                seq![f] + rest
            }
        }
    }
}

/// Whether every object from position `i` of an array text `c` is closed by
/// its `}`, read the way [`param_entries`] reads them.
pub open spec fn params_closed(c: Seq<char>, i: int) -> bool
    decreases c.len() - i,
{
    let len = c.len() as int;
    if i < 0 || i >= len - 1 {
        true
    } else {
        let j = skip_ws_comma_spec(c, i, len);
        if j >= len - 1 || c[j] == ']' {
            true
        } else if c[j] != '{' {
            if i < j + 1 <= len {
                params_closed(c, j + 1)
            } else {
                true
            }
        } else {
            let m = param_members(c, j + 1, no_param_fields()).1;
            if m < len && c[m] == '}' {
                if i < m + 1 <= len {
                    params_closed(c, m + 1)
                } else {
                    true
                }
            } else {
                false
            }
        }
    }
}

/// The declarations `parse_param_definitions` reads from a text: none for an
/// empty text, `[]`, a text not bracketed by `[` and `]`, or one holding an
/// object that is never closed.
pub open spec fn parse_params_spec(text: Seq<char>) -> Seq<ParamFields> {
    let t = trimmed(text);
    if t.len() == 0 || t == "[]"@ || t[0] != '[' || t.last() != ']' || !params_closed(t, 1) {
        Seq::empty()
    } else {
        param_entries(t, 1)
    }
}

/// Whether `p` is the parameter declared by the members `f`.
pub open spec fn param_matches(p: DecoderParam, f: ParamFields) -> bool {
    &&& p.name@ == f.0
    &&& p.default@ == f.2
    &&& p.value@ == f.2
    &&& param_type_for(p.param_type, f.1, f.3)
}

/// Whether `v` holds the parameters declared by `w`, in order.
pub open spec fn params_match(v: Seq<DecoderParam>, w: Seq<ParamFields>) -> bool {
    &&& v.len() == w.len()
    &&& forall|k: int| 0 <= k < v.len() ==> param_matches(#[trigger] v[k], w[k])
}

proof fn lemma_choice_items(c: Seq<char>, i: int, acc: Seq<Seq<char>>)
    requires
        0 <= i <= c.len(),
    ensures
        i <= choice_items(c, i, acc).1 <= c.len(),
    decreases c.len() - i,
{
    if i < c.len() && c[i] != ']' {
        lemma_skip_ws_comma(c, i, c.len() as int);
        let j = skip_ws_comma_spec(c, i, c.len() as int);
        if j < c.len() && c[j] == '"' {
            lemma_string_at_progress(c, j);
            let (t, m) = string_at(c, j);
            lemma_choice_items(c, m, acc.push(t));
        } else if j < c.len() && c[j] != ']' {
            lemma_choice_items(c, j + 1, acc);
        }
    }
}

proof fn lemma_param_member(c: Seq<char>, i: int, f: ParamFields)
    requires
        0 <= i < c.len(),
    ensures
        i < param_member(c, i, f).1 <= c.len(),
{
    lemma_string_at_progress(c, i);
    let j = string_at(c, i).1;
    lemma_skip_colon_ws(c, j);
    let k = skip_colon_ws(c, j);
    if k < c.len() && c[k] == '"' {
        lemma_string_at_progress(c, k);
    } else if k < c.len() && c[k] == '[' {
        lemma_choice_items(c, k + 1, f.3);
    } else {
        lemma_skip_to_delim(c, k);
    }
}

proof fn lemma_param_members(c: Seq<char>, i: int, f: ParamFields)
    requires
        0 <= i <= c.len(),
    ensures
        i <= param_members(c, i, f).1 <= c.len(),
    decreases c.len() - i,
{
    if i < c.len() && c[i] != '}' {
        lemma_skip_ws_comma(c, i, c.len() as int);
        let j = skip_ws_comma_spec(c, i, c.len() as int);
        if j < c.len() && c[j] != '}' {
            lemma_param_member(c, j, f);
            let (g, m) = param_member(c, j, f);
            lemma_param_members(c, m, g);
        }
    }
}

/// The members of a parameter object as they are read.
struct ParamFieldsExec {
    name: String,
    kind: String,
    default: String,
    choices: Vec<String>,
}

impl ParamFieldsExec {
    spec fn view(&self) -> ParamFields {
        (self.name@, self.kind@, self.default@, string_views(self.choices@))
    }
}

/// Reads the strings of an array, from just after its `[` to its `]`.
fn read_choices(chars: &[char], i: &mut usize, choices: &mut Vec<String>)
    requires
        *old(i) <= chars@.len(),
    ensures
        (string_views(final(choices)@), *final(i) as int) == choice_items(
            chars@,
            *old(i) as int,
            string_views(old(choices)@),
        ),
{
    let ghost c = chars@;
    let ghost want = choice_items(c, *i as int, string_views(choices@));
    let len = chars.len();
    while *i < len && chars[*i] != ']'
        invariant
            len == c.len(),
            c == chars@,
            *i <= len,
            choice_items(c, *i as int, string_views(choices@)) == want,
            want == choice_items(c, *old(i) as int, string_views(old(choices)@)),
        decreases len - *i,
    {
        let ghost i0 = *i as int;
        let ghost acc = string_views(choices@);
        skip_ws_comma(chars, i, len);
        proof {
            lemma_skip_ws_comma(c, i0, len as int);
        }
        if *i < len && chars[*i] == '"' {
            let ghost j = *i as int;
            proof {
                lemma_string_at_progress(c, j);
            }
            let t = parse_json_string(chars, i);
            let ghost tv = t@;
            choices.push(t);
            proof {
                assert(string_views(choices@) =~= acc.push(tv));
            }
        } else if *i < len && chars[*i] != ']' {
            *i = *i + 1;
        } else {
            proof {
                assert(choice_items(c, i0, acc) == (acc, *i as int));
            }
            return;
        }
    }
}

/// Reads one member of a parameter object.
fn read_param_member(chars: &[char], i: &mut usize, f: &mut ParamFieldsExec)
    requires
        *old(i) < chars@.len(),
    ensures
        (final(f).view(), *final(i) as int) == param_member(chars@, *old(i) as int, old(f).view()),
{
    let ghost c = chars@;
    let ghost i0 = *i as int;
    let key = parse_json_string(chars, i);
    proof {
        lemma_string_at_progress(c, i0);
    }
    skip_colons(chars, i);
    proof {
        lemma_skip_colon_ws(c, string_at(c, i0).1);
    }
    if *i < chars.len() && chars[*i] == '"' {
        let val = parse_json_string(chars, i);
        if str_eq(key.as_str(), "name") {
            f.name = val;
        } else if str_eq(key.as_str(), "type") {
            f.kind = val;
        } else if str_eq(key.as_str(), "default") {
            f.default = val;
        }
    } else if *i < chars.len() && chars[*i] == '[' {
        *i = *i + 1;
        let ghost k1 = *i as int;
        read_choices(chars, i, &mut f.choices);
        proof {
            lemma_choice_items(c, k1, old(f).view().3);
        }
        if *i < chars.len() {
            *i = *i + 1;
        }
    } else {
        skip_value(chars, i);
    }
}

/// Reads the members of a parameter object from `*i` up to its `}`.
fn read_param_members(chars: &[char], i: &mut usize, f: &mut ParamFieldsExec)
    requires
        *old(i) <= chars@.len(),
    ensures
        (final(f).view(), *final(i) as int) == param_members(chars@, *old(i) as int, old(f).view()),
{
    let ghost c = chars@;
    let ghost want = param_members(c, *i as int, f.view());
    let len = chars.len();
    while *i < len && chars[*i] != '}'
        invariant
            len == c.len(),
            c == chars@,
            *i <= len,
            param_members(c, *i as int, f.view()) == want,
            want == param_members(c, *old(i) as int, old(f).view()),
        decreases len - *i,
    {
        let ghost i0 = *i as int;
        skip_ws_comma(chars, i, len);
        proof {
            lemma_skip_ws_comma(c, i0, len as int);
        }
        if *i >= len || chars[*i] == '}' {
            proof {
                assert(param_members(c, i0, f.view()) == (f.view(), *i as int));
            }
            return;
        }
        proof {
            lemma_param_member(c, *i as int, f.view());
        }
        let ghost before = f.view();
        let ghost j = *i as int;
        read_param_member(chars, i, f);
        proof {
            assert(param_member(c, j, before) == (f.view(), *i as int));
            assert(param_members(c, i0, before) == param_members(c, *i as int, f.view()));
        }
    }
}

/// Parses the parameter declarations a WASM decoder's `params()` export
/// returns: a JSON array of `{"name","type","default","choices"}` objects.
/// Declarations without a name are dropped; text that is empty, `[]` or not an
/// array declares nothing.
pub fn parse_param_definitions(json: &str) -> (r: Vec<DecoderParam>)
    ensures
        params_match(r@, parse_params_spec(json@)),
{
    let all = chars_of(json);
    let chars = trim_chars(&all);
    let len = chars.len();
    let ghost c = chars@;
    let mut params: Vec<DecoderParam> = Vec::new();
    proof {
        reveal_strlit("[]");
    }
    if len == 0 {
        return params;
    }
    if len == 2 && chars[0] == '[' && chars[1] == ']' {
        proof {
            assert(c =~= "[]"@);
        }
        return params;
    }
    proof {
        if c == "[]"@ {
            assert(c[0] == '[' && c[1] == ']');
        }
    }
    if chars[0] != '[' || chars[len - 1] != ']' {
        return params;
    }
    proof {
        assert(len >= 2);
    }
    let ghost mut got: Seq<ParamFields> = Seq::empty();
    let mut i: usize = 1;
    while i < len - 1
        invariant_except_break
            1 <= i <= len,
            got + param_entries(c, i as int) == param_entries(c, 1),
            params_closed(c, i as int) == params_closed(c, 1),
        invariant
            len == c.len(),
            len >= 2,
            c == chars@,
            c[0] == '[',
            c[len - 1] == ']',
            c == trimmed(json@),
            c != "[]"@,
            params_match(params@, got),
        ensures
            got == param_entries(c, 1),
            params_closed(c, 1),
        decreases len - i,
    {
        let ghost i0 = i as int;
        skip_ws_comma(chars.as_slice(), &mut i, len);
        proof {
            lemma_skip_ws_comma(c, i0, len as int);
        }
        if i >= len - 1 || chars[i] == ']' {
            proof {
                assert(param_entries(c, i0) == Seq::<ParamFields>::empty());
                assert(params_closed(c, i0));
                assert(got + Seq::<ParamFields>::empty() =~= got);
            }
            break;
        }
        if chars[i] != '{' {
            proof {
                assert(param_entries(c, i0) == param_entries(c, i + 1));
                assert(params_closed(c, i0) == params_closed(c, i + 1));
            }
            i = i + 1;
            continue;
        }
        i = i + 1;
        let ghost j1 = i as int;
        let mut f = ParamFieldsExec {
            name: String::new(),
            kind: String::from_str("string"),
            default: String::new(),
            choices: Vec::new(),
        };
        proof {
            assert(string_views(f.choices@) =~= Seq::<Seq<char>>::empty());
            assert(f.view() == no_param_fields());
        }
        read_param_members(chars.as_slice(), &mut i, &mut f);
        proof {
            lemma_param_members(c, j1, no_param_fields());
        }
        if i < len && chars[i] == '}' {
            proof {
                assert(params_closed(c, i0) == params_closed(c, i + 1));
            }
            i = i + 1;
        } else {
            proof {
                assert(!params_closed(c, i0));
            }
            return Vec::new();
        }
        let ghost fv = f.view();
        let ghost rest = param_entries(c, i as int);
        proof {
            assert(param_entries(c, i0) == if fv.0.len() == 0 {
                rest
            } else {
                seq![fv] + rest
            });
        }
        match make_param(f.name, f.kind.as_str(), f.default, f.choices) {
            Some(p) => {
                proof {
                    assert(got.push(fv) + rest =~= got + (seq![fv] + rest));
                    assert forall|k: int| 0 <= k < params@.push(p).len() implies param_matches(
                        #[trigger] params@.push(p)[k],
                        got.push(fv)[k],
                    ) by {
                        if k < params@.len() {
                            assert(params@.push(p)[k] == params@[k]);
                            assert(got.push(fv)[k] == got[k]);
                        } else {
                            assert(params@.push(p)[k] == p);
                            assert(got.push(fv)[k] == fv);
                        }
                    }
                    got = got.push(fv);
                }
                params.push(p);
            },
            None => {},
        }
    }
    params
}


/// Characters that a string holds literally: neither a quote nor a backslash.
pub open spec fn plain_text(s: Seq<char>) -> bool {
    forall|k: int| 0 <= k < s.len() ==> s[k] != '"' && s[k] != '\\'
}

/// Characters that are all whitespace.
pub open spec fn all_ws(s: Seq<char>) -> bool {
    forall|k: int| 0 <= k < s.len() ==> is_ws(#[trigger] s[k])
}

/// The answer `[{"label":` `s1` `"x",` `s2` `"value":` `s3` `"v"}]`: one
/// object with a label and a value, with the whitespace `s1` and `s3` after
/// the colons and `s2` after the comma.
pub open spec fn labelled_answer(x: Seq<char>, v: Seq<char>, s1: Seq<char>, s2: Seq<char>, s3: Seq<char>) -> Seq<
    char,
> {
    seq!['[', '{', '"', 'l', 'a', 'b', 'e', 'l', '"', ':'] + s1 + seq!['"'] + x + seq!['"', ','] + s2 + seq![
        '"',
        'v',
        'a',
        'l',
        'u',
        'e',
        '"',
        ':',
    ] + s3 + seq!['"'] + v + seq!['"', '}', ']']
}

proof fn lemma_plain_string_body(c: Seq<char>, j: int, n: int)
    requires
        0 <= j,
        0 <= n,
        j + n < c.len(),
        forall|k: int| j <= k < j + n ==> c[k] != '"' && c[k] != '\\',
        c[j + n] == '"',
    ensures
        string_body(c, j) == (c.subrange(j, j + n), j + n + 1),
    decreases n,
{
    if n > 0 {
        lemma_plain_string_body(c, j + 1, n - 1);
        assert(seq![c[j]] + c.subrange(j + 1, j + n) =~= c.subrange(j, j + n));
    } else {
        assert(c.subrange(j, j) =~= Seq::<char>::empty());
    }
}

proof fn lemma_plain_string_at(c: Seq<char>, q: int, n: int)
    requires
        0 <= q,
        0 <= n,
        q + n + 1 < c.len(),
        c[q] == '"',
        forall|k: int| q + 1 <= k < q + 1 + n ==> c[k] != '"' && c[k] != '\\',
        c[q + 1 + n] == '"',
    ensures
        string_at(c, q) == (c.subrange(q + 1, q + 1 + n), q + n + 2),
{
    assert(find_quote(c, q) == q);
    lemma_plain_string_body(c, q + 1, n);
}

proof fn lemma_colon_ws_run(c: Seq<char>, i: int, n: int)
    requires
        0 <= i,
        0 <= n,
        i + n < c.len(),
        forall|k: int| i <= k < i + n ==> c[k] == ':' || is_ws(c[k]),
        c[i + n] != ':' && !is_ws(c[i + n]),
    ensures
        skip_colon_ws(c, i) == i + n,
    decreases n,
{
    if n > 0 {
        lemma_colon_ws_run(c, i + 1, n - 1);
    }
}

proof fn lemma_ws_comma_run(c: Seq<char>, i: int, n: int, len: int)
    requires
        0 <= i,
        0 <= n,
        i + n < len <= c.len(),
        forall|k: int| i <= k < i + n ==> c[k] == ',' || is_ws(c[k]),
        c[i + n] != ',' && !is_ws(c[i + n]),
    ensures
        skip_ws_comma_spec(c, i, len) == i + n,
    decreases n,
{
    if n > 0 {
        lemma_ws_comma_run(c, i + 1, n - 1, len);
    }
}

proof fn lemma_labelled_answer_layout(x: Seq<char>, v: Seq<char>, s1: Seq<char>, s2: Seq<char>, s3: Seq<char>)
    ensures
        ({
            let t = labelled_answer(x, v, s1, s2, s3);
            let pb: int = 10 + s1.len() as int;
            let pc: int = pb + 1 + x.len();
            let pd: int = pc + 2 + s2.len();
            let pe: int = pd + 8 + s3.len();
            let pf: int = pe + 1 + v.len();
            &&& t.len() == pf + 3
            &&& t.subrange(0, 10) == seq!['[', '{', '"', 'l', 'a', 'b', 'e', 'l', '"', ':']
            &&& t.subrange(10, pb) == s1
            &&& t[pb] == '"'
            &&& t.subrange(pb + 1, pc) == x
            &&& t[pc] == '"'
            &&& t[pc + 1] == ','
            &&& t.subrange(pc + 2, pd) == s2
            &&& t.subrange(pd, pd + 8) == seq!['"', 'v', 'a', 'l', 'u', 'e', '"', ':']
            &&& t.subrange(pd + 8, pe) == s3
            &&& t[pe] == '"'
            &&& t.subrange(pe + 1, pf) == v
            &&& t[pf] == '"'
            &&& t[pf + 1] == '}'
            &&& t[pf + 2] == ']'
        }),
{
    let a = seq!['[', '{', '"', 'l', 'a', 'b', 'e', 'l', '"', ':'];
    let d = seq!['"', 'v', 'a', 'l', 'u', 'e', '"', ':'];
    let p1 = a + s1;
    let p2 = p1 + seq!['"'];
    let p3 = p2 + x;
    let p4 = p3 + seq!['"', ','];
    let p5 = p4 + s2;
    let p6 = p5 + d;
    let p7 = p6 + s3;
    let p8 = p7 + seq!['"'];
    let p9 = p8 + v;
    let t = p9 + seq!['"', '}', ']'];
    assert(t == labelled_answer(x, v, s1, s2, s3));
    assert(t.subrange(0, 10) =~= a);
    assert(t.subrange(10, p1.len() as int) =~= s1);
    assert(t.subrange(p2.len() as int, p3.len() as int) =~= x);
    assert(t.subrange(p4.len() as int, p5.len() as int) =~= s2);
    assert(t.subrange(p5.len() as int, p6.len() as int) =~= d);
    assert(t.subrange(p6.len() as int, p7.len() as int) =~= s3);
    assert(t.subrange(p8.len() as int, p9.len() as int) =~= v);
}

/// Where the parts of a [`labelled_answer`] stand in it.
pub open spec fn answer_layout(t: Seq<char>, x: Seq<char>, v: Seq<char>, n1: int, n2: int, n3: int) -> bool {
    let pb = 10 + n1;
    let pc = pb + 1 + x.len();
    let pd = pc + 2 + n2;
    let pe = pd + 8 + n3;
    let pf = pe + 1 + v.len();
    &&& 0 <= n1 && 0 <= n2 && 0 <= n3
    &&& t.len() == pf + 3
    &&& t[0] == '[' && t[1] == '{' && t[2] == '"' && t[8] == '"' && t[9] == ':'
    &&& t.subrange(3, 8) == seq!['l', 'a', 'b', 'e', 'l']
    &&& (forall|k: int| 3 <= k < 8 ==> t[k] != '"' && t[k] != '\\')
    &&& (forall|k: int| 10 <= k < pb ==> is_ws(t[k]))
    &&& t[pb] == '"' && t.subrange(pb + 1, pc) == x
    &&& (forall|k: int| pb + 1 <= k < pc ==> t[k] != '"' && t[k] != '\\')
    &&& t[pc] == '"' && t[pc + 1] == ','
    &&& (forall|k: int| pc + 2 <= k < pd ==> is_ws(t[k]))
    &&& t[pd] == '"' && t[pd + 6] == '"' && t[pd + 7] == ':'
    &&& t.subrange(pd + 1, pd + 6) == seq!['v', 'a', 'l', 'u', 'e']
    &&& (forall|k: int| pd + 1 <= k < pd + 6 ==> t[k] != '"' && t[k] != '\\')
    &&& (forall|k: int| pd + 8 <= k < pe ==> is_ws(t[k]))
    &&& t[pe] == '"' && t.subrange(pe + 1, pf) == v
    &&& (forall|k: int| pe + 1 <= k < pf ==> t[k] != '"' && t[k] != '\\')
    &&& t[pf] == '"' && t[pf + 1] == '}' && t[pf + 2] == ']'
}

#[verifier::rlimit(40)]
proof fn lemma_answer_layout(x: Seq<char>, v: Seq<char>, s1: Seq<char>, s2: Seq<char>, s3: Seq<char>)
    requires
        plain_text(x),
        plain_text(v),
        all_ws(s1),
        all_ws(s2),
        all_ws(s3),
    ensures
        answer_layout(labelled_answer(x, v, s1, s2, s3), x, v, s1.len() as int, s2.len() as int, s3.len() as int),
{
    let t = labelled_answer(x, v, s1, s2, s3);
    lemma_labelled_answer_layout(x, v, s1, s2, s3);
    let pb: int = 10 + s1.len() as int;
    let pc: int = pb + 1 + x.len();
    let pd: int = pc + 2 + s2.len();
    let pe: int = pd + 8 + s3.len();
    let pf: int = pe + 1 + v.len();
    let a = t.subrange(0, 10);
    assert(t[0] == a[0] && t[1] == a[1] && t[2] == a[2] && t[8] == a[8] && t[9] == a[9]);
    assert(t.subrange(3, 8) =~= a.subrange(3, 8));
    assert(a.subrange(3, 8) =~= seq!['l', 'a', 'b', 'e', 'l']);
    assert forall|k: int| 3 <= k < 8 implies t[k] != '"' && t[k] != '\\' by {
        assert(t[k] == a[k]);
    }
    assert forall|k: int| 10 <= k < pb implies is_ws(t[k]) by {
        assert(t[k] == t.subrange(10, pb as int)[k - 10]);
    }
    assert forall|k: int| pb + 1 <= k < pc implies t[k] != '"' && t[k] != '\\' by {
        assert(t[k] == t.subrange(pb + 1, pc as int)[k - pb - 1]);
    }
    assert forall|k: int| pc + 2 <= k < pd implies is_ws(t[k]) by {
        assert(t[k] == t.subrange(pc + 2, pd as int)[k - pc - 2]);
    }
    let d = t.subrange(pd as int, pd + 8);
    assert(t[pd as int] == d[0] && t[pd + 6] == d[6] && t[pd + 7] == d[7]);
    assert(t.subrange(pd + 1, pd + 6) =~= d.subrange(1, 6));
    assert(d.subrange(1, 6) =~= seq!['v', 'a', 'l', 'u', 'e']);
    assert forall|k: int| pd + 1 <= k < pd + 6 implies t[k] != '"' && t[k] != '\\' by {
        assert(t[k] == d[k - pd]);
    }
    assert forall|k: int| pd + 8 <= k < pe implies is_ws(t[k]) by {
        assert(t[k] == t.subrange(pd + 8, pe as int)[k - pd - 8]);
    }
    assert forall|k: int| pe + 1 <= k < pf implies t[k] != '"' && t[k] != '\\' by {
        assert(t[k] == t.subrange(pe + 1, pf as int)[k - pe - 1]);
    }
}

#[verifier::rlimit(40)]
proof fn lemma_answer_members(t: Seq<char>, x: Seq<char>, v: Seq<char>, n1: int, n2: int, n3: int)
    requires
        answer_layout(t, x, v, n1, n2, n3),
    ensures
        result_members(t, 2, no_result_fields()) == ((x, v, None::<usize>, None::<usize>), 10 + n1 + 1 + x.len()
            + 2 + n2 + 8 + n3 + 1 + v.len() + 1),
{
    reveal_strlit("label");
    reveal_strlit("value");
    let pb = 10 + n1;
    let pc = pb + 1 + x.len();
    let pd = pc + 2 + n2;
    let pe = pd + 8 + n3;
    let pf = pe + 1 + v.len();
    let len = pf + 3;
    lemma_plain_string_at(t, 2, 5);
    assert(t.subrange(3, 8) =~= "label"@);
    lemma_colon_ws_run(t, 9, 1 + n1);
    lemma_plain_string_at(t, pb, x.len() as int);
    let f0 = no_result_fields();
    let f1 = set_string_field(f0, "label"@, x);
    assert(result_member(t, 2, f0) == (f1, pc + 1));
    lemma_ws_comma_run(t, pc + 1, 1 + n2, len);
    lemma_plain_string_at(t, pd, 5);
    assert(t.subrange(pd + 1, pd + 6) =~= "value"@);
    lemma_colon_ws_run(t, pd + 7, 1 + n3);
    lemma_plain_string_at(t, pe, v.len() as int);
    let f2 = set_string_field(f1, "value"@, v);
    assert(f2 == (x, v, None::<usize>, None::<usize>));
    assert(result_member(t, pd, f1) == (f2, pf + 1));
    assert(result_members(t, pf + 1, f2) == (f2, pf + 1));
    assert(skip_ws_comma_spec(t, 2, len) == 2);
    assert(result_members(t, pc + 1, f1) == (f2, pf + 1));
    assert(result_members(t, 2, f0) == (f2, pf + 1));
}

/// Whitespace after a member's colon, or after the comma between members,
/// changes nothing: an answer with one object holding a label and a value
/// reads as that one field, with no range, whatever whitespace stands there
/// (none included).
pub proof fn lemma_whitespace_after_colon_reads_alike(
    x: Seq<char>,
    v: Seq<char>,
    s1: Seq<char>,
    s2: Seq<char>,
    s3: Seq<char>,
)
    requires
        x.len() > 0,
        plain_text(x),
        plain_text(v),
        all_ws(s1),
        all_ws(s2),
        all_ws(s3),
    ensures
        parse_results_spec(labelled_answer(x, v, s1, s2, s3)) == Ok::<Seq<ResultEntry>, JsonError>(
            seq![(x, v, None::<(usize, usize)>)],
        ),
{
    let t = labelled_answer(x, v, s1, s2, s3);
    lemma_answer_layout(x, v, s1, s2, s3);
    lemma_answer_read(t, x, v, s1.len() as int, s2.len() as int, s3.len() as int);
}

#[verifier::rlimit(40)]
proof fn lemma_answer_read(t: Seq<char>, x: Seq<char>, v: Seq<char>, n1: int, n2: int, n3: int)
    requires
        x.len() > 0,
        answer_layout(t, x, v, n1, n2, n3),
    ensures
        parse_results_spec(t) == Ok::<Seq<ResultEntry>, JsonError>(seq![(x, v, None::<(usize, usize)>)]),
{
    reveal_strlit("[]");
    let pf = 10 + n1 + 1 + x.len() + 2 + n2 + 8 + n3 + 1 + v.len();
    let len = pf + 3;
    lemma_answer_members(t, x, v, n1, n2, n3);
    let f2 = (x, v, None::<usize>, None::<usize>);
    assert(trim_start(t) == t);
    assert(trim_end(t) == t);
    assert(trimmed(t) == t);
    assert(t != "[]"@) by {
        assert(t.len() != 2);
    }
    assert(skip_ws_comma_spec(t, 1, len) == 1);
    assert(results_closed(t, pf + 2));
    assert(results_closed(t, 1));
    assert(result_entries(t, pf + 2) == Seq::<ResultEntry>::empty());
    assert(result_entry_of(f2) == Some((x, v, None::<(usize, usize)>)));
    assert(result_entries(t, 1) =~= seq![(x, v, None::<(usize, usize)>)]);
}

} // verus!

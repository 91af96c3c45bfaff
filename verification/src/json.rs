//! A small JSON text layer: escaping of string contents, and reading of the
//! JSON documents this crate exchanges.
//!
//! The writer produces compact documents. The readers walk a JSON object
//! field by field, accepting blanks, any field order and unknown fields;
//! an unknown field's value is passed over by structure (strings by their
//! escapes, brackets by matching) rather than fully validated. The string
//! parser accepts the escapes the writer emits (`\"`, `\\` and `\u00XX`)
//! and is proved to invert the writer exactly.

use vstd::prelude::*;

verus! {

/// Relies on std's `String::push`: appends the character to the string.
#[verifier::external_body]
pub(crate) fn push_char(s: &mut String, c: char)
    ensures
        final(s)@ == old(s)@.push(c),
{
    s.push(c);
}

/// The lower-case hexadecimal digit for `n` (meaningful for `0 <= n < 16`).
pub open spec fn spec_hex_char(n: int) -> char {
    if n < 10 {
        (48 + n) as char
    } else {
        (87 + n) as char
    }
}

/// The value of a hexadecimal digit, or -1 for any other character.
pub open spec fn spec_hex_val(c: char) -> int {
    let u = c as u32;
    if 48 <= u <= 57 {
        u - 48
    } else if 97 <= u <= 102 {
        u - 87
    } else if 65 <= u <= 70 {
        u - 55
    } else {
        -1
    }
}

/// How one character is written inside a JSON string: quote and backslash get
/// a backslash escape, control characters a `\u00XX` escape, and every other
/// character stands for itself.
pub open spec fn spec_escape_char(c: char) -> Seq<char> {
    if c == '"' {
        seq!['\\', '"']
    } else if c == '\\' {
        seq!['\\', '\\']
    } else if (c as u32) < 32 {
        seq![
            '\\',
            'u',
            '0',
            '0',
            spec_hex_char((c as u32) as int / 16),
            spec_hex_char((c as u32) as int % 16),
        ]
    } else {
        seq![c]
    }
}

/// The escaped form of a whole string.
pub open spec fn spec_escape(s: Seq<char>) -> Seq<char>
    decreases s.len(),
{
    if s.len() == 0 {
        Seq::empty()
    } else {
        spec_escape_char(s[0]) + spec_escape(s.drop_first())
    }
}

/// Reads a JSON string body up to and over its closing quote: `s` is the text
/// after the opening quote. On success yields the unescaped contents and the
/// text after the closing quote.
pub open spec fn spec_str_body(s: Seq<char>) -> Option<(Seq<char>, Seq<char>)>
    decreases s.len(),
{
    if s.len() == 0 {
        None
    } else if s[0] == '"' {
        Some((Seq::empty(), s.drop_first()))
    } else if s[0] == '\\' {
        if s.len() < 2 {
            None
        } else if s[1] == '"' || s[1] == '\\' {
            match spec_str_body(s.skip(2)) {
                Some(p) => Some((seq![s[1]] + p.0, p.1)),
                None => None,
            }
        } else if s[1] == 'u' {
            if s.len() >= 6 && s[2] == '0' && s[3] == '0' && spec_hex_val(s[4]) >= 0
                && spec_hex_val(s[5]) >= 0 {
                match spec_str_body(s.skip(6)) {
                    Some(p) => Some(
                        (seq![(16 * spec_hex_val(s[4]) + spec_hex_val(s[5])) as char] + p.0, p.1),
                    ),
                    None => None,
                }
            } else {
                None
            }
        } else {
            None
        }
    } else {
        match spec_str_body(s.drop_first()) {
            Some(p) => Some((seq![s[0]] + p.0, p.1)),
            None => None,
        }
    }
}

/// Appends the escaped form of `s` to `out`.
pub fn escape_onto(out: &mut String, s: &str)
    ensures
        final(out)@ == old(out)@ + spec_escape(s@),
{
    let n = s.unicode_len();
    proof {
        assert(s@.skip(0) =~= s@);
    }
    let mut i: usize = 0;
    while i < n
        invariant
            n == s@.len(),
            0 <= i <= n,
            out@ + spec_escape(s@.skip(i as int)) == old(out)@ + spec_escape(s@),
        decreases n - i,
    {
        proof {
            assert(s@.skip(i as int)[0] == s@[i as int]);
            assert(s@.skip(i as int).drop_first() =~= s@.skip(i as int + 1));
        }
        let ghost prev = out@;
        let c = s.get_char(i);
        let u = c as u32;
        if c == '"' {
            push_char(out, '\\');
            push_char(out, '"');
        } else if c == '\\' {
            push_char(out, '\\');
            push_char(out, '\\');
        } else if u < 32 {
            push_char(out, '\\');
            push_char(out, 'u');
            push_char(out, '0');
            push_char(out, '0');
            push_char(out, hex_char(u / 16));
            push_char(out, hex_char(u % 16));
        } else {
            push_char(out, c);
        }
        proof {
            assert(out@ =~= prev + spec_escape_char(s@[i as int]));
            assert(out@ + spec_escape(s@.skip(i as int + 1)) =~= prev + spec_escape(
                s@.skip(i as int),
            ));
        }
        i = i + 1;
    }
    proof {
        assert(s@.skip(n as int) =~= Seq::<char>::empty());
        assert(out@ + spec_escape(s@.skip(n as int)) =~= out@);
    }
}

fn hex_char(n: u32) -> (c: char)
    requires
        n < 16,
    ensures
        c == spec_hex_char(n as int),
{
    if n < 10 {
        ((48 + n) as u8) as char
    } else {
        ((87 + n) as u8) as char
    }
}

/// Parses a JSON string body of `s` starting at `start` (just after the
/// opening quote), per `spec_str_body`. On success returns the unescaped
/// contents and the index just after the closing quote.
pub fn parse_str_body(s: &str, start: usize) -> (r: Option<(String, usize)>)
    requires
        start <= s@.len(),
    ensures
        match r {
            Some(p) => start <= p.1 <= s@.len() && spec_str_body(s@.skip(start as int)) == Some(
                (p.0@, s@.skip(p.1 as int)),
            ),
            None => spec_str_body(s@.skip(start as int)) is None,
        },
{
    let n = s.unicode_len();
    let mut acc = String::new();
    let mut i: usize = start;
    loop
        invariant
            n == s@.len(),
            start <= i <= n,
            spec_str_body(s@.skip(start as int)) == spec_glue(acc@, spec_str_body(s@.skip(i as int))),
        decreases n - i,
    {
        if i >= n {
            return None;
        }
        proof {
            assert(s@.skip(i as int)[0] == s@[i as int]);
            assert(s@.skip(i as int).drop_first() =~= s@.skip(i as int + 1));
        }
        let ghost prev = acc@;
        let c = s.get_char(i);
        if c == '"' {
            proof {
                assert(spec_str_body(s@.skip(i as int)) == Some(
                    (Seq::<char>::empty(), s@.skip(i as int + 1)),
                ));
                assert(prev + Seq::<char>::empty() =~= prev);
            }
            return Some((acc, i + 1));
        } else if c == '\\' {
            if i + 1 >= n {
                return None;
            }
            let c2 = s.get_char(i + 1);
            if c2 == '"' || c2 == '\\' {
                push_char(&mut acc, c2);
                proof {
                    assert(s@.skip(i as int).skip(2) =~= s@.skip(i as int + 2));
                    lemma_glue_assoc(prev, seq![c2], spec_str_body(s@.skip(i as int + 2)));
                    assert(prev.push(c2) =~= prev + seq![c2]);
                }
                i = i + 2;
            } else if c2 == 'u' {
                if n - i < 6 {
                    return None;
                }
                if s.get_char(i + 2) != '0' || s.get_char(i + 3) != '0' {
                    return None;
                }
                let h1 = hex_val(s.get_char(i + 4));
                let h2 = hex_val(s.get_char(i + 5));
                if h1 < 0 || h2 < 0 {
                    return None;
                }
                let code: i32 = 16 * h1 + h2;
                let ch = (code as u8) as char;
                push_char(&mut acc, ch);
                proof {
                    assert(s@.skip(i as int).skip(6) =~= s@.skip(i as int + 6));
                    lemma_glue_assoc(prev, seq![ch], spec_str_body(s@.skip(i as int + 6)));
                    assert(prev.push(ch) =~= prev + seq![ch]);
                }
                i = i + 6;
            } else {
                return None;
            }
        } else {
            push_char(&mut acc, c);
            proof {
                lemma_glue_assoc(prev, seq![c], spec_str_body(s@.skip(i as int + 1)));
                assert(prev.push(c) =~= prev + seq![c]);
            }
            i = i + 1;
        }
    }
}

fn hex_val(c: char) -> (r: i32)
    ensures
        r == spec_hex_val(c),
{
    let u = c as u32;
    if 48 <= u && u <= 57 {
        (u - 48) as i32
    } else if 97 <= u && u <= 102 {
        (u - 87) as i32
    } else if 65 <= u && u <= 70 {
        (u - 55) as i32
    } else {
        -1
    }
}

/// Prepends already-read contents to the outcome of reading the rest.
spec fn spec_glue(acc: Seq<char>, r: Option<(Seq<char>, Seq<char>)>) -> Option<
    (Seq<char>, Seq<char>),
> {
    match r {
        Some(p) => Some((acc + p.0, p.1)),
        None => None,
    }
}

proof fn lemma_glue_assoc(acc: Seq<char>, mid: Seq<char>, r: Option<(Seq<char>, Seq<char>)>)
    ensures
        spec_glue(acc + mid, r) == spec_glue(acc, spec_glue(mid, r)),
{
    match r {
        Some(p) => {
            assert((acc + mid) + p.0 =~= acc + (mid + p.0));
        },
        None => {},
    }
}

/// Reading a string body inverts escaping: the escaped text, a closing quote
/// and anything after parse back to the original contents and that remainder.
pub proof fn lemma_escape_round_trip(s: Seq<char>, rest: Seq<char>)
    ensures
        spec_str_body(spec_escape(s) + seq!['"'] + rest) == Some((s, rest)),
    decreases s.len(),
{
    let t = spec_escape(s) + seq!['"'] + rest;
    if s.len() == 0 {
        assert(t =~= seq!['"'] + rest);
        assert(t[0] == '"');
        assert(t.drop_first() =~= rest);
    } else {
        let c = s[0];
        let s2 = s.drop_first();
        let t2 = spec_escape(s2) + seq!['"'] + rest;
        lemma_escape_round_trip(s2, rest);
        assert(spec_escape(s) == spec_escape_char(c) + spec_escape(s2));
        if c == '"' {
            assert(t =~= seq!['\\', '"'] + t2);
            assert(t[0] == '\\' && t[1] == '"');
            assert(t.skip(2) =~= t2);
            assert(seq![c] + s2 =~= s);
        } else if c == '\\' {
            assert(t =~= seq!['\\', '\\'] + t2);
            assert(t[0] == '\\' && t[1] == '\\');
            assert(t.skip(2) =~= t2);
            assert(seq![c] + s2 =~= s);
        } else if (c as u32) < 32 {
            let uv = c as u32;
            let u = uv as int;
            let h1 = spec_hex_char(u / 16);
            let h2 = spec_hex_char(u % 16);
            assert(t =~= seq!['\\', 'u', '0', '0', h1, h2] + t2);
            assert(t[0] == '\\' && t[1] == 'u' && t[2] == '0' && t[3] == '0');
            lemma_hex_round_trip(u / 16);
            lemma_hex_round_trip(u % 16);
            assert(t[4] == h1 && t[5] == h2);
            assert(16 * spec_hex_val(h1) + spec_hex_val(h2) == u);
            assert(t.skip(6) =~= t2);
            vstd::utf8::char_u32_cast(c, uv);
            assert((16 * spec_hex_val(t[4]) + spec_hex_val(t[5])) as char == c);
            assert(seq![c] + s2 =~= s);
        } else {
            assert(t[0] == c);
            assert(t.drop_first() =~= t2);
            assert(seq![c] + s2 =~= s);
        }
    }
}

proof fn lemma_hex_round_trip(n: int)
    requires
        0 <= n < 16,
    ensures
        spec_hex_val(spec_hex_char(n)) == n,
{
    if n < 10 {
        assert(spec_hex_char(n) as u32 == 48 + n);
    } else {
        assert(spec_hex_char(n) as u32 == 87 + n);
    }
}

/// The value of a decimal digit, or -1 for any other character.
pub open spec fn spec_digit_val(c: char) -> int {
    let u = c as u32;
    if 48 <= u <= 57 {
        u - 48
    } else {
        -1
    }
}

/// The length of the leading run of decimal digits.
pub open spec fn spec_digit_run(s: Seq<char>) -> int
    decreases s.len(),
{
    if s.len() > 0 && spec_digit_val(s[0]) >= 0 {
        1 + spec_digit_run(s.drop_first())
    } else {
        0
    }
}

/// The number a digit string denotes, read left to right onto `acc`.
pub open spec fn spec_digits_val(s: Seq<char>, acc: int) -> int
    decreases s.len(),
{
    if s.len() == 0 {
        acc
    } else {
        spec_digits_val(s.drop_first(), acc * 10 + spec_digit_val(s[0]))
    }
}

/// Ten to the `n`.
spec fn spec_pow10(n: nat) -> int
    decreases n,
{
    if n == 0 {
        1
    } else {
        10 * spec_pow10((n - 1) as nat)
    }
}

proof fn lemma_pow10_le(a: nat, b: nat)
    requires
        a <= b,
    ensures
        1 <= spec_pow10(a) <= spec_pow10(b),
    decreases b,
{
    if b == 0 {
    } else if a == b {
        lemma_pow10_le((b - 1) as nat, (b - 1) as nat);
    } else {
        lemma_pow10_le(a, (b - 1) as nat);
    }
}

proof fn lemma_pow10_18()
    ensures
        spec_pow10(18nat) == 1000000000000000000,
{
    assert(spec_pow10(0nat) == 1);
    assert(spec_pow10(1nat) == 10);
    assert(spec_pow10(2nat) == 100);
    assert(spec_pow10(3nat) == 1000);
    assert(spec_pow10(4nat) == 10000);
    assert(spec_pow10(5nat) == 100000);
    assert(spec_pow10(6nat) == 1000000);
    assert(spec_pow10(7nat) == 10000000);
    assert(spec_pow10(8nat) == 100000000);
    assert(spec_pow10(9nat) == 1000000000);
    assert(spec_pow10(10nat) == 10000000000);
    assert(spec_pow10(11nat) == 100000000000);
    assert(spec_pow10(12nat) == 1000000000000);
    assert(spec_pow10(13nat) == 10000000000000);
    assert(spec_pow10(14nat) == 100000000000000);
    assert(spec_pow10(15nat) == 1000000000000000);
    assert(spec_pow10(16nat) == 10000000000000000);
    assert(spec_pow10(17nat) == 100000000000000000);
    assert(spec_pow10(18nat) == 1000000000000000000);
}

/// Reads a leading decimal integer: an optional minus sign, then one to
/// eighteen digits.
pub open spec fn spec_parse_int(s: Seq<char>) -> Option<(int, Seq<char>)> {
    if s.len() > 0 && s[0] == '-' {
        match spec_parse_nat(s.drop_first()) {
            Some(p) => Some((-p.0, p.1)),
            None => None,
        }
    } else {
        spec_parse_nat(s)
    }
}

/// Reads a leading run of one to eighteen decimal digits as a number.
pub open spec fn spec_parse_nat(s: Seq<char>) -> Option<(int, Seq<char>)> {
    let k = spec_digit_run(s);
    if 1 <= k <= 18 {
        Some((spec_digits_val(s.take(k), 0), s.skip(k)))
    } else {
        None
    }
}

/// Parses a decimal integer of `s` starting at `i`, per `spec_parse_int`.
/// On success returns the value and the index just after its digits.
pub fn parse_int_at(s: &str, i: usize) -> (r: Option<(i64, usize)>)
    requires
        i <= s@.len(),
    ensures
        match r {
            Some(p) => i <= p.1 <= s@.len() && spec_parse_int(s@.skip(i as int)) == Some(
                (p.0 as int, s@.skip(p.1 as int)),
            ),
            None => spec_parse_int(s@.skip(i as int)) is None,
        },
{
    let n = s.unicode_len();
    let neg = i < n && s.get_char(i) == '-';
    let start = if neg {
        i + 1
    } else {
        i
    };
    proof {
        if neg {
            assert(s@.skip(i as int)[0] == s@[i as int]);
            assert(s@.skip(i as int).drop_first() =~= s@.skip(start as int));
        }
    }
    let j = start + digit_run_at(s, start);
    let k = j - start;
    if k == 0 || k > 18 {
        return None;
    }
    let ghost digits = s@.skip(start as int).take(k as int);
    let mut acc: u64 = 0;
    let mut m = start;
    proof {
        assert(digits.skip(0) =~= digits);
        lemma_pow10_le(0, 18);
    }
    while m < j
        invariant
            n == s@.len(),
            start <= m <= j <= n,
            k == j - start,
            1 <= k <= 18,
            digits == s@.skip(start as int).take(k as int),
            forall|kk: int| start <= kk < j ==> spec_digit_val(s@[kk]) >= 0,
            spec_digits_val(digits, 0) == spec_digits_val(
                digits.skip(m - start),
                acc as int,
            ),
            0 <= acc < spec_pow10((m - start) as nat),
        decreases j - m,
    {
        proof {
            assert(digits.skip(m - start)[0] == digits[m - start] == s@[m as int]);
            assert(digits.skip(m - start).drop_first() =~= digits.skip(m + 1 - start));
            lemma_pow10_le((m + 1 - start) as nat, 18);
            assert(spec_pow10((m + 1 - start) as nat) == 10 * spec_pow10((m - start) as nat));
            lemma_pow10_18();
        }
        let c = s.get_char(m);
        let d = (c as u32) - 48;
        acc = acc * 10 + (d as u64);
        m = m + 1;
    }
    proof {
        assert(digits.skip(j - start) =~= Seq::<char>::empty());
        assert(spec_digits_val(digits, 0) == acc as int);
        lemma_pow10_le(k as nat, 18);
        lemma_pow10_18();
    }
    let v = acc as i64;
    if neg {
        Some((-v, j))
    } else {
        Some((v, j))
    }
}

/// The length of the run of decimal digits in `s` starting at `start`.
fn digit_run_at(s: &str, start: usize) -> (k: usize)
    requires
        start <= s@.len(),
    ensures
        start + k <= s@.len(),
        spec_digit_run(s@.skip(start as int)) == k,
        forall|kk: int| start <= kk < start + k ==> spec_digit_val(s@[kk]) >= 0,
{
    let n = s.unicode_len();
    let mut j = start;
    loop
        invariant
            n == s@.len(),
            start <= j <= n,
            spec_digit_run(s@.skip(start as int)) == (j - start) + spec_digit_run(
                s@.skip(j as int),
            ),
            forall|kk: int| start <= kk < j ==> spec_digit_val(s@[kk]) >= 0,
        decreases n - j,
    {
        if j >= n {
            proof {
                assert(s@.skip(j as int).len() == 0);
            }
            return j - start;
        }
        proof {
            assert(s@.skip(j as int)[0] == s@[j as int]);
            assert(s@.skip(j as int).drop_first() =~= s@.skip(j as int + 1));
        }
        let c = s.get_char(j);
        let u = c as u32;
        if !(48 <= u && u <= 57) {
            return j - start;
        }
        j = j + 1;
    }
}

/// The views of a sequence of strings.
pub open spec fn strs_view(v: Seq<String>) -> Seq<Seq<char>> {
    v.map_values(|x: String| x@)
}

/// The first position at or after `i` that holds no blank.
pub open spec fn spec_skip_ws(s: Seq<char>, i: int) -> int
    decreases s.len() - i,
    when 0 <= i <= s.len()
{
    if i < s.len() && (s[i] == ' ' || s[i] == '\n' || s[i] == '\r' || s[i] == '\t') {
        spec_skip_ws(s, i + 1)
    } else {
        i
    }
}

proof fn lemma_skip_ws_bounds(s: Seq<char>, i: int)
    requires
        0 <= i <= s.len(),
    ensures
        i <= spec_skip_ws(s, i) <= s.len(),
    decreases s.len() - i,
{
    if i < s.len() && (s[i] == ' ' || s[i] == '\n' || s[i] == '\r' || s[i] == '\t') {
        lemma_skip_ws_bounds(s, i + 1);
    }
}

/// The first position at or after `i` that holds no blank.
pub fn skip_ws_at(s: &str, i: usize) -> (r: usize)
    requires
        i <= s@.len(),
    ensures
        i <= r <= s@.len(),
        spec_skip_ws(s@, i as int) == r as int,
{
    let n = s.unicode_len();
    let mut j = i;
    loop
        invariant
            n == s@.len(),
            i <= j <= n,
            spec_skip_ws(s@, i as int) == spec_skip_ws(s@, j as int),
        decreases n - j,
    {
        if j >= n {
            return j;
        }
        let c = s.get_char(j);
        if c == ' ' || c == '\n' || c == '\r' || c == '\t' {
            j = j + 1;
        } else {
            return j;
        }
    }
}

/// True for the characters that may make up an unquoted JSON scalar:
/// letters, digits, sign and dot.
pub open spec fn spec_is_prim_char(c: char) -> bool {
    crate::spec_is_alnum(c) || c == '-' || c == '+' || c == '.'
}

/// The length of the leading run of scalar characters.
pub open spec fn spec_prim_run(s: Seq<char>) -> int
    decreases s.len(),
{
    if s.len() > 0 && spec_is_prim_char(s[0]) {
        1 + spec_prim_run(s.drop_first())
    } else {
        0
    }
}

proof fn lemma_prim_run_bounds(s: Seq<char>)
    ensures
        0 <= spec_prim_run(s) <= s.len(),
    decreases s.len(),
{
    if s.len() > 0 && spec_is_prim_char(s[0]) {
        lemma_prim_run_bounds(s.drop_first());
    }
}

/// The length of the run of scalar characters in `s` starting at `start`.
fn prim_run_at(s: &str, start: usize) -> (k: usize)
    requires
        start <= s@.len(),
    ensures
        start + k <= s@.len(),
        spec_prim_run(s@.skip(start as int)) == k,
{
    let n = s.unicode_len();
    let mut j = start;
    loop
        invariant
            n == s@.len(),
            start <= j <= n,
            spec_prim_run(s@.skip(start as int)) == (j - start) + spec_prim_run(
                s@.skip(j as int),
            ),
        decreases n - j,
    {
        if j >= n {
            proof {
                assert(s@.skip(j as int).len() == 0);
            }
            return j - start;
        }
        proof {
            assert(s@.skip(j as int)[0] == s@[j as int]);
            assert(s@.skip(j as int).drop_first() =~= s@.skip(j as int + 1));
        }
        let c = s.get_char(j);
        let u = c as u32;
        let prim = (48 <= u && u <= 57) || (65 <= u && u <= 90) || (97 <= u && u <= 122) || c == '-'
            || c == '+' || c == '.';
        if !prim {
            return j - start;
        }
        j = j + 1;
    }
}

/// The position just after one JSON value standing at `i`, read by
/// structure: a string by its escapes, an object or array by matching its
/// brackets (strings inside are respected, the rest of their contents is
/// passed over unvalidated), anything else as a run of scalar characters.
/// `d` counts the brackets opened so far; the scan fails when no value
/// stands at `i` or a bracket or string is left open.
pub open spec fn spec_value_end(s: Seq<char>, i: int, d: int) -> Option<int>
    decreases s.len() - i,
    when 0 <= i <= s.len()
    via spec_value_end_dec
{
    if i >= s.len() {
        None
    } else if s[i] == '"' {
        match spec_str_body(s.skip(i + 1)) {
            None => None,
            Some(p) => {
                let j = s.len() - p.1.len();
                if d == 0 {
                    Some(j)
                } else {
                    spec_value_end(s, j, d)
                }
            },
        }
    } else if s[i] == '{' || s[i] == '[' {
        spec_value_end(s, i + 1, d + 1)
    } else if s[i] == '}' || s[i] == ']' {
        if d == 0 {
            None
        } else if d == 1 {
            Some(i + 1)
        } else {
            spec_value_end(s, i + 1, d - 1)
        }
    } else if d == 0 {
        let k = spec_prim_run(s.skip(i));
        if k == 0 {
            None
        } else {
            Some(i + k)
        }
    } else {
        spec_value_end(s, i + 1, d)
    }
}

#[via_fn]
proof fn spec_value_end_dec(s: Seq<char>, i: int, d: int) {
    if 0 <= i < s.len() && s[i] == '"' {
        lemma_str_body_shrinks(s.skip(i + 1));
    }
}

/// A scanned value takes at least one character and stays inside the text.
proof fn lemma_value_end_advances(s: Seq<char>, i: int, d: int)
    requires
        0 <= i <= s.len(),
    ensures
        spec_value_end(s, i, d) matches Some(e) ==> i < e <= s.len(),
    decreases s.len() - i,
{
    if i < s.len() {
        if s[i] == '"' {
            lemma_str_body_shrinks(s.skip(i + 1));
            match spec_str_body(s.skip(i + 1)) {
                None => {},
                Some(p) => {
                    let j = s.len() - p.1.len();
                    if d != 0 {
                        lemma_value_end_advances(s, j, d);
                    }
                },
            }
        } else if s[i] == '{' || s[i] == '[' {
            lemma_value_end_advances(s, i + 1, d + 1);
        } else if s[i] == '}' || s[i] == ']' {
            if d != 0 && d != 1 {
                lemma_value_end_advances(s, i + 1, d - 1);
            }
        } else if d == 0 {
            lemma_prim_run_bounds(s.skip(i));
        } else {
            lemma_value_end_advances(s, i + 1, d);
        }
    }
}

/// The position just after the JSON value standing at `start`, per
/// `spec_value_end`.
fn value_end_at(s: &str, start: usize) -> (r: Option<usize>)
    requires
        start <= s@.len(),
    ensures
        match r {
            Some(e) => start < e <= s@.len() && spec_value_end(s@, start as int, 0) == Some(
                e as int,
            ),
            None => spec_value_end(s@, start as int, 0) is None,
        },
{
    let n = s.unicode_len();
    let mut i = start;
    let mut depth: usize = 0;
    proof {
        lemma_value_end_advances(s@, start as int, 0);
    }
    loop
        invariant
            n == s@.len(),
            start <= i <= n,
            depth <= i - start,
            spec_value_end(s@, start as int, 0) == spec_value_end(s@, i as int, depth as int),
            spec_value_end(s@, start as int, 0) matches Some(e) ==> start < e <= n,
        decreases n - i,
    {
        if i >= n {
            return None;
        }
        let c = s.get_char(i);
        if c == '"' {
            match parse_str_body(s, i + 1) {
                None => {
                    return None;
                },
                Some((_t, j)) => {
                    proof {
                        assert(s@.skip(j as int).len() == n - j);
                    }
                    if depth == 0 {
                        return Some(j);
                    }
                    i = j;
                },
            }
        } else if c == '{' || c == '[' {
            depth = depth + 1;
            i = i + 1;
        } else if c == '}' || c == ']' {
            if depth == 0 {
                return None;
            } else if depth == 1 {
                return Some(i + 1);
            } else {
                depth = depth - 1;
                i = i + 1;
            }
        } else if depth == 0 {
            let k = prim_run_at(s, i);
            if k == 0 {
                return None;
            }
            return Some(i + k);
        } else {
            i = i + 1;
        }
    }
}

/// The top-level fields of a JSON object, walked from `i` (just after the
/// opening brace): each field's name and the position of its value, then
/// the position just after the closing brace. Field values are passed
/// over by `spec_value_end`; a trailing comma before the brace is
/// tolerated.
pub open spec fn spec_obj_items(s: Seq<char>, i: int) -> Option<(Seq<(Seq<char>, int)>, int)>
    decreases s.len() - i,
    when 0 <= i <= s.len()
    via spec_obj_items_dec
{
    let k = spec_skip_ws(s, i);
    if k < s.len() && s[k] == '}' {
        Some((Seq::empty(), k + 1))
    } else if k < s.len() && s[k] == '"' {
        match spec_str_body(s.skip(k + 1)) {
            None => None,
            Some(p) => {
                let a = spec_skip_ws(s, s.len() - p.1.len());
                if a < s.len() && s[a] == ':' {
                    let v = spec_skip_ws(s, a + 1);
                    match spec_value_end(s, v, 0) {
                        None => None,
                        Some(e) => {
                            let w = spec_skip_ws(s, e);
                            if w < s.len() && s[w] == ',' {
                                match spec_obj_items(s, w + 1) {
                                    None => None,
                                    Some(q) => Some((seq![(p.0, v)] + q.0, q.1)),
                                }
                            } else if w < s.len() && s[w] == '}' {
                                Some((seq![(p.0, v)], w + 1))
                            } else {
                                None
                            }
                        },
                    }
                } else {
                    None
                }
            },
        }
    } else {
        None
    }
}

#[via_fn]
proof fn spec_obj_items_dec(s: Seq<char>, i: int) {
    lemma_skip_ws_bounds(s, i);
    let k = spec_skip_ws(s, i);
    if k < s.len() && s[k] != '}' && s[k] == '"' {
        lemma_str_body_shrinks(s.skip(k + 1));
        match spec_str_body(s.skip(k + 1)) {
            None => {},
            Some(p) => {
                let j = s.len() - p.1.len();
                lemma_skip_ws_bounds(s, j);
                let a = spec_skip_ws(s, j);
                if a < s.len() && s[a] == ':' {
                    lemma_skip_ws_bounds(s, a + 1);
                    let v = spec_skip_ws(s, a + 1);
                    lemma_value_end_advances(s, v, 0);
                    match spec_value_end(s, v, 0) {
                        None => {},
                        Some(e) => {
                            lemma_skip_ws_bounds(s, e);
                        },
                    }
                }
            },
        }
    }
}

/// The position of the value of the first field named `key`.
pub open spec fn spec_assoc(items: Seq<(Seq<char>, int)>, key: Seq<char>) -> Option<int>
    decreases items.len(),
{
    if items.len() == 0 {
        None
    } else if items[0].0 == key {
        Some(items[0].1)
    } else {
        spec_assoc(items.drop_first(), key)
    }
}

/// Prepends already-walked fields to the outcome of walking the rest.
spec fn spec_glue_items(
    acc: Seq<(Seq<char>, int)>,
    r: Option<(Seq<(Seq<char>, int)>, int)>,
) -> Option<(Seq<(Seq<char>, int)>, int)> {
    match r {
        Some(p) => Some((acc + p.0, p.1)),
        None => None,
    }
}

proof fn lemma_glue_items_assoc(
    acc: Seq<(Seq<char>, int)>,
    mid: Seq<(Seq<char>, int)>,
    r: Option<(Seq<(Seq<char>, int)>, int)>,
)
    ensures
        spec_glue_items(acc + mid, r) == spec_glue_items(acc, spec_glue_items(mid, r)),
{
    match r {
        Some(p) => {
            assert((acc + mid) + p.0 =~= acc + (mid + p.0));
        },
        None => {},
    }
}

/// Looking a key up in appended field lists tries the front list first.
proof fn lemma_assoc_append(a: Seq<(Seq<char>, int)>, b: Seq<(Seq<char>, int)>, key: Seq<char>)
    ensures
        spec_assoc(a + b, key) == (match spec_assoc(a, key) {
            Some(v) => Some(v),
            None => spec_assoc(b, key),
        }),
    decreases a.len(),
{
    if a.len() == 0 {
        assert(a + b =~= b);
    } else {
        assert((a + b)[0] == a[0]);
        assert((a + b).drop_first() =~= a.drop_first() + b);
        lemma_assoc_append(a.drop_first(), b, key);
    }
}

/// Walks the top-level fields of a JSON object from `start` (just after
/// the opening brace): the position of the value of the first field named
/// `key`, when the object has one, and the position just after the
/// closing brace, per `spec_obj_items` and `spec_assoc`.
pub fn obj_scan(s: &str, start: usize, key: &str) -> (r: Option<(Option<usize>, usize)>)
    requires
        start <= s@.len(),
    ensures
        match r {
            Some(rr) => spec_obj_items(s@, start as int) matches Some(p) && p.1 == rr.1 as int
                && rr.1 <= s@.len() && (match rr.0 {
                Some(v) => spec_assoc(p.0, key@) == Some(v as int) && v < s@.len(),
                None => spec_assoc(p.0, key@) is None,
            }),
            None => spec_obj_items(s@, start as int) is None,
        },
{
    let n = s.unicode_len();
    let keyobj = String::from_str(key);
    let mut pos = start;
    let mut found: Option<usize> = None;
    let ghost mut acc: Seq<(Seq<char>, int)> = Seq::empty();
    loop
        invariant
            n == s@.len(),
            start <= pos <= n,
            keyobj@ == key@,
            spec_obj_items(s@, start as int) == spec_glue_items(acc, spec_obj_items(s@, pos as int)),
            match found {
                Some(f) => spec_assoc(acc, key@) == Some(f as int) && f < n,
                None => spec_assoc(acc, key@) is None,
            },
        decreases n - pos,
    {
        let k = skip_ws_at(s, pos);
        if k >= n {
            return None;
        }
        let c = s.get_char(k);
        if c == '}' {
            proof {
                assert(acc + Seq::<(Seq<char>, int)>::empty() =~= acc);
            }
            return Some((found, k + 1));
        }
        if c != '"' {
            return None;
        }
        match parse_str_body(s, k + 1) {
            None => {
                return None;
            },
            Some((keyname, p)) => {
                proof {
                    assert(s@.skip(p as int).len() == n - p);
                }
                let a = skip_ws_at(s, p);
                if a >= n {
                    return None;
                }
                if s.get_char(a) != ':' {
                    return None;
                }
                let v = skip_ws_at(s, a + 1);
                match value_end_at(s, v) {
                    None => {
                        return None;
                    },
                    Some(e) => {
                        let w = skip_ws_at(s, e);
                        if w >= n {
                            return None;
                        }
                        let cw = s.get_char(w);
                        if cw != ',' && cw != '}' {
                            return None;
                        }
                        let ghost item = (keyname@, v as int);
                        let ghost prev = acc;
                        proof {
                            acc = acc.push(item);
                            assert(prev.push(item) =~= prev + seq![item]);
                            lemma_assoc_append(prev, seq![item], key@);
                            assert(seq![item].drop_first() =~= Seq::<(Seq<char>, int)>::empty());
                            assert(spec_assoc(Seq::<(Seq<char>, int)>::empty(), key@) is None);
                        }
                        let ghost found_old = found;
                        if found.is_none() && keyname == keyobj {
                            found = Some(v);
                        }
                        proof {
                            match found_old {
                                Some(_f) => {},
                                None => {
                                    if keyname@ == key@ {
                                        assert(spec_assoc(seq![item], key@) == Some(item.1));
                                    } else {
                                        assert(spec_assoc(seq![item], key@) is None);
                                    }
                                },
                            }
                        }
                        if cw == ',' {
                            proof {
                                lemma_glue_items_assoc(
                                    prev,
                                    seq![item],
                                    spec_obj_items(s@, w as int + 1),
                                );
                            }
                            pos = w + 1;
                        } else {
                            return Some((found, w + 1));
                        }
                    },
                }
            },
        }
    }
}

/// Reads a JSON array of strings from `i` (just after the opening
/// bracket): blanks allowed around the elements, each element a string
/// followed by a comma or the closing bracket. Yields the elements and
/// the position just after the bracket.
pub open spec fn spec_str_list(s: Seq<char>, i: int) -> Option<(Seq<Seq<char>>, int)>
    decreases s.len() - i,
    when 0 <= i <= s.len()
    via spec_str_list_dec
{
    let k = spec_skip_ws(s, i);
    if k < s.len() && s[k] == ']' {
        Some((Seq::empty(), k + 1))
    } else if k < s.len() && s[k] == '"' {
        match spec_str_body(s.skip(k + 1)) {
            None => None,
            Some(p) => {
                let w = spec_skip_ws(s, s.len() - p.1.len());
                if w < s.len() && s[w] == ',' {
                    match spec_str_list(s, w + 1) {
                        None => None,
                        Some(q) => Some((seq![p.0] + q.0, q.1)),
                    }
                } else if w < s.len() && s[w] == ']' {
                    Some((seq![p.0], w + 1))
                } else {
                    None
                }
            },
        }
    } else {
        None
    }
}

#[via_fn]
proof fn spec_str_list_dec(s: Seq<char>, i: int) {
    lemma_skip_ws_bounds(s, i);
    let k = spec_skip_ws(s, i);
    if k < s.len() && s[k] != ']' && s[k] == '"' {
        lemma_str_body_shrinks(s.skip(k + 1));
        match spec_str_body(s.skip(k + 1)) {
            None => {},
            Some(p) => {
                lemma_skip_ws_bounds(s, s.len() - p.1.len());
            },
        }
    }
}

/// Prepends already-read elements to the outcome of reading the rest.
spec fn spec_glue_list(acc: Seq<Seq<char>>, r: Option<(Seq<Seq<char>>, int)>) -> Option<
    (Seq<Seq<char>>, int),
> {
    match r {
        Some(p) => Some((acc + p.0, p.1)),
        None => None,
    }
}

proof fn lemma_glue_list_assoc(
    acc: Seq<Seq<char>>,
    mid: Seq<Seq<char>>,
    r: Option<(Seq<Seq<char>>, int)>,
)
    ensures
        spec_glue_list(acc + mid, r) == spec_glue_list(acc, spec_glue_list(mid, r)),
{
    match r {
        Some(p) => {
            assert((acc + mid) + p.0 =~= acc + (mid + p.0));
        },
        None => {},
    }
}

/// Parses a JSON string array of `s` starting at `i` (just after the
/// opening bracket), per `spec_str_list`. On success returns the elements
/// and the index just after the closing bracket.
pub fn parse_str_list(s: &str, i: usize) -> (r: Option<(Vec<String>, usize)>)
    requires
        i <= s@.len(),
    ensures
        match r {
            Some(p) => p.1 <= s@.len() && spec_str_list(s@, i as int) == Some(
                (strs_view(p.0@), p.1 as int),
            ),
            None => spec_str_list(s@, i as int) is None,
        },
{
    let n = s.unicode_len();
    let mut acc: Vec<String> = Vec::new();
    let mut pos = i;
    proof {
        assert(strs_view(acc@) =~= Seq::<Seq<char>>::empty());
    }
    loop
        invariant
            n == s@.len(),
            i <= pos <= n,
            spec_str_list(s@, i as int) == spec_glue_list(
                strs_view(acc@),
                spec_str_list(s@, pos as int),
            ),
        decreases n - pos,
    {
        let k = skip_ws_at(s, pos);
        if k >= n {
            return None;
        }
        let c = s.get_char(k);
        if c == ']' {
            proof {
                assert(strs_view(acc@) + Seq::<Seq<char>>::empty() =~= strs_view(acc@));
            }
            return Some((acc, k + 1));
        }
        if c != '"' {
            return None;
        }
        match parse_str_body(s, k + 1) {
            None => {
                return None;
            },
            Some((t, p)) => {
                proof {
                    assert(s@.skip(p as int).len() == n - p);
                }
                let w = skip_ws_at(s, p);
                if w >= n {
                    return None;
                }
                let cw = s.get_char(w);
                if cw == ',' {
                    let ghost prev = strs_view(acc@);
                    acc.push(t);
                    proof {
                        assert(strs_view(acc@) =~= prev + seq![t@]);
                        lemma_glue_list_assoc(prev, seq![t@], spec_str_list(s@, w as int + 1));
                    }
                    pos = w + 1;
                } else if cw == ']' {
                    let ghost prev = strs_view(acc@);
                    acc.push(t);
                    proof {
                        assert(strs_view(acc@) =~= prev + seq![t@]);
                    }
                    return Some((acc, w + 1));
                } else {
                    return None;
                }
            },
        }
    }
}

/// What the provider's client-error body holds: a JSON object whose
/// `status` field is an integer and whose `errors` field lists strings.
/// Blanks, field order and unknown fields are accepted; unknown field
/// values are passed over by structure.
pub open spec fn spec_parse_messages(s: Seq<char>) -> Option<(int, Seq<Seq<char>>)> {
    let a = spec_skip_ws(s, 0);
    if a < s.len() && s[a] == '{' {
        match spec_obj_items(s, a + 1) {
            None => None,
            Some(p) => {
                if spec_skip_ws(s, p.1) == s.len() {
                    match spec_assoc(p.0, "status"@) {
                        None => None,
                        Some(vs) => match spec_parse_int(s.skip(vs)) {
                            None => None,
                            Some(st) => match spec_assoc(p.0, "errors"@) {
                                None => None,
                                Some(ve) => {
                                    if 0 <= ve < s.len() && s[ve] == '[' {
                                        match spec_str_list(s, ve + 1) {
                                            None => None,
                                            Some(q) => Some((st.0, q.0)),
                                        }
                                    } else {
                                        None
                                    }
                                },
                            },
                        },
                    }
                } else {
                    None
                }
            },
        }
    } else {
        None
    }
}

/// Parses the provider's client-error body into its status and its list
/// of error strings, per `spec_parse_messages`.
pub fn parse_messages(s: &str) -> (r: Option<(i64, Vec<String>)>)
    ensures
        match r {
            Some(p) => spec_parse_messages(s@) == Some((p.0 as int, strs_view(p.1@))),
            None => spec_parse_messages(s@) is None,
        },
{
    let n = s.unicode_len();
    let a = skip_ws_at(s, 0);
    if a >= n {
        return None;
    }
    if s.get_char(a) != '{' {
        return None;
    }
    match obj_scan(s, a + 1, "status") {
        None => None,
        Some((vs_opt, end)) => {
            if skip_ws_at(s, end) != n {
                return None;
            }
            match vs_opt {
                None => None,
                Some(vs) => match parse_int_at(s, vs) {
                    None => None,
                    Some((st, _after)) => match obj_scan(s, a + 1, "errors") {
                        None => None,
                        Some((ve_opt, _end2)) => match ve_opt {
                            None => None,
                            Some(ve) => {
                                if s.get_char(ve) != '[' {
                                    return None;
                                }
                                match parse_str_list(s, ve + 1) {
                                    None => None,
                                    Some((errs, _e3)) => Some((st, errs)),
                                }
                            },
                        },
                    },
                },
            }
        },
    }
}

/// The URL the paste host's response carries: the body is a JSON object
/// and its top-level `html_url` field holds a string.
pub open spec fn spec_html_url(s: Seq<char>) -> Option<Seq<char>> {
    let a = spec_skip_ws(s, 0);
    if a < s.len() && s[a] == '{' {
        match spec_obj_items(s, a + 1) {
            None => None,
            Some(p) => {
                if spec_skip_ws(s, p.1) == s.len() {
                    match spec_assoc(p.0, "html_url"@) {
                        None => None,
                        Some(v) => {
                            if 0 <= v < s.len() && s[v] == '"' {
                                match spec_str_body(s.skip(v + 1)) {
                                    Some(q) => Some(q.0),
                                    None => None,
                                }
                            } else {
                                None
                            }
                        },
                    }
                } else {
                    None
                }
            },
        }
    } else {
        None
    }
}

/// Reads the public URL out of a paste-host response body, per
/// `spec_html_url`.
pub fn find_html_url(s: &str) -> (r: Option<String>)
    ensures
        match r {
            Some(u) => spec_html_url(s@) == Some(u@),
            None => spec_html_url(s@) is None,
        },
{
    let n = s.unicode_len();
    let a = skip_ws_at(s, 0);
    if a >= n {
        return None;
    }
    if s.get_char(a) != '{' {
        return None;
    }
    match obj_scan(s, a + 1, "html_url") {
        None => None,
        Some((v_opt, end)) => {
            if skip_ws_at(s, end) != n {
                return None;
            }
            match v_opt {
                None => None,
                Some(v) => {
                    if s.get_char(v) != '"' {
                        return None;
                    }
                    match parse_str_body(s, v + 1) {
                        Some((t, _j)) => Some(t),
                        None => None,
                    }
                },
            }
        },
    }
}

/// Ordinary text needs no escaping: a string without quotes, backslashes
/// or control characters is its own escaped form.
pub proof fn lemma_escape_plain(s: Seq<char>)
    requires
        forall|i: int| 0 <= i < s.len() ==> s[i] != '"' && s[i] != '\\' && (s[i] as u32) >= 32,
    ensures
        spec_escape(s) == s,
    decreases s.len(),
{
    if s.len() > 0 {
        assert(spec_escape_char(s[0]) == seq![s[0]]);
        assert(forall|i: int|
            0 <= i < s.drop_first().len() ==> s.drop_first()[i] == s[i + 1]);
        lemma_escape_plain(s.drop_first());
        assert(seq![s[0]] + s.drop_first() =~= s);
    }
}

/// A successful read consumes at least the closing quote: the remainder is
/// strictly shorter than the input.
proof fn lemma_str_body_shrinks(s: Seq<char>)
    ensures
        spec_str_body(s) matches Some(p) ==> p.1.len() < s.len(),
    decreases s.len(),
{
    if s.len() == 0 {
    } else if s[0] == '"' {
    } else if s[0] == '\\' {
        if s.len() < 2 {
        } else if s[1] == '"' || s[1] == '\\' {
            lemma_str_body_shrinks(s.skip(2));
        } else if s[1] == 'u' {
            if s.len() >= 6 {
                lemma_str_body_shrinks(s.skip(6));
            }
        }
    } else {
        lemma_str_body_shrinks(s.drop_first());
    }
}

} // verus!

//! Numbers in text: unsigned integer parsing, decimal formatting and the
//! syntax of floating-point literals.

use vstd::prelude::*;
use crate::text::{ascii_lower, ascii_lower_code};

verus! {

/// The value of `c` as a digit in base `radix` (10 or 16).
pub open spec fn digit_value(c: char, radix: nat) -> Option<nat> {
    let u = c as u32;
    if 0x30 <= u <= 0x39 {
        Some((u - 0x30) as nat)
    } else if radix == 16 && 0x61 <= u <= 0x66 {
        Some((u - 0x61 + 10) as nat)
    } else if radix == 16 && 0x41 <= u <= 0x46 {
        Some((u - 0x41 + 10) as nat)
    } else {
        None
    }
}

pub open spec fn all_digits(d: Seq<char>, radix: nat) -> bool {
    forall|i: int| 0 <= i < d.len() ==> #[trigger] digit_value(d[i], radix) is Some
}

/// The number that the digits `d` spell in base `radix`.
pub open spec fn digits_value(d: Seq<char>, radix: nat) -> nat
    decreases d.len(),
{
    if d.len() == 0 {
        0
    } else {
        digits_value(d.drop_last(), radix) * radix + digit_value(d.last(), radix).unwrap()
    }
}

/// std `u32::from_str_radix(s, radix)` for radix 10 or 16 (radix 10 is also
/// `s.parse::<u32>()`): an optional `+`, then one or more digits whose value
/// fits in a `u32`; anything else is an error.
pub open spec fn parse_u32(s: Seq<char>, radix: nat) -> Option<u32> {
    let d = if s.len() > 0 && s[0] == '+' {
        s.drop_first()
    } else {
        s
    };
    if d.len() > 0 && all_digits(d, radix) && digits_value(d, radix) <= u32::MAX {
        Some(digits_value(d, radix) as u32)
    } else {
        None
    }
}

proof fn lemma_digits_value_grows(d: Seq<char>, k: int, radix: nat)
    requires
        0 <= k <= d.len(),
        radix >= 1,
        all_digits(d, radix),
    ensures
        digits_value(d.take(k), radix) <= digits_value(d, radix),
    decreases d.len() - k,
{
    if k < d.len() {
        let e = d.drop_last();
        assert(e.take(k) =~= d.take(k));
        assert(all_digits(e, radix)) by {
            assert forall|i: int| 0 <= i < e.len() implies #[trigger] digit_value(e[i], radix) is Some by {
                assert(e[i] == d[i]);
            }
        }
        lemma_digits_value_grows(e, k, radix);
        let x = digits_value(e, radix);
        let y = digit_value(d.last(), radix).unwrap();
        assert(x * radix + y >= x) by (nonlinear_arith)
            requires radix >= 1;
    } else {
        assert(d.take(k) =~= d);
    }
}

fn digit_of(c: char, radix: u32) -> (r: Option<u32>)
    requires
        radix == 10 || radix == 16,
    ensures
        r matches Some(v) ==> digit_value(c, radix as nat) == Some(v as nat) && v < radix,
        r is None ==> digit_value(c, radix as nat) is None,
{
    let u = c as u32;
    if 0x30 <= u && u <= 0x39 {
        Some(u - 0x30)
    } else if radix == 16 && 0x61 <= u && u <= 0x66 {
        Some(u - 0x61 + 10)
    } else if radix == 16 && 0x41 <= u && u <= 0x46 {
        Some(u - 0x41 + 10)
    } else {
        None
    }
}

/// Parses `cs[from..to]` as std `u32::from_str_radix` does.
pub fn parse_u32_chars(cs: &Vec<char>, from: usize, to: usize, radix: u32) -> (r: Option<u32>)
    requires
        from <= to <= cs.len(),
        radix == 10 || radix == 16,
    ensures
        r == parse_u32(cs@.subrange(from as int, to as int), radix as nat),
{
    let ghost s = cs@.subrange(from as int, to as int);
    let start = if from < to && cs[from] == '+' {
        from + 1
    } else {
        from
    };
    let ghost d = cs@.subrange(start as int, to as int);
    assert(d =~= (if s.len() > 0 && s[0] == '+' { s.drop_first() } else { s }));
    if start == to {
        return None;
    }
    let mut acc: u64 = 0;
    let mut i = start;
    while i < to
        invariant
            start <= i <= to <= cs.len(),
            d == cs@.subrange(start as int, to as int),
            d.len() > 0,
            s == cs@.subrange(from as int, to as int),
            d == (if s.len() > 0 && s[0] == '+' { s.drop_first() } else { s }),
            radix == 10 || radix == 16,
            all_digits(d.take(i - start), radix as nat),
            acc == digits_value(d.take(i - start), radix as nat),
            acc <= u32::MAX,
        decreases to - i,
    {
        let ghost p = d.take(i - start);
        let ghost q = d.take(i - start + 1);
        assert(q.drop_last() =~= p);
        assert(q.last() == cs@[i as int]);
        match digit_of(cs[i], radix) {
            None => {
                assert(!all_digits(d, radix as nat)) by {
                    assert(d[i - start] == cs@[i as int]);
                }
                return None;
            },
            Some(v) => {
                assert(acc * (radix as u64) <= 0xFFFF_FFFF * 16) by (nonlinear_arith)
                    requires
                        acc <= 0xFFFF_FFFF,
                        radix <= 16,
                ;
                acc = acc * (radix as u64) + (v as u64);
                assert(acc == digits_value(q, radix as nat));
                assert(all_digits(q, radix as nat)) by {
                    assert forall|k: int| 0 <= k < q.len() implies #[trigger] digit_value(q[k], radix as nat) is Some by {
                        if k < q.len() - 1 {
                            assert(q[k] == p[k]);
                        }
                    }
                }
                if acc > 0xFFFF_FFFF {
                    proof {
                        if all_digits(d, radix as nat) {
                            assert(digits_value(q, radix as nat) > u32::MAX);
                            lemma_digits_value_grows(d, i - start + 1, radix as nat);
                        }
                    }
                    return None;
                }
            },
        }
        i = i + 1;
    }
    assert(d.take(to - start) =~= d);
    Some(acc as u32)
}

/// The decimal digit character for `d < 10`.
pub open spec fn digit_char(d: nat) -> char {
    (0x30 + d) as char
}

/// The decimal spelling of `n`, without leading zeros.
pub open spec fn nat_decimal(n: nat) -> Seq<char>
    decreases n,
{
    if n < 10 {
        seq![digit_char(n)]
    } else {
        nat_decimal(n / 10).push(digit_char(n % 10))
    }
}

/// std `i64::to_string`.
pub open spec fn i64_decimal(v: i64) -> Seq<char> {
    if v < 0 {
        seq!['-'] + nat_decimal((-v) as nat)
    } else {
        nat_decimal(v as nat)
    }
}

fn digit_to_char(d: u64) -> (c: char)
    requires
        d < 10,
    ensures
        c == digit_char(d as nat),
{
    match d {
        0 => '0',
        1 => '1',
        2 => '2',
        3 => '3',
        4 => '4',
        5 => '5',
        6 => '6',
        7 => '7',
        8 => '8',
        _ => '9',
    }
}

fn push_decimal(out: &mut String, n: u64)
    ensures
        final(out)@ == old(out)@ + nat_decimal(n as nat),
    decreases n,
{
    if n >= 10 {
        push_decimal(out, n / 10);
    }
    out.push(digit_to_char(n % 10));
}

/// `v.to_string()` for an `i64`.
pub fn i64_to_string(v: i64) -> (s: String)
    ensures
        s@ == i64_decimal(v),
{
    let mut s = String::new();
    if v < 0 {
        s.push('-');
        let m: u64 = (0i128 - (v as i128)) as u64;
        push_decimal(&mut s, m);
    } else {
        push_decimal(&mut s, v as u64);
    }
    s
}

pub open spec fn is_ascii_digit(c: char) -> bool {
    '0' <= c <= '9'
}

/// The number of consecutive ASCII digits in `s` from index `i` on.
pub open spec fn digit_run(s: Seq<char>, i: int) -> nat
    decreases s.len() - i,
{
    if 0 <= i < s.len() && is_ascii_digit(s[i]) {
        1 + digit_run(s, i + 1)
    } else {
        0
    }
}

/// `s` equals the lower-case ASCII word `w`, ignoring ASCII case.
pub open spec fn lower_equals(s: Seq<char>, w: Seq<char>) -> bool {
    &&& s.len() == w.len()
    &&& forall|i: int| 0 <= i < s.len() ==> ascii_lower(#[trigger] s[i]) == (w[i] as u32)
}

/// Every character of `d` is an ASCII digit.
pub open spec fn all_ascii_digits_spec(d: Seq<char>) -> bool {
    forall|i: int| 0 <= i < d.len() ==> is_ascii_digit(#[trigger] d[i])
}

/// The digits of an exponent `e Sign? Digit+`: what follows the sign.
pub open spec fn exponent_digits(e: Seq<char>) -> Seq<char> {
    if e[1] == '+' || e[1] == '-' {
        e.skip(2)
    } else {
        e.skip(1)
    }
}

/// `e Sign? Digit+`, with `e` in either case.
pub open spec fn is_exponent(e: Seq<char>) -> bool {
    &&& e.len() >= 2
    &&& ascii_lower(e[0]) == 0x65
    &&& exponent_digits(e).len() > 0
    &&& all_ascii_digits_spec(exponent_digits(e))
}

/// `( Digit+ | Digit+ '.' Digit* | Digit* '.' Digit+ ) Exp?`
pub open spec fn is_float_number(b: Seq<char>) -> bool {
    let int_len = digit_run(b, 0) as int;
    let has_dot = int_len < b.len() && b[int_len] == '.';
    let frac_len = if has_dot {
        digit_run(b, int_len + 1) as int
    } else {
        0
    };
    let mant_end = if has_dot {
        int_len + 1 + frac_len
    } else {
        int_len
    };
    &&& int_len + frac_len > 0
    &&& (mant_end == b.len() || is_exponent(b.skip(mant_end)))
}

/// The strings that std `str::parse::<f64>` accepts, by the grammar its
/// documentation gives: `Sign? ( 'inf' | 'infinity' | 'nan' | Number )`,
/// matched after ASCII lower-casing, with no surrounding white space.
pub open spec fn is_float_literal(s: Seq<char>) -> bool {
    let b = if s.len() > 0 && (s[0] == '+' || s[0] == '-') {
        s.drop_first()
    } else {
        s
    };
    ||| lower_equals(b, seq!['i', 'n', 'f'])
    ||| lower_equals(b, seq!['i', 'n', 'f', 'i', 'n', 'i', 't', 'y'])
    ||| lower_equals(b, seq!['n', 'a', 'n'])
    ||| is_float_number(b)
}

fn is_ascii_digit_char(c: char) -> (b: bool)
    ensures
        b == is_ascii_digit(c),
{
    '0' <= c && c <= '9'
}

/// The end of the run of digits in `cs[i..to]`.
fn digit_run_end(cs: &Vec<char>, i: usize, to: usize) -> (j: usize)
    requires
        i <= to <= cs.len(),
    ensures
        i <= j <= to,
        j - i == digit_run(cs@.subrange(0, to as int), i as int),
{
    let ghost s = cs@.subrange(0, to as int);
    let mut j = i;
    while j < to && is_ascii_digit_char(cs[j])
        invariant
            i <= j <= to <= cs.len(),
            s == cs@.subrange(0, to as int),
            digit_run(s, i as int) == (j - i) + digit_run(s, j as int),
        decreases to - j,
    {
        assert(s[j as int] == cs@[j as int]);
        j = j + 1;
    }
    if j < to {
        assert(s[j as int] == cs@[j as int]);
    }
    j
}

fn lower_equals_chars(cs: &Vec<char>, from: usize, to: usize, w: &str) -> (r: bool)
    requires
        from <= to <= cs.len(),
    ensures
        r == lower_equals(cs@.subrange(from as int, to as int), w@),
{
    let wc = crate::text::chars_of(w);
    if to - from != wc.len() {
        return false;
    }
    let ghost s = cs@.subrange(from as int, to as int);
    let mut i: usize = 0;
    while i < wc.len()
        invariant
            i <= wc.len() == to - from,
            from <= to <= cs.len(),
            s == cs@.subrange(from as int, to as int),
            wc@ == w@,
            forall|k: int| 0 <= k < i ==> ascii_lower(#[trigger] s[k]) == (wc@[k] as u32),
        decreases wc.len() - i,
    {
        assert(s[i as int] == cs@[from + i]);
        if ascii_lower_code(cs[from + i]) != wc[i] as u32 {
            return false;
        }
        i = i + 1;
    }
    true
}

/// Whether `cs[from..to]` would be accepted by `str::parse::<f64>`.
pub fn is_float_literal_chars(cs: &Vec<char>, from: usize, to: usize) -> (r: bool)
    requires
        from <= to <= cs.len(),
    ensures
        r == is_float_literal(cs@.subrange(from as int, to as int)),
{
    let ghost s = cs@.subrange(from as int, to as int);
    let start = if from < to && (cs[from] == '+' || cs[from] == '-') {
        from + 1
    } else {
        from
    };
    let ghost b = cs@.subrange(start as int, to as int);
    assert(b =~= (if s.len() > 0 && (s[0] == '+' || s[0] == '-') { s.drop_first() } else { s }));
    proof {
        reveal_strlit("inf");
        reveal_strlit("infinity");
        reveal_strlit("nan");
        assert("inf"@ =~= seq!['i', 'n', 'f']);
        assert("infinity"@ =~= seq!['i', 'n', 'f', 'i', 'n', 'i', 't', 'y']);
        assert("nan"@ =~= seq!['n', 'a', 'n']);
    }
    if lower_equals_chars(cs, start, to, "inf") || lower_equals_chars(cs, start, to, "infinity")
        || lower_equals_chars(cs, start, to, "nan") {
        return true;
    }
    is_float_number_chars(cs, start, to)
}

proof fn lemma_digit_run_shift(cs: Seq<char>, start: int, to: int, i: int)
    requires
        0 <= start <= i <= to <= cs.len(),
    ensures
        digit_run(cs.subrange(start, to), i - start) == digit_run(cs.subrange(0, to), i),
    decreases to - i,
{
    let b = cs.subrange(start, to);
    let s = cs.subrange(0, to);
    if i < to {
        assert(b[i - start] == s[i]);
        lemma_digit_run_shift(cs, start, to, i + 1);
    }
}

fn is_float_number_chars(cs: &Vec<char>, start: usize, to: usize) -> (r: bool)
    requires
        start <= to <= cs.len(),
    ensures
        r == is_float_number(cs@.subrange(start as int, to as int)),
{
    let ghost b = cs@.subrange(start as int, to as int);
    let int_end = digit_run_end(cs, start, to);
    proof {
        lemma_digit_run_shift(cs@, start as int, to as int, start as int);
    }
    let ghost int_len = int_end - start;
    assert(int_len == digit_run(b, 0));
    let has_dot = int_end < to && cs[int_end] == '.';
    if int_end < to {
        assert(b[int_len] == cs@[int_end as int]);
    }
    let mant_end = if has_dot {
        let e = digit_run_end(cs, int_end + 1, to);
        proof {
            lemma_digit_run_shift(cs@, start as int, to as int, int_end + 1);
        }
        e
    } else {
        int_end
    };
    let frac_len = if has_dot { mant_end - int_end - 1 } else { 0 };
    if int_end - start + frac_len == 0 {
        return false;
    }
    if mant_end == to {
        return true;
    }
    let ghost e = b.skip(mant_end - start);
    assert(e =~= cs@.subrange(mant_end as int, to as int));
    if to - mant_end < 2 || ascii_lower_code(cs[mant_end]) != 0x65 {
        return false;
    }
    let dstart = if cs[mant_end + 1] == '+' || cs[mant_end + 1] == '-' {
        mant_end + 2
    } else {
        mant_end + 1
    };
    assert(e[0] == cs@[mant_end as int] && e[1] == cs@[mant_end + 1]);
    let ghost d = cs@.subrange(dstart as int, to as int);
    assert(d =~= exponent_digits(e));
    if dstart == to {
        return false;
    }
    all_ascii_digits(cs, dstart, to)
}

fn all_ascii_digits(cs: &Vec<char>, from: usize, to: usize) -> (r: bool)
    requires
        from <= to <= cs.len(),
    ensures
        r == all_ascii_digits_spec(cs@.subrange(from as int, to as int)),
{
    let ghost d = cs@.subrange(from as int, to as int);
    let mut k = from;
    while k < to
        invariant
            from <= k <= to <= cs.len(),
            d == cs@.subrange(from as int, to as int),
            forall|i: int| 0 <= i < k - from ==> is_ascii_digit(#[trigger] d[i]),
        decreases to - k,
    {
        if !is_ascii_digit_char(cs[k]) {
            assert(d[k - from] == cs@[k as int]);
            return false;
        }
        k = k + 1;
    }
    true
}

} // verus!

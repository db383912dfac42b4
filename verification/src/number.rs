//! Decimal numbers as text: reading and writing 64-bit integers, and the
//! syntax of decimal and exponential floating-point literals.

use vstd::prelude::*;

verus! {

/// Whether a character is an ASCII decimal digit.
pub open spec fn is_digit(c: char) -> bool {
    '0' <= c && c <= '9'
}

/// The number that a decimal digit stands for.
pub open spec fn digit_value(c: char) -> int {
    c as u32 - 48
}

/// The decimal digit that stands for `d`, for `d` below ten.
pub open spec fn digit_char(d: int) -> char {
    (d + 48) as char
}

/// Whether every character of `s` is a decimal digit.
pub open spec fn all_digits(s: Seq<char>) -> bool {
    forall|i: int| 0 <= i < s.len() ==> is_digit(#[trigger] s[i])
}

/// The number that a run of decimal digits denotes, most significant first.
pub open spec fn digits_value(s: Seq<char>) -> int
    decreases s.len(),
{
    if s.len() == 0 {
        0
    } else {
        digits_value(s.drop_last()) * 10 + digit_value(s.last())
    }
}

/// Whether a character is a plus or a minus sign.
pub open spec fn is_sign(c: char) -> bool {
    c == '+' || c == '-'
}

/// The integer that a text denotes as a 64-bit signed decimal: an optional
/// sign, then one or more digits, with a value that the type can hold.
pub open spec fn int_of_text(t: Seq<char>) -> Option<int> {
    let signed = t.len() > 0 && is_sign(t[0]);
    let body = if signed {
        t.skip(1)
    } else {
        t
    };
    let value = if t.len() > 0 && t[0] == '-' {
        -digits_value(body)
    } else {
        digits_value(body)
    };
    if body.len() > 0 && all_digits(body) && i64::MIN <= value <= i64::MAX {
        Some(value)
    } else {
        None
    }
}

/// The decimal digits of a natural number, without leading zeros.
pub open spec fn nat_text(n: nat) -> Seq<char>
    decreases n,
{
    if n < 10 {
        seq![digit_char(n as int)]
    } else {
        nat_text(n / 10).push(digit_char((n % 10) as int))
    }
}

/// The decimal text of an integer: a minus sign where it is negative, then
/// the digits of its magnitude.
pub open spec fn int_text(i: int) -> Seq<char> {
    if i < 0 {
        seq!['-'] + nat_text((-i) as nat)
    } else {
        nat_text(i as nat)
    }
}

/// The length of the run of digits that starts at `from`.
pub open spec fn digit_run(s: Seq<char>, from: int) -> nat
    decreases s.len() - from,
{
    if 0 <= from < s.len() && is_digit(s[from]) {
        1 + digit_run(s, from + 1)
    } else {
        0
    }
}

/// One where a sign stands at `at`, zero otherwise.
pub open spec fn sign_len(s: Seq<char>, at: int) -> int {
    if 0 <= at < s.len() && is_sign(s[at]) {
        1
    } else {
        0
    }
}

/// Where the mantissa of a floating-point literal ends: after an optional
/// sign, the digits before the point, an optional point and the digits
/// after it.
pub open spec fn mantissa_end(t: Seq<char>) -> int {
    let b = sign_len(t, 0) + digit_run(t, sign_len(t, 0));
    if b < t.len() && t[b] == '.' {
        b + 1 + digit_run(t, b + 1)
    } else {
        b
    }
}

/// The number of digits in the mantissa of a floating-point literal.
pub open spec fn mantissa_digits(t: Seq<char>) -> int {
    let b = sign_len(t, 0) + digit_run(t, sign_len(t, 0));
    if b < t.len() && t[b] == '.' {
        (digit_run(t, sign_len(t, 0)) + digit_run(t, b + 1)) as int
    } else {
        digit_run(t, sign_len(t, 0)) as int
    }
}

/// Whether a text is a floating-point literal in decimal or exponential
/// form: an optional sign; digits with an optional point among them, at
/// least one digit in all; and optionally `e` or `E`, an optional sign and
/// one or more digits.
pub open spec fn is_float_text(t: Seq<char>) -> bool {
    let c = mantissa_end(t);
    &&& mantissa_digits(t) > 0
    &&& (c == t.len() || {
        let d = c + 1 + sign_len(t, c + 1);
        &&& c < t.len()
        &&& (t[c] == 'e' || t[c] == 'E')
        &&& digit_run(t, d) > 0
        &&& d + digit_run(t, d) == t.len()
    })
}

/// A digit after a run of digits multiplies its value by ten and adds the
/// digit.
pub proof fn lemma_digits_push(s: Seq<char>, c: char)
    ensures
        digits_value(s.push(c)) == digits_value(s) * 10 + digit_value(c),
{
    assert(s.push(c).drop_last() == s);
}

/// A run of digits that ends before a character that is none, or at the
/// end of the text, has the length of the digits.
pub proof fn lemma_digit_run(s: Seq<char>, from: int, to: int)
    requires
        0 <= from <= to <= s.len(),
        forall|j: int| from <= j < to ==> is_digit(#[trigger] s[j]),
        to == s.len() || !is_digit(s[to]),
    ensures
        digit_run(s, from) == to - from,
    decreases to - from,
{
    if from < to {
        lemma_digit_run(s, from + 1, to);
    }
}

/// A run of digits lies within the text and holds digits only.
pub proof fn lemma_digit_run_props(s: Seq<char>, from: int)
    requires
        0 <= from,
    ensures
        from + digit_run(s, from) <= s.len() || digit_run(s, from) == 0,
        forall|j: int| from <= j < from + digit_run(s, from) ==> is_digit(#[trigger] s[j]),
    decreases s.len() - from,
{
    if from < s.len() && is_digit(s[from]) {
        lemma_digit_run_props(s, from + 1);
    }
}

/// The digits of a number are digits, and denote it.
pub proof fn lemma_nat_text(n: nat)
    ensures
        nat_text(n).len() > 0,
        all_digits(nat_text(n)),
        digits_value(nat_text(n)) == n,
    decreases n,
{
    if n < 10 {
        let s = nat_text(n);
        assert(s.drop_last() =~= Seq::<char>::empty());
        assert(digits_value(s.drop_last()) == 0);
    } else {
        lemma_nat_text(n / 10);
        let p = nat_text(n / 10);
        let c = digit_char((n % 10) as int);
        lemma_digits_push(p, c);
        assert forall|i: int| 0 <= i < p.push(c).len() implies is_digit(
            #[trigger] p.push(c)[i],
        ) by {
            if i < p.len() {
                assert(p.push(c)[i] == p[i]);
            }
        }
    }
}

/// Reading the decimal text of a 64-bit integer gives the integer back.
pub proof fn lemma_int_text_round_trip(i: int)
    requires
        i64::MIN <= i <= i64::MAX,
    ensures
        int_of_text(int_text(i)) == Some(i),
        int_text(i).len() > 0,
        !is_digit(int_text(i)[0]) ==> int_text(i)[0] == '-',
        is_digit(int_text(i).last()),
{
    let t = int_text(i);
    if i < 0 {
        let m = (-i) as nat;
        lemma_nat_text(m);
        assert(t.skip(1) =~= nat_text(m));
        assert(t[0] == '-');
        assert(t.last() == nat_text(m).last());
    } else {
        lemma_nat_text(i as nat);
        assert(is_digit(t[0]));
    }
}

/// A floating-point literal is not empty and holds no whitespace at either end.
pub proof fn lemma_float_text_ends(t: Seq<char>)
    requires
        is_float_text(t),
    ensures
        t.len() > 0,
        is_sign(t[0]) || is_digit(t[0]) || t[0] == '.',
        is_digit(t.last()) || t.last() == '.',
{
    let a = sign_len(t, 0);
    lemma_digit_run_props(t, a);
    let b = a + digit_run(t, a);
    if b < t.len() && t[b] == '.' {
        lemma_digit_run_props(t, b + 1);
    }
    let c = mantissa_end(t);
    if c != t.len() {
        let d = c + 1 + sign_len(t, c + 1);
        lemma_digit_run_props(t, d);
    }
}

/// Whether a character is a decimal digit.
pub fn char_is_digit(c: char) -> (b: bool)
    ensures
        b == is_digit(c),
{
    c >= '0' && c <= '9'
}

/// The value of a decimal digit.
pub fn digit_of(c: char) -> (d: u8)
    requires
        is_digit(c),
    ensures
        d == digit_value(c),
        d <= 9,
{
    let u: u32 = c as u32;
    (u - 48) as u8
}

/// The decimal digit for a number below ten.
pub fn char_of_digit(d: u8) -> (c: char)
    requires
        d <= 9,
    ensures
        c == digit_char(d as int),
        is_digit(c),
        digit_value(c) == d,
{
    match d {
        0 => '0',
        1 => '1',
        2 => '2',
        3 => '3',
        4 => '4',
        5 => '5',
        6 => '6',
        7 => '7',
        8 => '8',
        _ => '9',
    }
}

/// The length of the run of digits in `v` that starts at `from`.
pub fn scan_digits(v: &Vec<char>, from: usize) -> (n: usize)
    requires
        from <= v.len(),
    ensures
        n == digit_run(v@, from as int),
        from + n <= v.len(),
{
    let mut to: usize = from;
    while to < v.len() && char_is_digit(v[to])
        invariant
            from <= to <= v.len(),
            forall|j: int| from <= j < to ==> is_digit(#[trigger] v@[j]),
        decreases v.len() - to,
    {
        to += 1;
    }
    proof {
        lemma_digit_run(v@, from as int, to as int);
    }
    to - from
}

/// Read a 64-bit signed integer from its decimal text.
pub fn parse_i64(v: &Vec<char>) -> (r: Option<i64>)
    ensures
        match r {
            Some(i) => int_of_text(v@) == Some(i as int),
            None => int_of_text(v@) is None,
        },
{
    let n = v.len();
    let negative = n > 0 && v[0] == '-';
    let start: usize = if n > 0 && (v[0] == '-' || v[0] == '+') {
        1
    } else {
        0
    };
    let ghost body = if start == 1 {
        v@.skip(1)
    } else {
        v@
    };
    assert(body == v@.skip(start as int));
    if start == n {
        return None;
    }
    let limit: u64 = 0x8000_0000_0000_0000;
    let mut acc: u64 = 0;
    let mut over = false;
    let mut i: usize = start;
    while i < n
        invariant
            start <= i <= n == v.len(),
            body == v@.skip(start as int),
            body == if v@.len() > 0 && is_sign(v@[0]) {
                v@.skip(1)
            } else {
                v@
            },
            limit == 0x8000_0000_0000_0000,
            all_digits(body.take(i - start)),
            !over ==> acc == digits_value(body.take(i - start)) && acc <= limit,
            over ==> digits_value(body.take(i - start)) > limit,
        decreases n - i,
    {
        let c = v[i];
        if !char_is_digit(c) {
            assert(body[i - start] == c);
            assert(!all_digits(body));
            return None;
        }
        let d = digit_of(c) as u64;
        proof {
            let prev = body.take(i - start);
            assert(body.take(i - start + 1) =~= prev.push(c));
            lemma_digits_push(prev, c);
            assert forall|j: int| 0 <= j < prev.push(c).len() implies is_digit(
                #[trigger] prev.push(c)[j],
            ) by {
                if j < prev.len() {
                    assert(prev.push(c)[j] == prev[j]);
                }
            }
        }
        if !over {
            if acc > (limit - d) / 10 {
                over = true;
            } else {
                acc = acc * 10 + d;
            }
        }
        i += 1;
    }
    assert(body.take(n - start) =~= body);
    if over {
        None
    } else if negative {
        if acc == limit {
            Some(i64::MIN)
        } else {
            Some(-(acc as i64))
        }
    } else if acc < limit {
        Some(acc as i64)
    } else {
        None
    }
}

/// Append the decimal digits of `n` to `out`.
pub fn push_nat(n: u64, out: &mut Vec<char>)
    ensures
        final(out)@ == old(out)@ + nat_text(n as nat),
    decreases n,
{
    if n >= 10 {
        push_nat(n / 10, out);
    }
    out.push(char_of_digit((n % 10) as u8));
    proof {
        if n < 10 {
            assert(old(out)@.push(digit_char(n as int)) =~= old(out)@ + nat_text(n as nat));
        } else {
            assert((old(out)@ + nat_text((n / 10) as nat)).push(digit_char((n % 10) as int))
                =~= old(out)@ + nat_text(n as nat));
        }
    }
}

/// The decimal text of a 64-bit signed integer.
pub fn render_i64(i: i64) -> (out: Vec<char>)
    ensures
        out@ == int_text(i as int),
{
    let mut out: Vec<char> = Vec::new();
    if i < 0 {
        out.push('-');
        let magnitude: u64 = if i == i64::MIN {
            0x8000_0000_0000_0000
        } else {
            (-i) as u64
        };
        push_nat(magnitude, &mut out);
    } else {
        push_nat(i as u64, &mut out);
        assert(Seq::<char>::empty() + nat_text(i as nat) =~= nat_text(i as nat));
    }
    out
}

/// Whether `v` is a floating-point literal in decimal or exponential form.
pub fn check_float_text(v: &Vec<char>) -> (b: bool)
    ensures
        b == is_float_text(v@),
{
    let n = v.len();
    let a: usize = if n > 0 && (v[0] == '+' || v[0] == '-') {
        1
    } else {
        0
    };
    let whole = scan_digits(v, a);
    let b = a + whole;
    let mut c = b;
    let mut digits = whole;
    if b < n && v[b] == '.' {
        let frac = scan_digits(v, b + 1);
        c = b + 1 + frac;
        digits = whole + frac;
    }
    if digits == 0 {
        return false;
    }
    if c == n {
        return true;
    }
    if !(v[c] == 'e' || v[c] == 'E') {
        return false;
    }
    let d: usize = if c + 1 < n && (v[c + 1] == '+' || v[c + 1] == '-') {
        c + 2
    } else {
        c + 1
    };
    let exp = scan_digits(v, d);
    exp > 0 && d + exp == n
}

} // verus!

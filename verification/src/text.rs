//! Text as sequences of characters: trimming, case folding, searching and
//! the conversions between strings, characters and bytes.

use vstd::prelude::*;
use vstd::string::{StrSliceExecFns, StringSliceAdditionalSpecFns};

verus! {

/// Appending one character to a `String` appends it to the string's view.
pub assume_specification[ std::string::String::push ](s: &mut std::string::String, c: char)
    ensures
        final(s)@ == old(s)@.push(c),
;

/// Whether a character has the Unicode property `White_Space`.
pub open spec fn is_whitespace(c: char) -> bool {
    let u = c as u32;
    ||| 0x09 <= u <= 0x0D
    ||| u == 0x20
    ||| u == 0x85
    ||| u == 0xA0
    ||| u == 0x1680
    ||| 0x2000 <= u <= 0x200A
    ||| u == 0x2028
    ||| u == 0x2029
    ||| u == 0x202F
    ||| u == 0x205F
    ||| u == 0x3000
}

/// The number of whitespace characters at the start of `s`.
pub open spec fn leading_ws(s: Seq<char>) -> nat
    decreases s.len(),
{
    if s.len() == 0 || !is_whitespace(s[0]) {
        0
    } else {
        1 + leading_ws(s.drop_first())
    }
}

/// The number of whitespace characters at the end of `s`.
pub open spec fn trailing_ws(s: Seq<char>) -> nat
    decreases s.len(),
{
    if s.len() == 0 || !is_whitespace(s.last()) {
        0
    } else {
        1 + trailing_ws(s.drop_last())
    }
}

/// `s` without the whitespace at its start and at its end.
pub open spec fn trimmed(s: Seq<char>) -> Seq<char> {
    let rest = s.skip(leading_ws(s) as int);
    rest.take(rest.len() - trailing_ws(rest))
}

/// Whether `s` holds nothing but whitespace.
pub open spec fn is_blank(s: Seq<char>) -> bool {
    forall|i: int| 0 <= i < s.len() ==> is_whitespace(#[trigger] s[i])
}

/// A character's code, with the ASCII capitals mapped to their small letters.
pub open spec fn folded(c: char) -> u32 {
    if 'A' <= c && c <= 'Z' {
        (c as u32 + 32) as u32
    } else {
        c as u32
    }
}

/// Whether two texts are equal up to the case of their ASCII letters.
pub open spec fn eq_ignore_case(a: Seq<char>, b: Seq<char>) -> bool {
    &&& a.len() == b.len()
    &&& forall|i: int| 0 <= i < a.len() ==> folded(#[trigger] a[i]) == folded(b[i])
}

/// Whether `s` begins with `prefix` up to the case of the ASCII letters.
pub open spec fn starts_with_ignore_case(s: Seq<char>, prefix: Seq<char>) -> bool {
    &&& prefix.len() <= s.len()
    &&& eq_ignore_case(s.take(prefix.len() as int), prefix)
}

/// The position of the first `c` in `s`, or the length of `s` where it holds none.
pub open spec fn first_index<T>(s: Seq<T>, c: T) -> nat
    decreases s.len(),
{
    if s.len() == 0 || s[0] == c {
        0
    } else {
        1 + first_index(s.drop_first(), c)
    }
}

/// How often `c` occurs in `s`.
pub open spec fn count<T>(s: Seq<T>, c: T) -> nat
    decreases s.len(),
{
    if s.len() == 0 {
        0
    } else {
        count(s.drop_last(), c) + if s.last() == c {
            1nat
        } else {
            0nat
        }
    }
}

/// The pieces of `s` between the occurrences of `sep`, in order. A text
/// without `sep` is one piece; `n` separators give `n + 1` pieces.
pub open spec fn split<T>(s: Seq<T>, sep: T) -> Seq<Seq<T>>
    decreases s.len(),
{
    let i = first_index(s, sep) as int;
    if i >= s.len() {
        seq![s]
    } else {
        seq![s.take(i)] + split(s.skip(i + 1), sep)
    }
}

/// Whether `needle` stands in `hay` at position `i`.
pub open spec fn occurs_at<T>(hay: Seq<T>, needle: Seq<T>, i: int) -> bool {
    &&& 0 <= i
    &&& i + needle.len() <= hay.len()
    &&& hay.subrange(i, i + needle.len()) == needle
}

/// Whether `needle` stands anywhere in `hay`.
pub open spec fn contains_seq<T>(hay: Seq<T>, needle: Seq<T>) -> bool {
    exists|i: int| occurs_at(hay, needle, i)
}

/// The views of a vector of strings.
pub open spec fn views(v: Seq<String>) -> Seq<Seq<char>> {
    v.map_values(|s: String| s@)
}

/// The whitespace at the start of a text ends before its first character
/// that is none.
pub proof fn lemma_leading_ws(s: Seq<char>, i: int)
    requires
        0 <= i <= s.len(),
        forall|j: int| 0 <= j < i ==> is_whitespace(#[trigger] s[j]),
        i == s.len() || !is_whitespace(s[i]),
    ensures
        leading_ws(s) == i,
    decreases i,
{
    if i > 0 {
        let t = s.drop_first();
        assert forall|j: int| 0 <= j < i - 1 implies is_whitespace(#[trigger] t[j]) by {
            assert(t[j] == s[j + 1]);
        }
        lemma_leading_ws(t, i - 1);
    }
}

/// The whitespace at the end of a text begins after its last character that
/// is none.
pub proof fn lemma_trailing_ws(s: Seq<char>, k: int)
    requires
        0 <= k <= s.len(),
        forall|j: int| s.len() - k <= j < s.len() ==> is_whitespace(#[trigger] s[j]),
        k == s.len() || !is_whitespace(s[s.len() - k - 1]),
    ensures
        trailing_ws(s) == k,
    decreases k,
{
    if k > 0 {
        let t = s.drop_last();
        assert forall|j: int| t.len() - (k - 1) <= j < t.len() implies is_whitespace(
            #[trigger] t[j],
        ) by {
            assert(t[j] == s[j]);
        }
        lemma_trailing_ws(t, k - 1);
    }
}

/// A text that neither begins nor ends with whitespace is its own trimming.
pub proof fn lemma_trimmed_fixed(s: Seq<char>)
    requires
        s.len() == 0 || (!is_whitespace(s[0]) && !is_whitespace(s.last())),
    ensures
        trimmed(s) == s,
{
    lemma_leading_ws(s, 0);
    assert(s.skip(0) == s);
    lemma_trailing_ws(s, 0);
    assert(s.take(s.len() as int) == s);
}

/// What trimming leaves neither begins nor ends with whitespace, and it is
/// empty exactly for a blank text.
pub proof fn lemma_trimmed_props(s: Seq<char>)
    ensures
        trimmed(s).len() == 0 <==> is_blank(s),
        trimmed(s).len() > 0 ==> !is_whitespace(trimmed(s)[0]) && !is_whitespace(
            trimmed(s).last(),
        ),
        trimmed(trimmed(s)) == trimmed(s),
        leading_ws(s) + trailing_ws(s.skip(leading_ws(s) as int)) <= s.len(),
{
    lemma_leading_ws_props(s);
    let a = leading_ws(s) as int;
    let rest = s.skip(a);
    lemma_trailing_ws_props(rest);
    let t = trimmed(s);
    if t.len() > 0 {
        assert(t[0] == rest[0]);
        assert(rest[0] == s[a]);
        assert(t.last() == rest[rest.len() - trailing_ws(rest) - 1]);
        assert(!is_blank(s));
    } else {
        if a < s.len() {
            assert(trailing_ws(rest) == rest.len());
            assert(is_whitespace(rest[0]));
            assert(rest[0] == s[a]);
        }
        assert(a == s.len());
    }
    lemma_trimmed_fixed(t);
}

/// The whitespace at the start of a text is whitespace, and what follows it
/// is none.
pub proof fn lemma_leading_ws_props(s: Seq<char>)
    ensures
        leading_ws(s) <= s.len(),
        forall|j: int| 0 <= j < leading_ws(s) ==> is_whitespace(#[trigger] s[j]),
        leading_ws(s) < s.len() ==> !is_whitespace(s[leading_ws(s) as int]),
    decreases s.len(),
{
    if s.len() == 0 || !is_whitespace(s[0]) {
    } else {
        let t = s.drop_first();
        lemma_leading_ws_props(t);
        assert forall|j: int| 0 <= j < leading_ws(s) implies is_whitespace(#[trigger] s[j]) by {
            if j > 0 {
                assert(s[j] == t[j - 1]);
            }
        }
        if leading_ws(s) < s.len() {
            assert(s[leading_ws(s) as int] == t[leading_ws(t) as int]);
        }
    }
}

/// The whitespace at the end of a text is whitespace, and what stands
/// before it is none.
pub proof fn lemma_trailing_ws_props(s: Seq<char>)
    ensures
        trailing_ws(s) <= s.len(),
        forall|j: int| s.len() - trailing_ws(s) <= j < s.len() ==> is_whitespace(#[trigger] s[j]),
        trailing_ws(s) < s.len() ==> !is_whitespace(s[s.len() - trailing_ws(s) - 1]),
    decreases s.len(),
{
    if s.len() == 0 || !is_whitespace(s.last()) {
    } else {
        let t = s.drop_last();
        lemma_trailing_ws_props(t);
        assert forall|j: int| s.len() - trailing_ws(s) <= j < s.len() implies is_whitespace(
            #[trigger] s[j],
        ) by {
            if j < s.len() - 1 {
                assert(s[j] == t[j]);
            }
        }
        if trailing_ws(s) < s.len() {
            assert(s[s.len() - trailing_ws(s) - 1] == t[t.len() - trailing_ws(t) - 1]);
        }
    }
}

/// The first position of a value is the position before which it does not
/// occur and at which it does.
pub proof fn lemma_first_index<T>(s: Seq<T>, c: T, i: int)
    requires
        0 <= i <= s.len(),
        forall|j: int| 0 <= j < i ==> #[trigger] s[j] != c,
        i == s.len() || s[i] == c,
    ensures
        first_index(s, c) == i,
    decreases i,
{
    if i > 0 {
        let t = s.drop_first();
        assert forall|j: int| 0 <= j < i - 1 implies #[trigger] t[j] != c by {
            assert(t[j] == s[j + 1]);
        }
        lemma_first_index(t, c, i - 1);
    }
}

/// Whether a character is whitespace.
pub fn char_is_whitespace(c: char) -> (b: bool)
    ensures
        b == is_whitespace(c),
{
    let u: u32 = c as u32;
    (0x09 <= u && u <= 0x0D) || u == 0x20 || u == 0x85 || u == 0xA0 || u == 0x1680 || (0x2000 <= u
        && u <= 0x200A) || u == 0x2028 || u == 0x2029 || u == 0x202F || u == 0x205F || u == 0x3000
}

/// A character's code with ASCII capitals folded to small letters.
pub fn fold_char(c: char) -> (u: u32)
    ensures
        u == folded(c),
{
    if c >= 'A' && c <= 'Z' {
        c as u32 + 32
    } else {
        c as u32
    }
}

/// The characters of a string.
pub fn chars_of(s: &str) -> (v: Vec<char>)
    ensures
        v@ == s@,
{
    let mut v: Vec<char> = Vec::new();
    for c in it: s.chars()
        invariant
            v@ == it.seq().take(it.index() as int),
    {
        v.push(c);
    }
    v
}

/// The string made of the characters `v[from..to]`.
pub fn string_of(v: &Vec<char>, from: usize, to: usize) -> (s: String)
    requires
        from <= to <= v.len(),
    ensures
        s@ == v@.subrange(from as int, to as int),
{
    let mut s = String::new();
    let mut i: usize = from;
    while i < to
        invariant
            from <= i <= to <= v.len(),
            s@ == v@.subrange(from as int, i as int),
        decreases to - i,
    {
        s.push(v[i]);
        assert(v@.subrange(from as int, i as int).push(v@[i as int]) == v@.subrange(
            from as int,
            i + 1,
        ));
        i += 1;
    }
    s
}

/// The bounds of what trimming leaves of `v`: `trimmed(v@)` is `v[from..to]`.
pub fn trim_bounds(v: &Vec<char>) -> (r: (usize, usize))
    ensures
        r.0 <= r.1 <= v.len(),
        v@.subrange(r.0 as int, r.1 as int) == trimmed(v@),
        r.0 == leading_ws(v@),
{
    let n = v.len();
    let mut from: usize = 0;
    while from < n && char_is_whitespace(v[from])
        invariant
            from <= n == v.len(),
            forall|j: int| 0 <= j < from ==> is_whitespace(#[trigger] v@[j]),
        decreases n - from,
    {
        from += 1;
    }
    let mut to: usize = n;
    while to > from && char_is_whitespace(v[to - 1])
        invariant
            from <= to <= n == v.len(),
            forall|j: int| to <= j < n ==> is_whitespace(#[trigger] v@[j]),
        decreases to,
    {
        to -= 1;
    }
    proof {
        lemma_leading_ws(v@, from as int);
        let rest = v@.skip(from as int);
        assert forall|j: int| rest.len() - (n - to) <= j < rest.len() implies is_whitespace(
            #[trigger] rest[j],
        ) by {
            assert(rest[j] == v@[j + from]);
        }
        if to > from {
            assert(rest[rest.len() - (n - to) - 1] == v@[to - 1]);
        }
        lemma_trailing_ws(rest, (n - to) as int);
        assert(rest.take(rest.len() - (n - to)) == v@.subrange(from as int, to as int));
    }
    (from, to)
}

/// A string without the whitespace at its start and end.
pub fn trim(s: &str) -> (t: String)
    ensures
        t@ == trimmed(s@),
{
    let v = chars_of(s);
    let (from, to) = trim_bounds(&v);
    string_of(&v, from, to)
}

/// Whether two strings hold the same characters. Strings hold the same
/// characters exactly where they are encoded by the same bytes.
pub fn str_eq(a: &str, b: &str) -> (r: bool)
    ensures
        r == (a@ == b@),
{
    let x = a.as_bytes();
    let y = b.as_bytes();
    proof {
        vstd::utf8::encode_utf8_decode_utf8(a@);
        vstd::utf8::encode_utf8_decode_utf8(b@);
    }
    if x.len() != y.len() {
        return false;
    }
    let mut i: usize = 0;
    while i < x.len()
        invariant
            i <= x.len() == y.len(),
            x@ == a.spec_bytes(),
            y@ == b.spec_bytes(),
            forall|j: int| 0 <= j < i ==> x@[j] == y@[j],
        decreases x.len() - i,
    {
        if x[i] != y[i] {
            return false;
        }
        i += 1;
    }
    assert(x@ =~= y@);
    true
}

/// Whether `v[from..to]` equals `text` up to the case of the ASCII letters.
pub fn range_eq_ignore_case(v: &Vec<char>, from: usize, to: usize, text: &str) -> (r: bool)
    requires
        from <= to <= v.len(),
    ensures
        r == eq_ignore_case(v@.subrange(from as int, to as int), text@),
{
    let t = chars_of(text);
    if t.len() != to - from {
        return false;
    }
    let ghost part = v@.subrange(from as int, to as int);
    let mut i: usize = 0;
    while i < t.len()
        invariant
            i <= t.len(),
            from <= to <= v.len(),
            t.len() == to - from,
            t@ == text@,
            part == v@.subrange(from as int, to as int),
            forall|j: int| 0 <= j < i ==> folded(#[trigger] part[j]) == folded(t@[j]),
        decreases t.len() - i,
    {
        assert(part[i as int] == v@[from + i]);
        if fold_char(v[from + i]) != fold_char(t[i]) {
            return false;
        }
        i += 1;
    }
    true
}

/// Whether `v[from..to]` begins with `prefix` up to the case of the ASCII letters.
pub fn range_starts_with_ignore_case(v: &Vec<char>, from: usize, to: usize, prefix: &str) -> (r:
    bool)
    requires
        from <= to <= v.len(),
    ensures
        r == starts_with_ignore_case(v@.subrange(from as int, to as int), prefix@),
{
    let n = prefix.unicode_len();
    if n > to - from {
        return false;
    }
    assert(v@.subrange(from as int, to as int).take(n as int) =~= v@.subrange(
        from as int,
        from + n,
    ));
    range_eq_ignore_case(v, from, from + n, prefix)
}

/// A copy of the bytes `v[from..to]`.
pub fn bytes_of(v: &[u8], from: usize, to: usize) -> (r: Vec<u8>)
    requires
        from <= to <= v.len(),
    ensures
        r@ == v@.subrange(from as int, to as int),
{
    let mut r: Vec<u8> = Vec::new();
    let mut i: usize = from;
    while i < to
        invariant
            from <= i <= to <= v.len(),
            r@ == v@.subrange(from as int, i as int),
        decreases to - i,
    {
        r.push(v[i]);
        assert(v@.subrange(from as int, i as int).push(v@[i as int]) == v@.subrange(
            from as int,
            i + 1,
        ));
        i += 1;
    }
    r
}

/// The position of the first `c` in `v` at or after `from`, or the length
/// of `v` where there is none.
pub fn find_byte(v: &[u8], from: usize, c: u8) -> (i: usize)
    requires
        from <= v.len(),
    ensures
        from <= i <= v.len(),
        i == from + first_index(v@.skip(from as int), c),
{
    let mut i: usize = from;
    while i < v.len() && v[i] != c
        invariant
            from <= i <= v.len(),
            forall|j: int| from <= j < i ==> v@[j] != c,
        decreases v.len() - i,
    {
        i += 1;
    }
    proof {
        let rest = v@.skip(from as int);
        assert forall|j: int| 0 <= j < i - from implies #[trigger] rest[j] != c by {
            assert(rest[j] == v@[from + j]);
        }
        lemma_first_index(rest, c, i - from);
    }
    i
}

/// How often `c` occurs in `v`.
pub fn count_byte(v: &[u8], c: u8) -> (n: usize)
    ensures
        n == count(v@, c),
{
    let mut n: usize = 0;
    let mut i: usize = 0;
    while i < v.len()
        invariant
            i <= v.len(),
            n <= i,
            n == count(v@.take(i as int), c),
        decreases v.len() - i,
    {
        assert(v@.take(i + 1).drop_last() == v@.take(i as int));
        if v[i] == c {
            n += 1;
        }
        i += 1;
    }
    assert(v@.take(v.len() as int) == v@);
    n
}

/// The pieces of `v` between the occurrences of `sep`.
pub fn split_bytes(v: &[u8], sep: u8) -> (parts: Vec<Vec<u8>>)
    ensures
        parts@.map_values(|p: Vec<u8>| p@) == split(v@, sep),
{
    let mut parts: Vec<Vec<u8>> = Vec::new();
    let mut start: usize = 0;
    proof {
        assert(v@.skip(0) == v@);
        assert(parts@.map_values(|p: Vec<u8>| p@) + split(v@, sep) =~= split(v@, sep));
    }
    loop
        invariant
            start <= v.len(),
            split(v@, sep) == parts@.map_values(|p: Vec<u8>| p@) + split(
                v@.skip(start as int),
                sep,
            ),
        decreases v.len() - start,
    {
        let i = find_byte(v, start, sep);
        let ghost rest = v@.skip(start as int);
        let ghost before = parts@.map_values(|p: Vec<u8>| p@);
        parts.push(bytes_of(v, start, i));
        proof {
            assert(rest.take(i - start) == v@.subrange(start as int, i as int));
            assert(parts@.map_values(|p: Vec<u8>| p@) =~= before.push(
                v@.subrange(start as int, i as int),
            ));
        }
        if i >= v.len() {
            proof {
                assert(rest.take(rest.len() as int) == rest);
                assert(split(rest, sep) == seq![rest]);
                assert(before + seq![rest] =~= before.push(rest));
            }
            return parts;
        }
        proof {
            assert(rest.skip(i - start + 1) == v@.skip(i + 1));
            assert(before + (seq![rest.take(i - start)] + split(v@.skip(i + 1), sep))
                =~= before.push(rest.take(i - start)) + split(v@.skip(i + 1), sep));
        }
        start = i + 1;
    }
}

} // verus!

//! Character-level text handling shared by the form model and renderer:
//! building strings a `char` at a time, decimal numbers, and ASCII case.
use vstd::prelude::*;
use vstd::string::*;

verus! {

/// `String::push`: appends one `char` to the string.
#[verifier::external_body]
pub(crate) fn push_char(s: &mut String, c: char)
    ensures
        final(s)@ == old(s)@.push(c),
{
    s.push(c);
}

/// The characters of `s`, in order.
pub(crate) fn chars_of(s: &str) -> (v: Vec<char>)
    ensures
        v@ == s@,
{
    let n = s.unicode_len();
    let mut v: Vec<char> = Vec::new();
    let mut i: usize = 0;
    while i < n
        invariant
            i <= n,
            n == s@.len(),
            v@ == s@.subrange(0, i as int),
        decreases n - i,
    {
        v.push(s.get_char(i));
        i = i + 1;
    }
    v
}

/// A string holding exactly the characters `v@[from..to]`.
pub(crate) fn string_of(v: &Vec<char>, from: usize, to: usize) -> (s: String)
    requires
        from <= to <= v@.len(),
    ensures
        s@ == v@.subrange(from as int, to as int),
{
    let mut s = String::new();
    let mut i = from;
    while i < to
        invariant
            from <= i <= to,
            to <= v@.len(),
            s@ == v@.subrange(from as int, i as int),
        decreases to - i,
    {
        push_char(&mut s, v[i]);
        i = i + 1;
    }
    s
}

/// Append `n` copies of `c`.
pub(crate) fn push_repeat(s: &mut String, c: char, n: usize)
    ensures
        final(s)@ == old(s)@ + Seq::new(n as nat, |_i: int| c),
{
    let mut k: usize = 0;
    while k < n
        invariant
            k <= n,
            s@ == old(s)@ + Seq::new(k as nat, |_i: int| c),
        decreases n - k,
    {
        push_char(s, c);
        k = k + 1;
        assert(s@ =~= old(s)@ + Seq::new(k as nat, |_i: int| c));
    }
}

/// Whether `c` is one of the ASCII digits `0`-`9`.
pub open spec fn is_digit(c: char) -> bool {
    '0' <= c <= '9'
}

/// The digit `0 <= d < 10` as its ASCII character.
pub open spec fn digit_char(d: int) -> char {
    (d + '0' as int) as char
}

/// The decimal digits of `v`, most significant first, with no leading
/// zeros (`0` is written `"0"`).
pub open spec fn decimal(v: nat) -> Seq<char>
    decreases v,
{
    if v < 10 {
        seq![digit_char(v as int)]
    } else {
        decimal(v / 10).push(digit_char((v % 10) as int))
    }
}

/// The value of a run of ASCII digits.
pub open spec fn digits_value(s: Seq<char>) -> nat
    decreases s.len(),
{
    if s.len() == 0 {
        0
    } else {
        digits_value(s.drop_last()) * 10 + (s.last() as int - '0' as int) as nat
    }
}

/// `s` without the one leading `+` that `str::parse` allows on a number.
pub open spec fn unsigned_digits(s: Seq<char>) -> Seq<char> {
    if s.len() > 0 && s[0] == '+' {
        s.drop_first()
    } else {
        s
    }
}

/// Every char of `d` is an ASCII digit.
pub open spec fn all_digits(d: Seq<char>) -> bool {
    forall|i: int| 0 <= i < d.len() ==> is_digit(#[trigger] d[i])
}

/// How `str::parse::<u32>` reads `s`: an optional leading `+`, then one or
/// more ASCII digits whose value fits in a `u32`; anything else is refused.
pub open spec fn parse_u32(s: Seq<char>) -> Option<u32> {
    let d = unsigned_digits(s);
    if d.len() > 0 && all_digits(d) && digits_value(d) <= u32::MAX {
        Some(digits_value(d) as u32)
    } else {
        None
    }
}

/// `c` with `A`-`Z` folded to `a`-`z`; every other char unchanged.
pub open spec fn ascii_lower(c: char) -> char {
    if 'A' <= c <= 'Z' {
        (c as int + 32) as char
    } else {
        c
    }
}

/// Append the decimal digits of `v`.
pub(crate) fn push_decimal(s: &mut String, v: u32)
    ensures
        final(s)@ == old(s)@ + decimal(v as nat),
    decreases v,
{
    if v >= 10 {
        push_decimal(s, v / 10);
    }
    let d: u8 = (v % 10) as u8;
    push_char(s, (d + 48u8) as char);
    assert(final(s)@ =~= old(s)@ + decimal(v as nat));
}

/// `v` in decimal.
pub(crate) fn decimal_string(v: u32) -> (s: String)
    ensures
        s@ == decimal(v as nat),
{
    let mut s = String::new();
    push_decimal(&mut s, v);
    assert(s@ =~= decimal(v as nat));
    s
}

/// Parse `s` as `str::parse::<u32>` does.
pub(crate) fn parse_u32_of(s: &str) -> (r: Option<u32>)
    ensures
        r == parse_u32(s@),
{
    let n = s.unicode_len();
    let mut i: usize = 0;
    if n > 0 && s.get_char(0) == '+' {
        i = 1;
    }
    let ghost start = i as int;
    let ghost d = unsigned_digits(s@);
    assert(d =~= s@.subrange(start, n as int));
    if i == n {
        return None;
    }
    // Saturates at one past `u32::MAX`, so overflow is remembered, not lost.
    let cap: u64 = 0x1_0000_0000;
    let mut acc: u64 = 0;
    while i < n
        invariant
            0 <= start <= 1,
            start <= i <= n,
            cap == 0x1_0000_0000,
            acc <= cap,
            d == unsigned_digits(s@),
            n == s@.len(),
            d =~= s@.subrange(start, n as int),
            forall|k: int| start <= k < i ==> is_digit(#[trigger] s@[k]),
            acc as int == if digits_value(s@.subrange(start, i as int)) < cap {
                digits_value(s@.subrange(start, i as int)) as int
            } else {
                cap as int
            },
        decreases n - i,
    {
        let c = s.get_char(i);
        if !('0' <= c && c <= '9') {
            assert(d[i - start] == c);
            assert(!is_digit(d[i - start]));
            assert(0 <= i - start < d.len());

            return None;
        }
        let dv: u64 = (c as u32 - '0' as u32) as u64;
        let ghost pre = s@.subrange(start, i as int);
        let ghost next = s@.subrange(start, i as int + 1);
        assert(next.drop_last() =~= pre);
        assert(next.last() == c);
        assert(digits_value(next) == digits_value(pre) * 10 + dv);
        let t = acc * 10 + dv;
        acc = if t < cap { t } else { cap };
        proof {
            if digits_value(pre) >= cap {
                assert(digits_value(pre) * 10 >= cap) by (nonlinear_arith)
                    requires digits_value(pre) >= cap;
            }
        }
        i = i + 1;
    }
    assert(s@.subrange(start, n as int) =~= d);
    if acc < cap {
        Some(acc as u32)
    } else {
        None
    }
}

/// ASCII lower-casing of one `char`.
pub(crate) fn lower_ascii(c: char) -> (r: char)
    ensures
        r == ascii_lower(c),
{
    if 'A' <= c && c <= 'Z' {
        ((c as u8) + 32) as char
    } else {
        c
    }
}

} // verus!

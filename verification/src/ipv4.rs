//! IPv4 addresses in dotted-decimal notation (`a.b.c.d`), read and written the
//! way `std::net::Ipv4Addr` does: four decimal octets of at most three digits
//! each, at most 255, no leading zero (so no octal-looking octets).
use vstd::prelude::*;
use crate::text::{
    chars_of, decimal, digit_char, next_index_of, push_decimal, split_from, split_on, split_ranges,
};

verus! {

broadcast use vstd::string::group_string_axioms;

/// An IPv4 address, by its four octets in order.
#[derive(Clone, Copy, Debug, PartialEq, Eq, Structural, Hash)]
pub struct Ipv4Address(pub u8, pub u8, pub u8, pub u8);

/// Whether `c` is an ASCII decimal digit.
pub open spec fn is_ascii_digit(c: char) -> bool {
    '0' <= c && c <= '9'
}

/// The number that a string of ASCII digits denotes.
pub open spec fn digits_value(t: Seq<char>) -> nat
    decreases t.len(),
{
    if t.len() == 0 {
        0
    } else {
        digits_value(t.drop_last()) * 10 + ((t.last() as nat) - 48) as nat
    }
}

/// The value of one dotted-decimal octet: one to three ASCII digits, no
/// leading zero unless the octet is `0` itself, value at most 255.
pub open spec fn octet_value(t: Seq<char>) -> Option<u8> {
    if 1 <= t.len() <= 3 && (forall|i: int| 0 <= i < t.len() ==> is_ascii_digit(#[trigger] t[i]))
        && (t.len() == 1 || t[0] != '0') && digits_value(t) <= 255 {
        Some(digits_value(t) as u8)
    } else {
        None
    }
}

/// The address that `s` denotes in dotted-decimal notation, if any: exactly
/// four octets separated by `'.'`.
pub open spec fn parse_ipv4_text(s: Seq<char>) -> Option<Ipv4Address> {
    let parts = split_on(s, '.');
    if parts.len() == 4 && octet_value(parts[0]) is Some && octet_value(parts[1]) is Some
        && octet_value(parts[2]) is Some && octet_value(parts[3]) is Some {
        Some(
            Ipv4Address(
                octet_value(parts[0])->0,
                octet_value(parts[1])->0,
                octet_value(parts[2])->0,
                octet_value(parts[3])->0,
            ),
        )
    } else {
        None
    }
}

/// The dotted-decimal text of an address, as `Ipv4Addr`'s `Display` writes it.
pub open spec fn ipv4_text(ip: Ipv4Address) -> Seq<char> {
    decimal(ip.0 as nat) + seq!['.'] + decimal(ip.1 as nat) + seq!['.'] + decimal(ip.2 as nat)
        + seq!['.'] + decimal(ip.3 as nat)
}

/// The value of the octet `v[lo..hi]`, if it is a valid one.
fn octet_in(v: &[char], lo: usize, hi: usize) -> (r: Option<u8>)
    requires
        lo <= hi <= v@.len(),
    ensures
        r == octet_value(v@.subrange(lo as int, hi as int)),
{
    let ghost t = v@.subrange(lo as int, hi as int);
    let len = hi - lo;
    if len < 1 || len > 3 {
        return None;
    }
    if len > 1 && v[lo] == '0' {
        return None;
    }
    let mut value: u32 = 0;
    let mut i = lo;
    while i < hi
        invariant
            lo <= i <= hi <= v@.len(),
            hi - lo <= 3,
            t == v@.subrange(lo as int, hi as int),
            forall|j: int| 0 <= j < i - lo ==> is_ascii_digit(#[trigger] t[j]),
            value == digits_value(t.take(i - lo)),
            i - lo == 0 ==> value == 0,
            i - lo == 1 ==> value < 10,
            i - lo == 2 ==> value < 100,
            value < 1000,
        decreases hi - i,
    {
        let c = v[i];
        if !('0' <= c && c <= '9') {
            assert(!is_ascii_digit(t[i - lo]));
            return None;
        }
        assert(t.take(i + 1 - lo).drop_last() =~= t.take(i - lo));
        assert(t.take(i + 1 - lo).last() == c);
        let d: u32 = (c as u32) - 48;
        value = value * 10 + d;
        i = i + 1;
    }
    assert(t.take(hi - lo) =~= t);
    if value > 255 {
        None
    } else {
        Some(value as u8)
    }
}

/// The address that `s` denotes in dotted-decimal notation, if any.
pub fn parse_ipv4(s: &str) -> (r: Option<Ipv4Address>)
    ensures
        r == parse_ipv4_text(s@),
{
    let v = chars_of(s);
    parse_ipv4_chars(v.as_slice())
}

/// The address that the characters `v` denote in dotted-decimal notation, if any.
pub fn parse_ipv4_chars(v: &[char]) -> (r: Option<Ipv4Address>)
    ensures
        r == parse_ipv4_text(v@),
{
    let parts = split_ranges(v, '.');
    if parts.len() != 4 {
        return None;
    }
    let ghost ps = split_on(v@, '.');
    let (a0, a1) = parts[0];
    let (b0, b1) = parts[1];
    let (c0, c1) = parts[2];
    let (d0, d1) = parts[3];
    assert(parts@[0] == (a0, a1));
    assert(parts@[1] == (b0, b1));
    assert(parts@[2] == (c0, c1));
    assert(parts@[3] == (d0, d1));
    let a = octet_in(v, a0, a1);
    let b = octet_in(v, b0, b1);
    let c = octet_in(v, c0, c1);
    let d = octet_in(v, d0, d1);
    match (a, b, c, d) {
        (Some(a), Some(b), Some(c), Some(d)) => Some(Ipv4Address(a, b, c, d)),
        _ => None,
    }
}

/// Appends the dotted-decimal text of `ip` to `out`.
pub fn push_ipv4(out: &mut Vec<char>, ip: Ipv4Address)
    ensures
        final(out)@ == old(out)@ + ipv4_text(ip),
{
    let ghost o0 = out@;
    push_decimal(out, ip.0 as u64);
    out.push('.');
    push_decimal(out, ip.1 as u64);
    out.push('.');
    push_decimal(out, ip.2 as u64);
    out.push('.');
    push_decimal(out, ip.3 as u64);
    assert(out@ =~= o0 + ipv4_text(ip));
}


/// The decimal numeral of an octet is a valid dotted-decimal octet of the same value.
pub proof fn lemma_decimal_octet(n: nat)
    requires
        n <= 255,
    ensures
        octet_value(decimal(n)) == Some(n as u8),
        forall|i: int| 0 <= i < decimal(n).len() ==> #[trigger] decimal(n)[i] != '.',
{
    lemma_decimal_digits(n);
    assert(decimal(n).len() <= 3) by {
        if n >= 10 {
            lemma_decimal_digits(n / 10);
            if n / 10 >= 10 {
                lemma_decimal_digits(n / 100);
                assert(n / 10 / 10 == n / 100);
            }
        }
    }
    assert(decimal(n).len() == 1 || decimal(n)[0] != '0');
}

/// Digits of a decimal numeral: all ASCII digits, no leading zero, value `n`.
pub proof fn lemma_decimal_digits(n: nat)
    ensures
        decimal(n).len() >= 1,
        forall|i: int| 0 <= i < decimal(n).len() ==> is_ascii_digit(#[trigger] decimal(n)[i]),
        digits_value(decimal(n)) == n,
        decimal(n).len() > 1 ==> decimal(n)[0] != '0',
        n < 10 ==> decimal(n).len() == 1,
        n >= 10 ==> decimal(n).len() == decimal(n / 10).len() + 1,
        n >= 10 ==> decimal(n)[0] == decimal(n / 10)[0],
    decreases n,
{
    let d = digit_char(n % 10);
    assert(d as nat == 48 + n % 10);
    if n < 10 {
        assert(digit_char(n) == d);
        assert(decimal(n) == seq![d]);
        assert(seq![d].drop_last() =~= Seq::<char>::empty());
        assert(seq![d].last() == d);
        assert(digits_value(seq![d]) == digits_value(Seq::<char>::empty()) * 10 + ((d as nat) - 48) as nat);
    } else {
        lemma_decimal_digits(n / 10);
        let p = decimal(n / 10);
        assert(decimal(n) == p.push(d));
        assert(p.push(d).drop_last() =~= p);
        assert(forall|i: int| 0 <= i < p.len() ==> p.push(d)[i] == p[i]);
        assert(n / 10 * 10 + n % 10 == n);
        assert(p.push(d).last() == d);
        assert(digits_value(p.push(d)) == digits_value(p) * 10 + ((d as nat) - 48) as nat);
        if p.len() == 1 {
            assert(n / 10 >= 1);
            assert(p[0] != '0') by {
                if p[0] == '0' {
                    assert(digits_value(p) == digits_value(p.drop_last()) * 10 + 0);
                    assert(p.drop_last() =~= Seq::<char>::empty());
                }
            }
        }
    }
}

pub proof fn lemma_next_index_shift(x: Seq<char>, y: Seq<char>, k: int, c: char)
    requires
        0 <= k <= y.len(),
    ensures
        next_index_of(x + y, x.len() + k, c) == x.len() + next_index_of(y, k, c),
    decreases y.len() - k,
{
    if k < y.len() {
        assert((x + y)[x.len() + k] == y[k]);
        if y[k] != c {
            lemma_next_index_shift(x, y, k + 1, c);
        }
    }
}

/// Splitting from the end of a prefix ignores the prefix.
pub proof fn lemma_split_shift(x: Seq<char>, y: Seq<char>, k: int, c: char)
    requires
        0 <= k <= y.len(),
    ensures
        split_from(x + y, x.len() + k, c) == split_from(y, k, c),
    decreases y.len() + 1 - k,
{
    lemma_next_index_shift(x, y, k, c);
    crate::text::lemma_next_index_of(y, k, c);
    let e = next_index_of(y, k, c);
    assert((x + y).subrange(x.len() + k, x.len() + e) =~= y.subrange(k, e));
    if e < y.len() {
        lemma_split_shift(x, y, e + 1, c);
    } else {
        assert((x + y).subrange(x.len() + k, (x + y).len() as int) =~= y.subrange(k, y.len() as int));
    }
}

/// Splitting `a + [c] + rest`, where `a` holds no `c`, gives `a` then the pieces of `rest`.
pub proof fn lemma_split_first(a: Seq<char>, rest: Seq<char>, c: char)
    requires
        forall|i: int| 0 <= i < a.len() ==> a[i] != c,
    ensures
        split_on(a + seq![c] + rest, c) == seq![a] + split_on(rest, c),
{
    let s = a + seq![c] + rest;
    crate::text::lemma_next_index_of(s, 0, c);
    assert forall|i: int| 0 <= i < a.len() implies s[i] != c by {
        assert(s[i] == a[i]);
    }
    crate::text::lemma_next_index_of(s, 0, c);
    assert(s[a.len() as int] == c);
    assert(next_index_of(s, 0, c) == a.len()) by {
        let e = next_index_of(s, 0, c);
        if e < a.len() {
            assert(s[e] == a[e]);
        }
    }
    assert(s.subrange(0, a.len() as int) =~= a);
    assert(s =~= (a + seq![c]) + rest);
    lemma_split_shift(a + seq![c], rest, 0, c);
}

/// Splitting text with no `c` gives the text itself.
pub proof fn lemma_split_single(a: Seq<char>, c: char)
    requires
        forall|i: int| 0 <= i < a.len() ==> a[i] != c,
    ensures
        split_on(a, c) == seq![a],
{
    crate::text::lemma_next_index_of(a, 0, c);
    assert(next_index_of(a, 0, c) == a.len()) by {
        let e = next_index_of(a, 0, c);
        if e < a.len() {
            assert(a[e] != c);
        }
    }
    assert(a.subrange(0, a.len() as int) =~= a);
}

/// Reading back the dotted-decimal text of an address gives the address.
pub proof fn law_ipv4_text_round_trip(ip: Ipv4Address)
    ensures
        parse_ipv4_text(ipv4_text(ip)) == Some(ip),
{
    let d0 = decimal(ip.0 as nat);
    let d1 = decimal(ip.1 as nat);
    let d2 = decimal(ip.2 as nat);
    let d3 = decimal(ip.3 as nat);
    lemma_decimal_octet(ip.0 as nat);
    lemma_decimal_octet(ip.1 as nat);
    lemma_decimal_octet(ip.2 as nat);
    lemma_decimal_octet(ip.3 as nat);
    let dot = seq!['.'];
    let r3 = d3;
    let r2 = d2 + dot + r3;
    let r1 = d1 + dot + r2;
    let r0 = d0 + dot + r1;
    assert(ipv4_text(ip) =~= r0);
    lemma_split_single(d3, '.');
    lemma_split_first(d2, r3, '.');
    lemma_split_first(d1, r2, '.');
    lemma_split_first(d0, r1, '.');
    let parts = split_on(r0, '.');
    assert(parts =~= seq![d0, d1, d2, d3]);
}

} // verus!

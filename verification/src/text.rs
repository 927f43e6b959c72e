//! Character-sequence helpers shared by the path and format logic.
use vstd::prelude::*;
use vstd::string::*;

verus! {

/// The characters of `s`, in order.
pub fn chars_of(s: &str) -> (out: Vec<char>)
    ensures
        out@ == s@,
{
    broadcast use vstd::string::group_string_axioms;

    let mut out: Vec<char> = Vec::new();
    for c in it: s.chars()
        invariant
            it.seq() == s@,
            out@ == it.seq().take(it.index()),
    {
        out.push(c);
    }
    assert(out@ == s@);
    out
}

/// Collects characters into a `String` through std's `impl FromIterator<&char> for String`,
/// which pushes each character in turn; the contract claims the result holds exactly the given
/// characters, in order.
#[verifier::external_body]
pub(crate) fn string_from_chars(v: &[char]) -> (s: String)
    ensures
        s@ == v@,
{
    v.iter().collect()
}

/// An owned copy of a string literal or slice.
pub fn owned(s: &str) -> (out: String)
    ensures
        out@ == s@,
{
    String::from_str(s)
}

/// Appends all of `b` to `a`.
pub fn extend_chars(a: &mut Vec<char>, b: &[char])
    ensures
        final(a)@ == old(a)@ + b@,
{
    let ghost start = a@;
    let n = b.len();
    for i in 0..n
        invariant
            n == b@.len(),
            a@ == start + b@.take(i as int),
    {
        a.push(b[i]);
        assert(b@.take(i + 1) == b@.take(i as int).push(b@[i as int]));
    }
    assert(b@.take(n as int) == b@);
}

/// `pat` occurs in `s` starting at position `i`.
pub open spec fn occurs_at(s: Seq<char>, pat: Seq<char>, i: int) -> bool {
    0 <= i && i + pat.len() <= s.len() && s.subrange(i, i + pat.len()) == pat
}

/// `pat` occurs somewhere in `s`.
pub open spec fn contains_seq(s: Seq<char>, pat: Seq<char>) -> bool {
    exists|i: int| occurs_at(s, pat, i)
}

/// Whether `pat` occurs at position `i` of `s`.
pub fn matches_at(s: &[char], pat: &[char], i: usize) -> (r: bool)
    ensures
        r == occurs_at(s@, pat@, i as int),
{
    if i > s.len() || pat.len() > s.len() - i {
        return false;
    }
    let m = pat.len();
    let slen = s.len();
    for j in 0..m
        invariant
            m == pat@.len(),
            slen == s@.len(),
            i + m <= s@.len(),
            forall|k: int| 0 <= k < j ==> s@[i + k] == pat@[k],
    {
        if s[i + j] != pat[j] {
            assert(s@.subrange(i as int, i + m)[j as int] != pat@[j as int]);
            return false;
        }
    }
    assert(s@.subrange(i as int, i + m) =~= pat@);
    true
}

/// Whether `pat` occurs anywhere in `s`.
pub fn contains_chars(s: &[char], pat: &[char]) -> (r: bool)
    ensures
        r == contains_seq(s@, pat@),
{
    if pat.len() > s.len() {
        return false;
    }
    let last = s.len() - pat.len();
    for i in 0..last
        invariant
            last + pat@.len() == s@.len(),
            forall|k: int| 0 <= k < i ==> !occurs_at(s@, pat@, k),
    {
        if matches_at(s, pat, i) {
            return true;
        }
    }
    let r = matches_at(s, pat, last);
    assert(r == contains_seq(s@, pat@)) by {
        if !r {
            assert forall|k: int| !occurs_at(s@, pat@, k) by {
                if 0 <= k && k + pat@.len() <= s@.len() && k != last {
                    assert(k < last);
                }
            }
        }
    }
    r
}

/// Whether the non-empty sequence `s` begins with `c`.
pub open spec fn starts_with_char(s: Seq<char>, c: char) -> bool {
    s.len() > 0 && s[0] == c
}

/// The character that ASCII lower-casing maps `c` to.
pub open spec fn ascii_lower(c: char) -> char {
    if 'A' <= c && c <= 'Z' {
        ((c as u32) + 32) as char
    } else {
        c
    }
}

/// ASCII lower-casing of a whole sequence (`str::to_ascii_lowercase`).
pub open spec fn ascii_lowercase(s: Seq<char>) -> Seq<char> {
    s.map_values(|c: char| ascii_lower(c))
}

/// `ascii_lower(a) == b` for a lower-case ASCII letter or other non-upper `b`.
pub fn char_lower_eq(a: char, b: char) -> (r: bool)
    requires
        !('A' <= b && b <= 'Z'),
        (b as u32) < 128,
    ensures
        r == (ascii_lower(a) == b),
{
    if a == b {
        if 'A' <= a && a <= 'Z' {
            false
        } else {
            true
        }
    } else if 'A' <= a && a <= 'Z' {
        let code: u32 = a as u32 + 32;
        let b_code: u32 = b as u32;
        assert(((a as u32) + 32) as char == b <==> code == b_code) by {
            assert((code as char) as u32 == code);
            assert((b_code as char) == b);
        }
        code == b_code
    } else {
        false
    }
}

/// A sequence of lower-case-or-non-letter ASCII characters.
pub open spec fn is_lower_ascii_seq(s: Seq<char>) -> bool {
    forall|i: int| 0 <= i < s.len() ==> !('A' <= #[trigger] s[i] && s[i] <= 'Z') && (s[i] as u32)
        < 128
}

/// `to_ascii_lowercase(s) == lit` for a literal `lit` without upper-case letters.
pub fn lower_equals(s: &[char], lit: &[char]) -> (r: bool)
    requires
        is_lower_ascii_seq(lit@),
    ensures
        r == (ascii_lowercase(s@) == lit@),
{
    if s.len() != lit.len() {
        assert(ascii_lowercase(s@).len() != lit@.len());
        return false;
    }
    let n = s.len();
    for i in 0..n
        invariant
            n == s@.len(),
            n == lit@.len(),
            is_lower_ascii_seq(lit@),
            forall|k: int| 0 <= k < i ==> ascii_lower(s@[k]) == lit@[k],
    {
        if !char_lower_eq(s[i], lit[i]) {
            assert(ascii_lowercase(s@)[i as int] != lit@[i as int]);
            return false;
        }
    }
    assert(ascii_lowercase(s@) =~= lit@);
    true
}

/// The decimal digit character for `d < 10`.
pub open spec fn digit_char(d: nat) -> char {
    (48 + d) as char
}

/// Decimal representation of a natural number, without leading zeros.
pub open spec fn nat_decimal(n: nat) -> Seq<char>
    decreases n,
{
    if n < 10 {
        seq![digit_char(n)]
    } else {
        nat_decimal(n / 10).push(digit_char(n % 10))
    }
}

/// The decimal representation of a natural number is a non-empty run of digits.
pub proof fn lemma_nat_decimal_digits(n: nat)
    ensures
        nat_decimal(n).len() >= 1,
        forall|i: int| 0 <= i < nat_decimal(n).len() ==> '0' <= #[trigger] nat_decimal(n)[i] <= '9',
    decreases n,
{
    if n >= 10 {
        lemma_nat_decimal_digits(n / 10);
        let s = nat_decimal(n / 10);
        assert forall|i: int| 0 <= i < nat_decimal(n).len() implies '0' <= #[trigger] nat_decimal(
            n,
        )[i] <= '9' by {
            if i < s.len() {
                assert(nat_decimal(n)[i] == s[i]);
            }
        }
    }
}

/// Decimal representation of an integer as `format!("{}")` prints it.
pub open spec fn int_decimal(x: int) -> Seq<char> {
    if x < 0 {
        seq!['-'] + nat_decimal((-x) as nat)
    } else {
        nat_decimal(x as nat)
    }
}

/// `s` left-padded with `'0'` to at least `width` characters (`format!("{:0width$}")` on a
/// non-negative number).
pub open spec fn zero_pad(s: Seq<char>, width: nat) -> Seq<char> {
    if s.len() < width {
        Seq::new((width - s.len()) as nat, |i: int| '0') + s
    } else {
        s
    }
}

/// The number a run of decimal digits denotes.
pub open spec fn digits_value(s: Seq<char>) -> int
    decreases s.len(),
{
    if s.len() == 0 {
        0
    } else {
        digits_value(s.drop_last()) * 10 + (s.last() as int - 48)
    }
}

proof fn lemma_digits_value_decimal(n: nat)
    ensures
        digits_value(nat_decimal(n)) == n,
    decreases n,
{
    if n >= 10 {
        lemma_digits_value_decimal(n / 10);
        assert(nat_decimal(n).drop_last() =~= nat_decimal(n / 10));
        assert(nat_decimal(n).last() == digit_char(n % 10));
        assert(digit_char(n % 10) as int == 48 + n % 10);
        assert((n / 10) * 10 + n % 10 == n) by (nonlinear_arith);
        let s = nat_decimal(n);
        assert(digits_value(s) == digits_value(s.drop_last()) * 10 + (s.last() as int - 48));
        assert(digits_value(s.drop_last()) == n / 10);
    } else {
        assert(digit_char(n) as int == 48 + n);
        let s = nat_decimal(n);
        assert(s.drop_last() =~= Seq::<char>::empty());
        assert(digits_value(s.drop_last()) == 0);
        assert(digits_value(s) == digits_value(s.drop_last()) * 10 + (s.last() as int - 48));
    }
}

proof fn lemma_zeros_value(z: nat)
    ensures
        digits_value(Seq::new(z, |i: int| '0')) == 0,
    decreases z,
{
    if z > 0 {
        assert(Seq::new(z, |i: int| '0').drop_last() =~= Seq::new((z - 1) as nat, |i: int| '0'));
        lemma_zeros_value((z - 1) as nat);
    }
}

proof fn lemma_leading_zeros_value(z: nat, s: Seq<char>)
    ensures
        digits_value(Seq::new(z, |i: int| '0') + s) == digits_value(s),
    decreases s.len(),
{
    let zs = Seq::new(z, |i: int| '0');
    if s.len() == 0 {
        assert(zs + s =~= zs);
        lemma_zeros_value(z);
    } else {
        assert((zs + s).drop_last() =~= zs + s.drop_last());
        assert((zs + s).last() == s.last());
        lemma_leading_zeros_value(z, s.drop_last());
    }
}

/// A zero-padded decimal is a non-empty run of digits, at least `width` long, denoting `n`.
pub proof fn lemma_zero_pad_decimal(n: nat, width: nat)
    ensures
        zero_pad(nat_decimal(n), width).len() >= width,
        zero_pad(nat_decimal(n), width).len() >= 1,
        forall|i: int|
            0 <= i < zero_pad(nat_decimal(n), width).len() ==> '0' <= #[trigger] zero_pad(
                nat_decimal(n),
                width,
            )[i] <= '9',
        digits_value(zero_pad(nat_decimal(n), width)) == n,
{
    lemma_nat_decimal_digits(n);
    lemma_digits_value_decimal(n);
    let d = nat_decimal(n);
    if d.len() < width {
        let z = (width - d.len()) as nat;
        lemma_leading_zeros_value(z, d);
        let zp = zero_pad(d, width);
        assert forall|i: int| 0 <= i < zp.len() implies '0' <= #[trigger] zp[i] <= '9' by {
            if i >= z {
                assert(zp[i] == d[i - z]);
            }
        }
    }
}

/// Appends the decimal digits of `n`.
pub fn push_decimal(out: &mut Vec<char>, n: u64)
    ensures
        final(out)@ == old(out)@ + nat_decimal(n as nat),
    decreases n,
{
    if n >= 10 {
        push_decimal(out, n / 10);
    }
    let d: u8 = (n % 10) as u8;
    let c = (48u8 + d) as char;
    assert(c == digit_char((n % 10) as nat));
    out.push(c);
}

/// The decimal text of `x`, as `format!("{x}")` prints it.
pub fn decimal_chars(x: i64) -> (out: Vec<char>)
    ensures
        out@ == int_decimal(x as int),
{
    let mut out: Vec<char> = Vec::new();
    if x < 0 {
        out.push('-');
        let magnitude: u64 = if x == i64::MIN {
            9223372036854775808u64
        } else {
            (-x) as u64
        };
        push_decimal(&mut out, magnitude);
    } else {
        push_decimal(&mut out, x as u64);
    }
    out
}

/// The decimal text of `n` left-padded with zeros to `width` characters.
pub fn zero_padded_chars(n: u64, width: usize) -> (out: Vec<char>)
    ensures
        out@ == zero_pad(nat_decimal(n as nat), width as nat),
{
    let mut digits: Vec<char> = Vec::new();
    push_decimal(&mut digits, n);
    let mut out: Vec<char> = Vec::new();
    if digits.len() < width {
        let pad = width - digits.len();
        for i in 0..pad
            invariant
                out@ == Seq::new(i as nat, |k: int| '0'),
        {
            out.push('0');
            assert(out@ =~= Seq::new((i + 1) as nat, |k: int| '0'));
        }
    }
    extend_chars(&mut out, digits.as_slice());
    assert(out@ =~= zero_pad(nat_decimal(n as nat), width as nat));
    out
}

} // verus!

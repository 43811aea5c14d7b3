//! Decimal and hexadecimal rendering of numbers for the inspection panels.
use vstd::prelude::*;
use crate::base64::string_push;

verus! {

/// The character of a digit value below 16: `0`-`9`, then `A`-`F`.
pub open spec fn digit_char(d: nat) -> char {
    if d < 10 {
        ((d + 48) as u8) as char
    } else {
        ((d - 10 + 65) as u8) as char
    }
}

/// Digits of `n` in base `b` (2 to 16), most significant first, with no
/// leading zeros.
pub open spec fn radix_digits(n: nat, b: nat) -> Seq<char>
    decreases n,
{
    if b < 2 || n < b {
        seq![digit_char(n)]
    } else {
        proof {
            assert(n / b < n) by (nonlinear_arith)
                requires b >= 2, n >= b;
        }
        radix_digits(n / b, b).push(digit_char(n % b))
    }
}

/// Decimal digits of `n`.
pub open spec fn dec_digits(n: nat) -> Seq<char> {
    radix_digits(n, 10)
}

/// Upper-case hex of `n`, padded with zeros to at least six digits.
pub open spec fn hex6(n: nat) -> Seq<char> {
    let d = radix_digits(n, 16);
    if d.len() < 6 {
        Seq::new((6 - d.len()) as nat, |i: int| '0') + d
    } else {
        d
    }
}

fn digit_char_exec(d: u32) -> (c: char)
    requires
        d < 16,
    ensures
        c == digit_char(d as nat),
{
    if d < 10 {
        ((d as u8) + 48) as char
    } else {
        ((d as u8) - 10 + 65) as char
    }
}

/// The digits of `v` in base `b`, as characters.
fn radix_chars(v: u32, b: u32) -> (out: Vec<char>)
    requires
        2 <= b <= 16,
    ensures
        out@ == radix_digits(v as nat, b as nat),
{
    // Digits least significant first, then reversed.
    let mut rev: Vec<char> = Vec::new();
    let mut n = v;
    let ghost mut tail: Seq<char> = Seq::empty();
    loop
        invariant
            2 <= b <= 16,
            radix_digits(v as nat, b as nat) == radix_digits(n as nat, b as nat) + tail,
            rev@.len() == tail.len(),
            forall|i: int| 0 <= i < tail.len() ==> tail[i] == rev@[tail.len() - 1 - i],
        ensures
            n < b,
            radix_digits(v as nat, b as nat) == radix_digits(n as nat, b as nat) + tail,
            rev@.len() == tail.len(),
            forall|i: int| 0 <= i < tail.len() ==> tail[i] == rev@[tail.len() - 1 - i],
        decreases n,
    {
        if n < b {
            break;
        }
        let c = digit_char_exec(n % b);
        let ghost prev = tail;
        proof {
            assert(radix_digits(n as nat, b as nat) == radix_digits((n / b) as nat, b as nat).push(digit_char((n % b) as nat)));
            let t2 = seq![c] + tail;
            assert(radix_digits(n as nat, b as nat) + tail =~= radix_digits((n / b) as nat, b as nat) + t2);
            tail = t2;
        }
        rev.push(c);
        n = n / b;
        proof {
            assert forall|i: int| 0 <= i < tail.len() implies tail[i] == rev@[tail.len() - 1 - i] by {
                if i > 0 {
                    assert(tail[i] == prev[i - 1]);
                }
            }
        }
    }
    let mut out: Vec<char> = Vec::new();
    out.push(digit_char_exec(n));
    proof {
        assert(radix_digits(n as nat, b as nat) =~= seq![digit_char(n as nat)]);
    }
    let k = rev.len();
    let mut j: usize = k;
    while j > 0
        invariant
            j <= k,
            k == rev@.len(),
            k == tail.len(),
            forall|i: int| 0 <= i < tail.len() ==> tail[i] == rev@[tail.len() - 1 - i],
            out@ == seq![digit_char(n as nat)] + tail.take((k - j) as int),
        decreases j,
    {
        j = j - 1;
        out.push(rev[j]);
        proof {
            assert(tail[(k - 1 - j) as int] == rev@[j as int]);
            assert(tail.take((k - j) as int) =~= tail.take((k - 1 - j) as int).push(rev@[j as int]));
        }
    }
    proof {
        assert(tail.take(k as int) =~= tail);
    }
    out
}

fn push_chars(s: &mut String, cs: &Vec<char>)
    ensures
        final(s)@ == old(s)@ + cs@,
{
    let n = cs.len();
    let mut i: usize = 0;
    while i < n
        invariant
            n == cs@.len(),
            i <= n,
            s@ == old(s)@ + cs@.take(i as int),
        decreases n - i,
    {
        string_push(s, cs[i]);
        proof {
            assert(cs@.take(i + 1) =~= cs@.take(i as int).push(cs@[i as int]));
        }
        i = i + 1;
    }
    proof {
        assert(cs@.take(n as int) =~= cs@);
    }
}

/// Appends the decimal digits of `v` to `s`.
pub fn push_decimal(s: &mut String, v: u32)
    ensures
        final(s)@ == old(s)@ + dec_digits(v as nat),
{
    let cs = radix_chars(v, 10);
    push_chars(s, &cs);
}

/// Appends `v` in upper-case hex, zero-padded to at least six digits.
pub fn push_hex6(s: &mut String, v: u32)
    ensures
        final(s)@ == old(s)@ + hex6(v as nat),
{
    let cs = radix_chars(v, 16);
    let ghost s0 = s@;
    let mut pad: usize = 0;
    if cs.len() < 6 {
        pad = 6 - cs.len();
    }
    let mut i: usize = 0;
    while i < pad
        invariant
            i <= pad,
            s@ == s0 + Seq::new(i as nat, |t: int| '0'),
        decreases pad - i,
    {
        string_push(s, '0');
        i = i + 1;
        proof {
            assert(s@ =~= s0 + Seq::new(i as nat, |t: int| '0'));
        }
    }
    push_chars(s, &cs);
    proof {
        if cs@.len() >= 6 {
            assert(Seq::new(0, |t: int| '0') + cs@ =~= cs@);
        }
    }
}


/// A byte as exactly two upper-case hex digits.
pub open spec fn hex2(b: u8) -> Seq<char> {
    seq![digit_char((b / 16) as nat), digit_char((b % 16) as nat)]
}

/// Appends the byte `b` as two upper-case hex digits.
pub fn push_hex2(s: &mut String, b: u8)
    ensures
        final(s)@ == old(s)@ + hex2(b),
{
    let hi = digit_char_exec((b / 16) as u32);
    let lo = digit_char_exec((b % 16) as u32);
    string_push(s, hi);
    string_push(s, lo);
    proof {
        assert(final(s)@ =~= old(s)@ + hex2(b));
    }
}


// ===== what the digits mean =====

/// The value of an upper-case digit character: `0`-`9` are 0 to 9,
/// `A`-`F` are 10 to 15; any other character has none (-1).
pub open spec fn upper_digit_value(c: char) -> int {
    let u = c as int;
    if 48 <= u <= 57 {
        u - 48
    } else if 65 <= u <= 70 {
        u - 55
    } else {
        -1
    }
}

/// The number that the digit string `s` reads as in base `b`.
pub open spec fn digits_value(s: Seq<char>, b: nat) -> int
    decreases s.len(),
{
    if s.len() == 0 {
        0
    } else {
        digits_value(s.drop_last(), b) * b + upper_digit_value(s.last())
    }
}

/// `s` is a numeral in base `b`: at least one character, each a digit
/// below `b`.
pub open spec fn is_numeral(s: Seq<char>, b: nat) -> bool {
    &&& s.len() > 0
    &&& forall|i: int| 0 <= i < s.len() ==> 0 <= #[trigger] upper_digit_value(s[i]) < b
}

proof fn lemma_digit_char_value(d: nat)
    requires
        d < 16,
    ensures
        upper_digit_value(digit_char(d)) == d,
{
    let u: u8 = if d < 10 { (d + 48) as u8 } else { (d - 10 + 65) as u8 };
    assert(digit_char(d) == u as char);
    assert((u as char) as int == u as int);
}

/// The digit characters are the usual ones: the value `d` below 16 is
/// written as the `d`-th character of "0123456789ABCDEF".
pub proof fn lemma_digit_chars(d: nat)
    requires
        d < 16,
    ensures
        digit_char(d) == "0123456789ABCDEF"@[d as int],
{
    reveal_strlit("0123456789ABCDEF");
    lemma_digit_char_value(d);
    let c = digit_char(d);
    let u = c as int;
    assert(u == d + 48 || u == d + 55);
    assert((d < 10 ==> u == d + 48) && (d >= 10 ==> u == d + 55));
    let t = "0123456789ABCDEF"@[d as int];
    assert(t as int == (if d < 10 { d + 48 } else { d + 55 })) by {
        if d == 0 {} else if d == 1 {} else if d == 2 {} else if d == 3 {} else if d == 4 {}
        else if d == 5 {} else if d == 6 {} else if d == 7 {} else if d == 8 {} else if d == 9 {}
        else if d == 10 {} else if d == 11 {} else if d == 12 {} else if d == 13 {} else if d == 14 {}
        else {}
    }
}

/// The digits of `n` in base `b` are its standard numeral: every
/// character is a digit below `b`, they read back as `n`, and there is no
/// leading zero unless `n` is 0.
pub proof fn lemma_radix_digits_numeral(n: nat, b: nat)
    requires
        2 <= b <= 16,
    ensures
        is_numeral(radix_digits(n, b), b),
        digits_value(radix_digits(n, b), b) == n,
        upper_digit_value(radix_digits(n, b)[0]) == 0 ==> n == 0 && radix_digits(n, b).len() == 1,
    decreases n,
{
    let s = radix_digits(n, b);
    if n < b {
        lemma_digit_char_value(n);
        assert(s.drop_last() =~= Seq::<char>::empty());
        assert(digits_value(s.drop_last(), b) == 0);
        assert(0 * b == 0);
        assert(digits_value(s, b) == 0 * b + upper_digit_value(s.last()));
    } else {
        assert(n / b < n) by (nonlinear_arith)
            requires b >= 2, n >= b;
        assert(n / b >= 1) by (nonlinear_arith)
            requires b >= 2, n >= b;
        lemma_radix_digits_numeral(n / b, b);
        let t = radix_digits(n / b, b);
        lemma_digit_char_value(n % b);
        assert(s == t.push(digit_char(n % b)));
        assert(s.drop_last() =~= t);
        assert(n == (n / b) * b + n % b) by (nonlinear_arith)
            requires b >= 2;
        assert(s.last() == digit_char(n % b));
        assert(digits_value(s, b) == digits_value(t, b) * b + upper_digit_value(s.last()));
        assert(s[0] == t[0]);
    }
}

proof fn lemma_zero_pad_value(z: Seq<char>, d: Seq<char>, b: nat)
    requires
        forall|i: int| 0 <= i < z.len() ==> z[i] == '0',
    ensures
        digits_value(z + d, b) == digits_value(d, b),
    decreases d.len(),
{
    if d.len() == 0 {
        assert(z + d =~= z);
        lemma_zeros_value(z, b);
    } else {
        assert((z + d).drop_last() =~= z + d.drop_last());
        lemma_zero_pad_value(z, d.drop_last(), b);
    }
}

proof fn lemma_zeros_value(z: Seq<char>, b: nat)
    requires
        forall|i: int| 0 <= i < z.len() ==> z[i] == '0',
    ensures
        digits_value(z, b) == 0,
    decreases z.len(),
{
    if z.len() > 0 {
        lemma_zeros_value(z.drop_last(), b);
    }
}

/// Decimal digits are the standard decimal numeral of `n`.
pub proof fn lemma_dec_digits_numeral(n: nat)
    ensures
        is_numeral(dec_digits(n), 10),
        digits_value(dec_digits(n), 10) == n,
        upper_digit_value(dec_digits(n)[0]) == 0 ==> n == 0 && dec_digits(n).len() == 1,
{
    lemma_radix_digits_numeral(n, 10);
}

/// `hex6(n)` is an upper-case hexadecimal numeral of at least six
/// digits that reads as `n`.
pub proof fn lemma_hex6_numeral(n: nat)
    ensures
        is_numeral(hex6(n), 16),
        hex6(n).len() >= 6,
        digits_value(hex6(n), 16) == n,
{
    lemma_radix_digits_numeral(n, 16);
    let d = radix_digits(n, 16);
    if d.len() < 6 {
        let z = Seq::new((6 - d.len()) as nat, |i: int| '0');
        lemma_zero_pad_value(z, d, 16);
        assert(upper_digit_value('0') == 0);
        assert forall|i: int| 0 <= i < hex6(n).len() implies 0 <= #[trigger] upper_digit_value(hex6(n)[i]) < 16 by {
            if i < z.len() {
                assert(hex6(n)[i] == '0');
            } else {
                assert(hex6(n)[i] == d[i - z.len()]);
            }
        }
    }
}

/// `hex2(x)` is the two-digit upper-case hexadecimal numeral of `x`.
pub proof fn lemma_hex2_numeral(x: u8)
    ensures
        is_numeral(hex2(x), 16),
        hex2(x).len() == 2,
        digits_value(hex2(x), 16) == x,
{
    lemma_digit_char_value((x / 16) as nat);
    lemma_digit_char_value((x % 16) as nat);
    let h = hex2(x);
    assert(h.drop_last() =~= seq![digit_char((x / 16) as nat)]);
    assert(h.drop_last().drop_last() =~= Seq::<char>::empty());
    assert(digits_value(h.drop_last().drop_last(), 16) == 0);
    assert(digits_value(h.drop_last(), 16) == (x / 16) as int);
    assert(digits_value(h, 16) == (x / 16) as int * 16 + (x % 16) as int);
}

} // verus!

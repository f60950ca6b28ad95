//! Parsing numbers and splitting text, character by character.
use vstd::prelude::*;

verus! {

/// The value of a digit character in bases up to 16, or 16 for any other character.
pub open spec fn digit_value(c: char) -> int {
    if '0' <= c && c <= '9' {
        c as int - '0' as int
    } else if 'a' <= c && c <= 'f' {
        c as int - 'a' as int + 10
    } else if 'A' <= c && c <= 'F' {
        c as int - 'A' as int + 10
    } else {
        16
    }
}

/// Every character is a digit below `radix`.
pub open spec fn all_digits(s: Seq<char>, radix: int) -> bool {
    forall|i: int| 0 <= i < s.len() ==> #[trigger] digit_value(s[i]) < radix
}

/// The value of a digit string, most significant digit first.
pub open spec fn digits_value(s: Seq<char>, radix: int) -> int
    decreases s.len(),
{
    if s.len() == 0 {
        0
    } else {
        digits_value(s.drop_last(), radix) * radix + digit_value(s.last())
    }
}

/// `u64::from_str_radix`: an optional `+`, then at least one digit, with a value
/// that fits in 64 bits.
pub open spec fn radix_u64(s: Seq<char>, radix: int) -> Option<u64> {
    let d = if s.len() > 0 && s[0] == '+' { s.skip(1) } else { s };
    if d.len() > 0 && all_digits(d, radix) && digits_value(d, radix) <= u64::MAX {
        Some(digits_value(d, radix) as u64)
    } else {
        None
    }
}

/// An unsigned number: decimal, or hexadecimal after `0x`; no sign, no
/// surrounding space.
pub open spec fn spec_parse_number(t: Seq<char>) -> Option<u64> {
    if t.len() == 0 || t[0] == '-' || t[0] == '+' {
        None
    } else if t.len() >= 2 && t[0] == '0' && t[1] == 'x' {
        if t.len() == 2 { None } else { radix_u64(t.skip(2), 16) }
    } else {
        radix_u64(t, 10)
    }
}

proof fn lemma_digits_value_nonneg(s: Seq<char>, radix: int)
    requires
        all_digits(s, radix),
        radix >= 1,
    ensures
        digits_value(s, radix) >= 0,
    decreases s.len(),
{
    if s.len() > 0 {
        assert(all_digits(s.drop_last(), radix)) by {
            assert forall|i: int| 0 <= i < s.drop_last().len() implies #[trigger] digit_value(s.drop_last()[i]) < radix by {
                assert(digit_value(s[i]) < radix);
            }
        }
        lemma_digits_value_nonneg(s.drop_last(), radix);
        assert(digits_value(s.drop_last(), radix) * radix >= 0) by (nonlinear_arith)
            requires digits_value(s.drop_last(), radix) >= 0, radix >= 1;
    }
}

/// Extending a valid digit string never lowers its value.
proof fn lemma_digits_value_grows(s: Seq<char>, i: int, radix: int)
    requires
        0 <= i <= s.len(),
        all_digits(s, radix),
        radix >= 1,
    ensures
        digits_value(s.take(i), radix) <= digits_value(s, radix),
    decreases s.len() - i,
{
    if i < s.len() {
        let t = s.take(i + 1);
        assert(t.drop_last() =~= s.take(i));
        assert(all_digits(s.take(i), radix)) by {
            assert forall|k: int| 0 <= k < s.take(i).len() implies #[trigger] digit_value(s.take(i)[k]) < radix by {
                assert(digit_value(s[k]) < radix);
            }
        }
        lemma_digits_value_nonneg(s.take(i), radix);
        assert(digit_value(s[i]) >= 0);
        let v = digits_value(s.take(i), radix);
        assert(v * radix + digit_value(s[i]) >= v) by (nonlinear_arith)
            requires v >= 0, radix >= 1, digit_value(s[i]) >= 0;
        lemma_digits_value_grows(s, i + 1, radix);
        assert(s.take(i + 1).last() == s[i]);
    } else {
        assert(s.take(i) =~= s);
    }
}

/// The value of character `c` as a digit, or 16.
pub fn digit_of(c: char) -> (d: u8)
    ensures
        d == digit_value(c),
{
    if '0' <= c && c <= '9' {
        (c as u32 - '0' as u32) as u8
    } else if 'a' <= c && c <= 'f' {
        (c as u32 - 'a' as u32 + 10) as u8
    } else if 'A' <= c && c <= 'F' {
        (c as u32 - 'A' as u32 + 10) as u8
    } else {
        16
    }
}

/// Parses `s[start..]` like `u64::from_str_radix`.
pub fn parse_radix(s: &[char], start: usize, radix: u8) -> (res: Option<u64>)
    requires
        start <= s@.len(),
        radix == 10 || radix == 16,
    ensures
        res == radix_u64(s@.skip(start as int), radix as int),
{
    let ghost t = s@.skip(start as int);
    let mut i = start;
    if i < s.len() && s[i] == '+' {
        i = i + 1;
    }
    let ghost d = s@.skip(i as int);
    assert(d =~= if t.len() > 0 && t[0] == '+' { t.skip(1) } else { t });
    if i == s.len() {
        return None;
    }
    let first = i;
    let mut value: u64 = 0;
    while i < s.len()
        invariant
            first <= i <= s@.len(),
            first < s@.len(),
            start <= first,
            d == s@.skip(first as int),
            t == s@.skip(start as int),
            d == (if t.len() > 0 && t[0] == '+' { t.skip(1) } else { t }),
            radix == 10 || radix == 16,
            all_digits(d.take(i - first), radix as int),
            value == digits_value(d.take(i - first), radix as int),
        decreases s@.len() - i,
    {
        let digit = digit_of(s[i]);
        let ghost k = (i - first) as int;
        assert(d[k] == s@[i as int]);
        if digit >= radix {
            assert(!all_digits(d, radix as int)) by {
                assert(digit_value(d[k]) >= radix);
            }
            return None;
        }
        assert(d.take(k + 1).drop_last() =~= d.take(k));
        assert(all_digits(d.take(k + 1), radix as int)) by {
            assert forall|j: int| 0 <= j < k + 1 implies #[trigger] digit_value(d.take(k + 1)[j]) < radix by {
                if j < k {
                    assert(d.take(k + 1)[j] == d.take(k)[j]);
                }
            }
        }
        match value.checked_mul(radix as u64) {
            Some(scaled) => match scaled.checked_add(digit as u64) {
                Some(next) => {
                    value = next;
                },
                None => {
                    proof {
                        if all_digits(d, radix as int) {
                            lemma_digits_value_grows(d, k + 1, radix as int);
                        }
                    }
                    return None;
                },
            },
            None => {
                proof {
                    lemma_digits_value_nonneg(d.take(k), radix as int);
                    assert(value * radix + digit > u64::MAX) by (nonlinear_arith)
                        requires value * radix > u64::MAX, digit >= 0;
                    if all_digits(d, radix as int) {
                        lemma_digits_value_grows(d, k + 1, radix as int);
                    }
                }
                return None;
            },
        }
        i = i + 1;
    }
    assert(d.take(i - first) =~= d);
    Some(value)
}

/// An unsigned number: decimal, or hexadecimal after `0x`.
pub fn parse_number(t: &[char]) -> (res: Option<u64>)
    ensures
        res == spec_parse_number(t@),
{
    if t.len() == 0 || t[0] == '-' || t[0] == '+' {
        return None;
    }
    if t.len() >= 2 && t[0] == '0' && t[1] == 'x' {
        if t.len() == 2 {
            None
        } else {
            parse_radix(t, 2, 16)
        }
    } else {
        assert(t@.skip(0) =~= t@);
        parse_radix(t, 0, 10)
    }
}


/// 256 to the power `n`.
pub open spec fn pow256(n: nat) -> nat
    decreases n,
{
    if n == 0 { 1 } else { 256 * pow256((n - 1) as nat) }
}

/// The little-endian value of a byte string.
pub open spec fn le_value(s: Seq<u8>) -> nat
    decreases s.len(),
{
    if s.len() == 0 {
        0
    } else {
        le_value(s.drop_last()) + (s.last() as nat) * pow256((s.len() - 1) as nat)
    }
}

/// The digits and base of a mask number: hexadecimal after `0x`, else decimal.
pub open spec fn mask_digits(t: Seq<char>) -> (Seq<char>, int) {
    if t.len() >= 2 && t[0] == '0' && t[1] == 'x' { (t.skip(2), 16) } else { (t, 10) }
}

/// A mask number whose value fits in `size` bytes: at least one digit, no sign.
pub open spec fn spec_mask_number(t: Seq<char>, size: nat) -> Option<nat> {
    let (d, radix) = mask_digits(t);
    if d.len() > 0 && all_digits(d, radix) && digits_value(d, radix) < pow256(size) {
        Some(digits_value(d, radix) as nat)
    } else {
        None
    }
}

proof fn lemma_le_value_bound(s: Seq<u8>)
    ensures
        le_value(s) < pow256(s.len()),
    decreases s.len(),
{
    if s.len() > 0 {
        lemma_le_value_bound(s.drop_last());
        let p = pow256((s.len() - 1) as nat);
        assert(le_value(s.drop_last()) + s.last() * p < 256 * p) by (nonlinear_arith)
            requires le_value(s.drop_last()) < p, s.last() <= 255;
    }
}

/// Multiplies the little-endian number in `bytes` by `radix` and adds `digit`,
/// reporting whether the result still fits.
fn mul_add_le(bytes: &mut Vec<u8>, radix: u16, digit: u16) -> (fits: bool)
    requires
        radix == 10 || radix == 16,
        digit < radix,
    ensures
        final(bytes)@.len() == old(bytes)@.len(),
        fits ==> le_value(final(bytes)@) == le_value(old(bytes)@) * radix + digit,
        !fits ==> le_value(old(bytes)@) * radix + digit >= pow256(old(bytes)@.len()),
{
    let ghost old_bytes = bytes@;
    let n = bytes.len();
    let mut carry: u16 = digit;
    let mut i: usize = 0;
    assert(bytes@.take(0) =~= Seq::<u8>::empty());
    assert(old_bytes.take(0) =~= Seq::<u8>::empty());
    assert(pow256(0) == 1);
    while i < n
        invariant
            n == bytes@.len(),
            n == old_bytes.len(),
            i <= n,
            radix == 10 || radix == 16,
            carry < 16,
            forall|k: int| i <= k < n ==> bytes@[k] == old_bytes[k],
            le_value(bytes@.take(i as int)) + carry * pow256(i as nat) == le_value(old_bytes.take(i as int)) * radix + digit,
        decreases n - i,
    {
        let ghost before = bytes@;
        let b = bytes[i];
        let total: u16 = b as u16 * radix + carry;
        bytes.set(i, (total % 256) as u8);
        let next = total / 256;
        proof {
            let p = pow256(i as nat);
            assert(pow256((i + 1) as nat) == 256 * p);
            assert(bytes@.take(i + 1).drop_last() =~= before.take(i as int));
            assert(bytes@.take(i as int) =~= before.take(i as int));
            assert(old_bytes.take(i + 1).drop_last() =~= old_bytes.take(i as int));
            assert(le_value(bytes@.take(i + 1)) == le_value(bytes@.take(i as int)) + (total % 256) * p);
            assert(le_value(old_bytes.take(i + 1)) == le_value(old_bytes.take(i as int)) + b * p);
            let lv = le_value(bytes@.take(i as int));
            let ov = le_value(old_bytes.take(i as int));
            assert(lv + (total % 256) * p + next * (256 * p) == (ov + b * p) * radix + digit) by (nonlinear_arith)
                requires
                    lv + carry * p == ov * radix + digit,
                    total == b * radix + carry,
                    total == (total % 256) + 256 * next;
        }
        carry = next;
        i = i + 1;
    }
    assert(bytes@.take(n as int) =~= bytes@);
    assert(old_bytes.take(n as int) =~= old_bytes);
    proof {
        lemma_le_value_bound(bytes@);
        if carry != 0 {
            assert(le_value(bytes@) + carry * pow256(n as nat) >= pow256(n as nat)) by (nonlinear_arith)
                requires carry >= 1, le_value(bytes@) >= 0;
        }
    }
    carry == 0
}

proof fn lemma_le_value_zeros(s: Seq<u8>)
    requires
        forall|i: int| 0 <= i < s.len() ==> s[i] == 0,
    ensures
        le_value(s) == 0,
    decreases s.len(),
{
    if s.len() > 0 {
        lemma_le_value_zeros(s.drop_last());
        assert(s.last() == 0);
    }
}

proof fn lemma_digit_step(d: Seq<char>, k: int, radix: int)
    requires
        0 <= k < d.len(),
        all_digits(d.take(k), radix),
        digit_value(d[k]) < radix,
    ensures
        all_digits(d.take(k + 1), radix),
        digits_value(d.take(k + 1), radix) == digits_value(d.take(k), radix) * radix + digit_value(d[k]),
{
    assert(d.take(k + 1).drop_last() =~= d.take(k));
    assert forall|j: int| 0 <= j < k + 1 implies #[trigger] digit_value(d.take(k + 1)[j]) < radix by {
        if j < k {
            assert(d.take(k + 1)[j] == d.take(k)[j]);
        }
    }
}

/// A mask number as `size` little-endian bytes, when it fits.
#[verifier::rlimit(40)]
pub fn parse_mask_number(t: &[char], size: usize) -> (res: Option<Vec<u8>>)
    ensures
        match spec_mask_number(t@, size as nat) {
            Some(v) => res matches Some(b) && b@.len() == size && le_value(b@) == v,
            None => res is None,
        },
{
    let (start, radix): (usize, u16) = if t.len() >= 2 && t[0] == '0' && t[1] == 'x' { (2, 16) } else { (0, 10) };
    let ghost d = t@.skip(start as int);
    assert(d =~= mask_digits(t@).0);
    if start == t.len() {
        return None;
    }
    let mut bytes: Vec<u8> = vec![0u8; size];
    proof {
        lemma_le_value_zeros(bytes@);
        assert(d.take(0) =~= Seq::<char>::empty());
    }
    let mut i = start;
    while i < t.len()
        invariant
            start <= i <= t@.len(),
            start < t@.len(),
            d == t@.skip(start as int),
            (d, radix as int) == mask_digits(t@),
            radix == 10 || radix == 16,
            bytes@.len() == size,
            all_digits(d.take(i - start), radix as int),
            le_value(bytes@) == digits_value(d.take(i - start), radix as int),
        decreases t@.len() - i,
    {
        let digit = digit_of(t[i]);
        let ghost k = (i - start) as int;
        assert(d[k] == t@[i as int]);
        if digit as u16 >= radix {
            assert(!all_digits(d, radix as int)) by {
                assert(digit_value(d[k]) >= radix);
            }
            return None;
        }
        proof {
            lemma_digit_step(d, k, radix as int);
        }
        let ghost before_value = le_value(bytes@);
        if !mul_add_le(&mut bytes, radix, digit as u16) {
            proof {
                if all_digits(d, radix as int) {
                    lemma_digits_value_grows(d, k + 1, radix as int);
                }
            }
            return None;
        }
        i = i + 1;
    }
    assert(d.take(i - start) =~= d);
    proof {
        lemma_le_value_bound(bytes@);
    }
    Some(bytes)
}

/// The `n` little-endian bytes of `v`, for `v < 256^n`.
pub open spec fn le_bytes(v: nat, n: nat) -> Seq<u8>
    decreases n,
{
    if n == 0 {
        seq![]
    } else {
        let p = pow256((n - 1) as nat);
        le_bytes(v % p, (n - 1) as nat).push((v / p) as u8)
    }
}

pub proof fn lemma_pow256_positive(n: nat)
    ensures
        pow256(n) >= 1,
    decreases n,
{
    if n > 0 {
        lemma_pow256_positive((n - 1) as nat);
    }
}

/// A byte string is the little-endian encoding of its value.
pub proof fn lemma_le_bytes_of_value(b: Seq<u8>)
    ensures
        b == le_bytes(le_value(b), b.len()),
    decreases b.len(),
{
    if b.len() > 0 {
        let d = b.drop_last();
        let p = pow256((b.len() - 1) as nat);
        lemma_le_value_bound(d);
        lemma_pow256_positive((b.len() - 1) as nat);
        let v = le_value(b);
        assert(v == b.last() * p + le_value(d));
        vstd::arithmetic::div_mod::lemma_fundamental_div_mod_converse(v as int, p as int, b.last() as int, le_value(d) as int);
        lemma_le_bytes_of_value(d);
        assert(b =~= d.push(b.last()));
    }
}

} // verus!

//! Decimal and hexadecimal numerals as sequences of characters.
//!
//! A numeral is read most significant digit first. `dec_value` and
//! `hex_value` give the number a digit string stands for, `dec_text` and
//! `hex_text` give the shortest digit string of a number, and the lemmas
//! relate the two directions.

use vstd::prelude::*;

verus! {

/// `c` is one of `0` to `9`.
pub open spec fn is_dec_digit(c: char) -> bool {
    '0' <= c && c <= '9'
}

/// The number that the decimal digit `c` stands for.
pub open spec fn dec_digit_value(c: char) -> nat {
    (c as int - '0' as int) as nat
}

/// The decimal digit that stands for `d`, for `d` below ten.
pub open spec fn dec_digit(d: nat) -> char {
    ('0' as int + d) as char
}

/// Every character of `s` is a decimal digit.
pub open spec fn all_dec_digits(s: Seq<char>) -> bool {
    forall|i: int| 0 <= i < s.len() ==> is_dec_digit(#[trigger] s[i])
}

/// The number that the digit string `s` stands for in base ten.
pub open spec fn dec_value(s: Seq<char>) -> nat
    decreases s.len(),
{
    if s.len() == 0 {
        0
    } else {
        dec_value(s.drop_last()) * 10 + dec_digit_value(s.last())
    }
}

/// The decimal numeral of `n` without leading zeros.
pub open spec fn dec_text(n: nat) -> Seq<char>
    decreases n,
{
    if n < 10 {
        seq![dec_digit(n)]
    } else {
        dec_text(n / 10).push(dec_digit(n % 10))
    }
}

/// `s` is a decimal numeral of a number no greater than `max`; leading zeros
/// are allowed.
pub open spec fn is_dec_numeral(s: Seq<char>, max: nat) -> bool {
    s.len() >= 1 && all_dec_digits(s) && dec_value(s) <= max
}

/// `c` is a hexadecimal digit in either case.
pub open spec fn is_hex_digit(c: char) -> bool {
    ('0' <= c && c <= '9') || ('a' <= c && c <= 'f') || ('A' <= c && c <= 'F')
}

/// The number that the hexadecimal digit `c` stands for.
pub open spec fn hex_digit_value(c: char) -> nat {
    if '0' <= c && c <= '9' {
        (c as int - '0' as int) as nat
    } else if 'a' <= c && c <= 'f' {
        (c as int - 'a' as int + 10) as nat
    } else {
        (c as int - 'A' as int + 10) as nat
    }
}

/// The lower-case hexadecimal digit that stands for `d`, for `d` below sixteen.
pub open spec fn hex_digit(d: nat) -> char {
    if d < 10 {
        ('0' as int + d) as char
    } else {
        ('a' as int + d - 10) as char
    }
}

/// Every character of `s` is a hexadecimal digit.
pub open spec fn all_hex_digits(s: Seq<char>) -> bool {
    forall|i: int| 0 <= i < s.len() ==> is_hex_digit(#[trigger] s[i])
}

/// The number that the digit string `s` stands for in base sixteen.
pub open spec fn hex_value(s: Seq<char>) -> nat
    decreases s.len(),
{
    if s.len() == 0 {
        0
    } else {
        hex_value(s.drop_last()) * 16 + hex_digit_value(s.last())
    }
}

/// The lower-case hexadecimal numeral of `n` without leading zeros.
pub open spec fn hex_text(n: nat) -> Seq<char>
    decreases n,
{
    if n < 16 {
        seq![hex_digit(n)]
    } else {
        hex_text(n / 16).push(hex_digit(n % 16))
    }
}

/// `dec_text(n)` is a string of digits that starts with a zero only for
/// `n == 0`, and it stands for `n`.
pub proof fn lemma_dec_text(n: nat)
    ensures
        dec_text(n).len() >= 1,
        all_dec_digits(dec_text(n)),
        dec_value(dec_text(n)) == n,
        n > 0 ==> dec_text(n)[0] != '0',
        n < 10 ==> dec_text(n).len() == 1,
        10 <= n < 100 ==> dec_text(n).len() == 2,
        100 <= n < 1000 ==> dec_text(n).len() == 3,
    decreases n,
{
    if n < 10 {
        assert(dec_text(n).drop_last() =~= Seq::<char>::empty());
        assert(dec_value(dec_text(n)) == dec_value(Seq::<char>::empty()) * 10 + dec_digit_value(
            dec_digit(n),
        ));
    } else {
        lemma_dec_text(n / 10);
        let head = dec_text(n / 10);
        let full = head.push(dec_digit(n % 10));
        assert(full.drop_last() =~= head);
    }
}

/// Appending digits never makes a numeral smaller.
pub proof fn lemma_dec_value_prefix(s: Seq<char>, k: int)
    requires
        0 <= k <= s.len(),
    ensures
        dec_value(s.take(k)) <= dec_value(s),
    decreases s.len(),
{
    if k < s.len() {
        lemma_dec_value_prefix(s.drop_last(), k);
        assert(s.drop_last().take(k) =~= s.take(k));
    } else {
        assert(s.take(k) =~= s);
    }
}

/// `hex_text(n)` is a string of at most four lower-case digits for a number
/// of sixteen bits, and it stands for `n`.
pub proof fn lemma_hex_text(n: nat)
    ensures
        hex_text(n).len() >= 1,
        all_hex_digits(hex_text(n)),
        hex_value(hex_text(n)) == n,
        n < 0x10 ==> hex_text(n).len() == 1,
        0x10 <= n < 0x100 ==> hex_text(n).len() == 2,
        0x100 <= n < 0x1000 ==> hex_text(n).len() == 3,
        0x1000 <= n < 0x10000 ==> hex_text(n).len() == 4,
    decreases n,
{
    if n < 16 {
        assert(hex_text(n).drop_last() =~= Seq::<char>::empty());
        assert(hex_value(hex_text(n)) == hex_value(Seq::<char>::empty()) * 16 + hex_digit_value(
            hex_digit(n),
        ));
    } else {
        lemma_hex_text(n / 16);
        let head = hex_text(n / 16);
        let full = head.push(hex_digit(n % 16));
        assert(full.drop_last() =~= head);
    }
}

/// A numeral of at most four hexadecimal digits fits in sixteen bits.
pub proof fn lemma_hex_value_bound(s: Seq<char>)
    requires
        all_hex_digits(s),
    ensures
        s.len() == 0 ==> hex_value(s) == 0,
        s.len() == 1 ==> hex_value(s) < 0x10,
        s.len() == 2 ==> hex_value(s) < 0x100,
        s.len() == 3 ==> hex_value(s) < 0x1000,
        s.len() == 4 ==> hex_value(s) < 0x10000,
    decreases s.len(),
{
    if s.len() >= 1 {
        let t = s.drop_last();
        lemma_hex_value_bound(t);
    }
}

/// Reads `s` as a decimal numeral of a number no greater than `max`.
pub fn parse_dec(s: &[char], max: u32) -> (r: Option<u32>)
    ensures
        r == (if is_dec_numeral(s@, max as nat) {
            Some(dec_value(s@) as u32)
        } else {
            None
        }),
{
    if s.len() == 0 {
        return None;
    }
    let mut acc: u32 = 0;
    let mut i: usize = 0;
    while i < s.len()
        invariant
            i <= s.len(),
            acc == dec_value(s@.take(i as int)),
            acc <= max,
            all_dec_digits(s@.take(i as int)),
        decreases s.len() - i,
    {
        let c = s[i];
        if !('0' <= c && c <= '9') {
            return None;
        }
        let d: u64 = (c as u32 - '0' as u32) as u64;
        let next: u64 = (acc as u64) * 10 + d;
        proof {
            let p = s@.take(i as int + 1);
            assert(p.drop_last() =~= s@.take(i as int));
            if next > max {
                lemma_dec_value_prefix(s@, i as int + 1);
            }
        }
        if next > max as u64 {
            return None;
        }
        acc = next as u32;
        i += 1;
    }
    proof {
        assert(s@.take(i as int) =~= s@);
    }
    Some(acc)
}

/// Reads `s` as a hexadecimal numeral of one to four digits.
pub fn parse_hex_group(s: &[char]) -> (r: Option<u16>)
    ensures
        r == (if 1 <= s@.len() <= 4 && all_hex_digits(s@) {
            Some(hex_value(s@) as u16)
        } else {
            None
        }),
        r is Some ==> hex_value(s@) < 0x10000,
{
    if s.len() == 0 || s.len() > 4 {
        return None;
    }
    let mut acc: u32 = 0;
    let mut i: usize = 0;
    while i < s.len()
        invariant
            i <= s.len() <= 4,
            acc == hex_value(s@.take(i as int)),
            all_hex_digits(s@.take(i as int)),
        decreases s.len() - i,
    {
        let c = s[i];
        let d: u32 = if '0' <= c && c <= '9' {
            c as u32 - '0' as u32
        } else if 'a' <= c && c <= 'f' {
            c as u32 - 'a' as u32 + 10
        } else if 'A' <= c && c <= 'F' {
            c as u32 - 'A' as u32 + 10
        } else {
            return None;
        };
        proof {
            let p = s@.take(i as int + 1);
            assert(p.drop_last() =~= s@.take(i as int));
            lemma_hex_value_bound(s@.take(i as int));
        }
        acc = acc * 16 + d;
        i += 1;
    }
    proof {
        assert(s@.take(i as int) =~= s@);
        lemma_hex_value_bound(s@);
    }
    Some(acc as u16)
}

/// Appends the decimal numeral of `n` to `out`.
pub fn push_dec(out: &mut String, n: u32)
    ensures
        final(out)@ == old(out)@ + dec_text(n as nat),
    decreases n,
{
    if n >= 10 {
        push_dec(out, n / 10);
    }
    let d: u8 = (n % 10) as u8;
    let c: char = (d + 48) as char;
    proof {
        if n >= 10 {
            assert(old(out)@ + dec_text(n as nat) =~= (old(out)@ + dec_text((n / 10) as nat)).push(
                c,
            ));
        }
    }
    out.push(c);
}

/// Appends the lower-case hexadecimal numeral of `n` to `out`.
pub fn push_hex(out: &mut String, n: u16)
    ensures
        final(out)@ == old(out)@ + hex_text(n as nat),
    decreases n,
{
    if n >= 16 {
        push_hex(out, n / 16);
    }
    let d: u8 = (n % 16) as u8;
    let c: char = if d < 10 {
        (d + 48) as char
    } else {
        (d + 87) as char
    };
    proof {
        if n >= 16 {
            assert(old(out)@ + hex_text(n as nat) =~= (old(out)@ + hex_text((n / 16) as nat)).push(
                c,
            ));
        }
    }
    out.push(c);
}

} // verus!

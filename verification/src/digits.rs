//! Numbers as text: fixed-width lowercase hexadecimal and decimal.

use vstd::prelude::*;

verus! {

/// The lowercase hexadecimal digit for a value below 16.
pub open spec fn hex_digit(d: nat) -> char {
    if d == 0 {
        '0'
    } else if d == 1 {
        '1'
    } else if d == 2 {
        '2'
    } else if d == 3 {
        '3'
    } else if d == 4 {
        '4'
    } else if d == 5 {
        '5'
    } else if d == 6 {
        '6'
    } else if d == 7 {
        '7'
    } else if d == 8 {
        '8'
    } else if d == 9 {
        '9'
    } else if d == 10 {
        'a'
    } else if d == 11 {
        'b'
    } else if d == 12 {
        'c'
    } else if d == 13 {
        'd'
    } else if d == 14 {
        'e'
    } else {
        'f'
    }
}

/// The value of a hexadecimal digit of either case, where `c` is one.
pub open spec fn hex_digit_value(c: char) -> Option<nat> {
    if '0' <= c <= '9' {
        Some((c as u32 - '0' as u32) as nat)
    } else if 'a' <= c <= 'f' {
        Some((c as u32 - 'a' as u32 + 10) as nat)
    } else if 'A' <= c <= 'F' {
        Some((c as u32 - 'A' as u32 + 10) as nat)
    } else {
        None
    }
}

/// `n` written with `width` hexadecimal digits, the more significant ones first.
pub open spec fn hex_text(n: nat, width: nat) -> Seq<char>
    decreases width,
{
    if width == 0 {
        Seq::empty()
    } else {
        hex_text(n / 16, (width - 1) as nat).push(hex_digit(n % 16))
    }
}

/// Every character is a hexadecimal digit.
pub open spec fn all_hex(s: Seq<char>) -> bool {
    forall|i: int| 0 <= i < s.len() ==> hex_digit_value(#[trigger] s[i]) is Some
}

/// The number that a text of hexadecimal digits writes.
pub open spec fn hex_value(s: Seq<char>) -> nat
    decreases s.len(),
{
    if s.len() == 0 {
        0
    } else {
        hex_value(s.drop_last()) * 16 + hex_digit_value(s.last()).unwrap()
    }
}

/// 16 to the power `e`.
pub open spec fn pow16(e: nat) -> nat
    decreases e,
{
    if e == 0 {
        1
    } else {
        16 * pow16((e - 1) as nat)
    }
}

/// The decimal digit for a value below 10.
pub open spec fn dec_digit(d: nat) -> char {
    if d == 0 {
        '0'
    } else if d == 1 {
        '1'
    } else if d == 2 {
        '2'
    } else if d == 3 {
        '3'
    } else if d == 4 {
        '4'
    } else if d == 5 {
        '5'
    } else if d == 6 {
        '6'
    } else if d == 7 {
        '7'
    } else if d == 8 {
        '8'
    } else {
        '9'
    }
}

/// `n` written in decimal, without leading zeros.
pub open spec fn decimal_text(n: nat) -> Seq<char>
    decreases n,
{
    if n < 10 {
        seq![dec_digit(n)]
    } else {
        decimal_text(n / 10).push(dec_digit(n % 10))
    }
}

/// A number written with `width` digits has `width` characters, all of
/// them hexadecimal digits.
pub proof fn lemma_hex_text_len(n: nat, width: nat)
    ensures
        hex_text(n, width).len() == width,
        all_hex(hex_text(n, width)),
    decreases width,
{
    if width > 0 {
        lemma_hex_text_len(n / 16, (width - 1) as nat);
        let rest = hex_text(n / 16, (width - 1) as nat);
        assert forall|i: int| 0 <= i < hex_text(n, width).len() implies hex_digit_value(
            #[trigger] hex_text(n, width)[i],
        ) is Some by {
            if i < rest.len() {
                assert(hex_text(n, width)[i] == rest[i]);
            }
        }
    }
}

/// Reading back what was written gives the number, where the width holds it.
pub proof fn lemma_hex_round_trip(n: nat, width: nat)
    requires
        n < pow16(width),
    ensures
        hex_value(hex_text(n, width)) == n,
    decreases width,
{
    if width > 0 {
        let rest = hex_text(n / 16, (width - 1) as nat);
        assert(n / 16 < pow16((width - 1) as nat));
        lemma_hex_round_trip(n / 16, (width - 1) as nat);
        let all = hex_text(n, width);
        assert(all.drop_last() =~= rest);
        assert(all.last() == hex_digit(n % 16));
        assert(hex_digit_value(hex_digit(n % 16)) == Some(n % 16));
    }
}

/// Sixteen hexadecimal digits hold every 64-bit number.
pub proof fn lemma_pow16_16()
    ensures
        pow16(16) == 0x1_0000_0000_0000_0000,
{
    reveal_with_fuel(pow16, 17);
}

/// The character for a hexadecimal digit.
pub fn hex_digit_char(d: u8) -> (c: char)
    requires
        d < 16,
    ensures
        c == hex_digit(d as nat),
{
    if d == 0 {
        '0'
    } else if d == 1 {
        '1'
    } else if d == 2 {
        '2'
    } else if d == 3 {
        '3'
    } else if d == 4 {
        '4'
    } else if d == 5 {
        '5'
    } else if d == 6 {
        '6'
    } else if d == 7 {
        '7'
    } else if d == 8 {
        '8'
    } else if d == 9 {
        '9'
    } else if d == 10 {
        'a'
    } else if d == 11 {
        'b'
    } else if d == 12 {
        'c'
    } else if d == 13 {
        'd'
    } else if d == 14 {
        'e'
    } else {
        'f'
    }
}

/// The value of a hexadecimal digit of either case.
pub fn hex_char_value(c: char) -> (r: Option<u8>)
    ensures
        match r {
            Some(d) => hex_digit_value(c) == Some(d as nat) && d < 16,
            None => hex_digit_value(c) is None,
        },
{
    let u: u32 = c as u32;
    if '0' <= c && c <= '9' {
        Some((u - 48) as u8)
    } else if 'a' <= c && c <= 'f' {
        Some((u - 97 + 10) as u8)
    } else if 'A' <= c && c <= 'F' {
        Some((u - 65 + 10) as u8)
    } else {
        None
    }
}

/// `n` as sixteen lowercase hexadecimal digits.
pub fn hex16(n: u64) -> (out: Vec<char>)
    ensures
        out@ == hex_text(n as nat, 16),
{
    let mut out: Vec<char> = Vec::new();
    let mut k: usize = 0;
    while k < 16
        invariant
            k <= 16,
            out@.len() == k,
        decreases 16 - k,
    {
        out.push('0');
        k = k + 1;
    }
    let mut rest: u64 = n;
    let mut i: usize = 16;
    assert(hex_text(n as nat, 16) =~= hex_text(rest as nat, 16) + out@.subrange(16, 16));
    while i > 0
        invariant
            i <= 16,
            out@.len() == 16,
            hex_text(n as nat, 16) == hex_text(rest as nat, i as nat) + out@.subrange(i as int, 16),
        decreases i,
    {
        let ghost before = out@;
        let d: u8 = (rest % 16) as u8;
        i = i - 1;
        out.set(i, hex_digit_char(d));
        proof {
            let head = hex_text((rest / 16) as nat, i as nat);
            assert(hex_text(rest as nat, (i + 1) as nat) == head.push(hex_digit((rest % 16) as nat)));
            assert(out@.subrange(i as int, 16) =~= seq![hex_digit((rest % 16) as nat)]
                + before.subrange(i + 1, 16));
            assert(head.push(hex_digit((rest % 16) as nat)) + before.subrange(i + 1, 16) =~= head
                + out@.subrange(i as int, 16));
        }
        rest = rest / 16;
    }
    assert(out@.subrange(0, 16) =~= out@);
    assert(hex_text(rest as nat, 0) + out@ =~= out@);
    out
}

/// The number that sixteen hexadecimal digits write, where `s` is sixteen
/// hexadecimal digits.
pub fn parse_hex16(s: &Vec<char>) -> (r: Option<u64>)
    ensures
        match r {
            Some(n) => s@.len() == 16 && all_hex(s@) && n == hex_value(s@),
            None => !(s@.len() == 16 && all_hex(s@)),
        },
{
    if s.len() != 16 {
        return None;
    }
    let mut value: u64 = 0;
    let mut i: usize = 0;
    assert(s@.take(0) =~= Seq::<char>::empty());
    while i < 16
        invariant
            i <= 16,
            s@.len() == 16,
            all_hex(s@.take(i as int)),
            value == hex_value(s@.take(i as int)),
            value < pow16(i as nat),
        decreases 16 - i,
    {
        let d = match hex_char_value(s[i]) {
            Some(d) => d,
            None => {
                return None;
            },
        };
        proof {
            let next = s@.take(i + 1);
            assert(next.drop_last() =~= s@.take(i as int));
            assert(next.last() == s@[i as int]);
            assert forall|k: int| 0 <= k < next.len() implies hex_digit_value(#[trigger] next[k])
                is Some by {
                if k < i {
                    assert(next[k] == s@.take(i as int)[k]);
                }
            }
            assert(pow16((i + 1) as nat) == 16 * pow16(i as nat));
            lemma_pow16_16();
            lemma_pow16_monotonic((i + 1) as nat, 16);
        }
        value = value * 16 + d as u64;
        i = i + 1;
    }
    assert(s@.take(16) =~= s@);
    Some(value)
}

/// The powers of 16 grow, and none is zero.
pub proof fn lemma_pow16_monotonic(a: nat, b: nat)
    requires
        a <= b,
    ensures
        pow16(a) <= pow16(b),
        pow16(a) >= 1,
    decreases b,
{
    if a < b {
        lemma_pow16_monotonic(a, (b - 1) as nat);
    } else if a > 0 {
        lemma_pow16_monotonic((a - 1) as nat, (b - 1) as nat);
    }
}

/// `n` in decimal.
pub fn decimal(n: u64) -> (out: Vec<char>)
    ensures
        out@ == decimal_text(n as nat),
{
    let mut rev: Vec<char> = Vec::new();
    let mut rest: u64 = n;
    while rest >= 10
        invariant
            decimal_text(n as nat) == decimal_text(rest as nat) + rev@.reverse(),
        decreases rest,
    {
        let ghost before = rev@;
        let d: u8 = (rest % 10) as u8;
        rev.push(dec_digit_char(d));
        proof {
            assert(rev@.reverse() =~= seq![dec_digit((rest % 10) as nat)] + before.reverse());
            assert(decimal_text(rest as nat) == decimal_text((rest / 10) as nat).push(
                dec_digit((rest % 10) as nat),
            ));
            assert(decimal_text((rest / 10) as nat).push(dec_digit((rest % 10) as nat))
                + before.reverse() =~= decimal_text((rest / 10) as nat) + rev@.reverse());
        }
        rest = rest / 10;
    }
    let ghost before = rev@;
    rev.push(dec_digit_char(rest as u8));
    proof {
        assert(rev@.reverse() =~= seq![dec_digit(rest as nat)] + before.reverse());
    }
    let mut out: Vec<char> = Vec::new();
    let mut i: usize = rev.len();
    while i > 0
        invariant
            i <= rev.len(),
            out@ == rev@.reverse().take(rev.len() - i),
        decreases i,
    {
        i = i - 1;
        out.push(rev[i]);
        assert(out@ =~= rev@.reverse().take(rev.len() - i));
    }
    assert(rev@.reverse().take(rev.len() as int) =~= rev@.reverse());
    out
}

/// The character for a decimal digit.
pub fn dec_digit_char(d: u8) -> (c: char)
    requires
        d < 10,
    ensures
        c == dec_digit(d as nat),
{
    if d == 0 {
        '0'
    } else if d == 1 {
        '1'
    } else if d == 2 {
        '2'
    } else if d == 3 {
        '3'
    } else if d == 4 {
        '4'
    } else if d == 5 {
        '5'
    } else if d == 6 {
        '6'
    } else if d == 7 {
        '7'
    } else if d == 8 {
        '8'
    } else {
        '9'
    }
}

} // verus!

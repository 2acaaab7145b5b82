//! Byte layouts that the packets are made of.

use vstd::prelude::*;
use vstd::string::StringExecFns;

verus! {

/// A 32-bit number in network byte order.
pub open spec fn be32_bytes(v: u32) -> Seq<u8> {
    seq![(v / 0x100_0000) as u8, (v / 0x1_0000 % 256) as u8, (v / 0x100 % 256) as u8, (v % 256) as u8]
}

/// A 16-bit number in network byte order.
pub open spec fn be16_bytes(v: u16) -> Seq<u8> {
    seq![(v / 256) as u8, (v % 256) as u8]
}

/// Number that four bytes in network byte order stand for.
pub open spec fn be32_value(b: Seq<u8>, at: int) -> int {
    b[at] * 0x100_0000 + b[at + 1] * 0x1_0000 + b[at + 2] * 0x100 + b[at + 3]
}

/// Number that two bytes in network byte order stand for.
pub open spec fn be16_value(b: Seq<u8>, at: int) -> int {
    b[at] * 0x100 + b[at + 1]
}

/// The bits of a signed 16-bit number as an unsigned one.
pub open spec fn bits16(v: int) -> u16 {
    (if v < 0 {
        v + 0x1_0000
    } else {
        v
    }) as u16
}

/// The signed 16-bit number with the given bits.
pub open spec fn signed16(u: int) -> int {
    if u >= 0x8000 {
        u - 0x1_0000
    } else {
        u
    }
}

/// Reading four bytes gives back the number that was written.
pub proof fn lemma_be32_round_trip(v: u32)
    ensures
        be32_value(be32_bytes(v), 0) == v,
        be32_bytes(v).len() == 4,
{
}

/// Reading two bytes gives back the signed number that was written.
pub proof fn lemma_be16_round_trip(v: i16)
    ensures
        signed16(be16_value(be16_bytes(bits16(v as int)), 0)) == v,
        be16_bytes(bits16(v as int)).len() == 2,
{
}

/// `s` with `b` written over it from index `at` on.
pub open spec fn overwritten(s: Seq<u8>, at: int, b: Seq<u8>) -> Seq<u8> {
    Seq::new(
        s.len(),
        |k: int|
            if at <= k < at + b.len() {
                b[k - at]
            } else {
                s[k]
            },
    )
}

/// Appends a 32-bit number in network byte order.
pub fn push_be32(out: &mut Vec<u8>, v: u32)
    ensures
        final(out)@ == old(out)@ + be32_bytes(v),
{
    out.push((v / 0x100_0000) as u8);
    out.push((v / 0x1_0000 % 256) as u8);
    out.push((v / 0x100 % 256) as u8);
    out.push((v % 256) as u8);
    assert(out@ =~= old(out)@ + be32_bytes(v));
}

/// Appends a 16-bit number in network byte order.
pub fn push_be16(out: &mut Vec<u8>, v: u16)
    ensures
        final(out)@ == old(out)@ + be16_bytes(v),
{
    out.push((v / 256) as u8);
    out.push((v % 256) as u8);
    assert(out@ =~= old(out)@ + be16_bytes(v));
}

/// The bits of a signed 16-bit number.
pub fn to_bits16(v: i16) -> (u: u16)
    ensures
        u == bits16(v as int),
{
    if v < 0 {
        (v as i32 + 0x1_0000) as u16
    } else {
        v as u16
    }
}

/// Reads a 32-bit number in network byte order.
pub fn read_be32(b: &[u8], at: usize) -> (v: u32)
    requires
        at + 4 <= b@.len(),
    ensures
        v == be32_value(b@, at as int),
{
    b[at] as u32 * 0x100_0000 + b[at + 1] as u32 * 0x1_0000 + b[at + 2] as u32 * 0x100 + b[at
        + 3] as u32
}

/// Reads a 16-bit number in network byte order.
pub fn read_be16(b: &[u8], at: usize) -> (v: u16)
    requires
        at + 2 <= b@.len(),
    ensures
        v == be16_value(b@, at as int),
{
    b[at] as u16 * 0x100 + b[at + 1] as u16
}

/// Reads a signed 16-bit number in network byte order.
pub fn read_signed_be16(b: &[u8], at: usize) -> (v: i16)
    requires
        at + 2 <= b@.len(),
    ensures
        v == signed16(be16_value(b@, at as int)),
{
    let u: i32 = read_be16(b, at) as i32;
    if u >= 0x8000 {
        (u - 0x1_0000) as i16
    } else {
        u as i16
    }
}

/// Appends all bytes of a slice.
pub fn push_all(out: &mut Vec<u8>, bytes: &[u8])
    ensures
        final(out)@ == old(out)@ + bytes@,
{
    let ghost before = out@;
    let mut i: usize = 0;
    while i < bytes.len()
        invariant
            i <= bytes@.len(),
            out@ == before + bytes@.take(i as int),
        decreases bytes@.len() - i,
    {
        out.push(bytes[i]);
        i = i + 1;
        assert(out@ =~= before + bytes@.take(i as int));
    }
    assert(bytes@.take(bytes@.len() as int) == bytes@);
}

/// `n` zero bytes.
pub open spec fn zeros(n: nat) -> Seq<u8> {
    Seq::new(n, |k: int| 0u8)
}

/// Appends zeros until there are `len` bytes.
pub fn pad_to(out: &mut Vec<u8>, len: usize)
    requires
        old(out)@.len() <= len,
    ensures
        final(out)@ == old(out)@ + zeros((len - old(out)@.len()) as nat),
{
    let ghost before = out@;
    while out.len() < len
        invariant
            before.len() <= out@.len() <= len,
            out@ == before + zeros((out@.len() - before.len()) as nat),
        decreases len - out@.len(),
    {
        out.push(0);
        assert(out@ =~= before + zeros((out@.len() - before.len()) as nat));
    }
}

/// Lower-case hexadecimal digit.
pub open spec fn hex_digit(n: int) -> char {
    if n < 10 {
        ('0' as int + n) as char
    } else {
        ('a' as int + n - 10) as char
    }
}

fn digit_text(n: u8) -> (s: &'static str)
    requires
        n < 16,
    ensures
        s@ == seq![hex_digit(n as int)],
{
    proof {
        reveal_strlit("0");
        reveal_strlit("1");
        reveal_strlit("2");
        reveal_strlit("3");
        reveal_strlit("4");
        reveal_strlit("5");
        reveal_strlit("6");
        reveal_strlit("7");
        reveal_strlit("8");
        reveal_strlit("9");
        reveal_strlit("a");
        reveal_strlit("b");
        reveal_strlit("c");
        reveal_strlit("d");
        reveal_strlit("e");
        reveal_strlit("f");
    }
    match n {
        0 => "0",
        1 => "1",
        2 => "2",
        3 => "3",
        4 => "4",
        5 => "5",
        6 => "6",
        7 => "7",
        8 => "8",
        9 => "9",
        10 => "a",
        11 => "b",
        12 => "c",
        13 => "d",
        14 => "e",
        _ => "f",
    }
}

/// A byte as a decimal number.
pub open spec fn decimal(n: int) -> Seq<char> {
    if n < 10 {
        seq![hex_digit(n)]
    } else if n < 100 {
        seq![hex_digit(n / 10), hex_digit(n % 10)]
    } else {
        seq![hex_digit(n / 100), hex_digit(n / 10 % 10), hex_digit(n % 10)]
    }
}

/// Appends a byte as a decimal number.
pub(crate) fn append_decimal(s: &mut String, n: u8)
    ensures
        final(s)@ == old(s)@ + decimal(n as int),
{
    if n >= 100 {
        s.append(digit_text(n / 100));
    }
    if n >= 10 {
        s.append(digit_text(n / 10 % 10));
    }
    s.append(digit_text(n % 10));
    assert(s@ =~= old(s)@ + decimal(n as int));
}

/// Address of a network interface as text: six bytes in hexadecimal with
/// colons between.
pub open spec fn mac_text(mac: Seq<u8>) -> Seq<char> {
    Seq::new(
        17,
        |k: int|
            if k % 3 == 2 {
                ':'
            } else if k % 3 == 0 {
                hex_digit(mac[k / 3] as int / 16)
            } else {
                hex_digit(mac[k / 3] as int % 16)
            },
    )
}

/// Address of a network interface as text, such as `00:1c:c0:a2:22:5d`.
pub fn mac_to_string(mac: &[u8; 6]) -> (s: String)
    ensures
        s@ == mac_text(mac@),
{
    let mut s: String = String::new();
    let mut i: usize = 0;
    proof {
        reveal_strlit(":");
    }
    while i < 6
        invariant
            i <= 6,
            s@ == mac_text(mac@).take(if i == 6 {
                17
            } else {
                3 * i as int
            }),
            ":"@ == seq![':'],
        decreases 6 - i,
    {
        let b: u8 = mac[i];
        let ghost before = s@;
        s.append(digit_text(b / 16));
        s.append(digit_text(b % 16));
        if i < 5 {
            s.append(":");
        }
        i = i + 1;
        assert(s@ =~= mac_text(mac@).take(if i == 6 {
            17
        } else {
            3 * i as int
        }));
    }
    assert(mac_text(mac@).take(17) =~= mac_text(mac@));
    s
}

} // verus!

//! The identity of a file, taken from its size and modification time and not
//! from its path, and its size scaled for reading.

use vstd::prelude::*;
use vstd::bytes::{spec_u128_to_le_bytes, u128_to_le_bytes};
use vstd::string::*;
use crate::name::two_digits;
use crate::text::{decimal, digit_char, digit_text, push_decimal};

verus! {

/// The attributes of a file that its identity is made of.
#[derive(Clone, Copy, Debug, PartialEq, Eq, Structural)]
pub struct FileStamp {
    /// Size in bytes.
    pub size_bytes: u64,
    /// Last modification, whole seconds since the Unix epoch.
    pub modified_secs: u64,
    /// Last modification, the nanoseconds beyond the whole seconds.
    pub modified_nanos: u32,
}

/// The CRC-32C (Castagnoli) checksum of a run of bytes.
pub uninterp spec fn crc32c(bytes: Seq<u8>) -> u32;

/// Calls `crc::Crc::<u32>::checksum` on a `Crc` made by `crc::Crc::<u32>::new` for
/// `crc::CRC_32_ISCSI`. The checksum is a function of the bytes alone; `crc32c`
/// names it.
#[verifier::external_body]
fn castagnoli(bytes: &Vec<u8>) -> (digest: u32)
    ensures
        digest == crc32c(bytes@),
{
    crc::Crc::<u32>::new(&crc::CRC_32_ISCSI).checksum(bytes.as_slice())
}

/// `n / d` rounded to the nearest integer; a tie goes to the even one.
pub open spec fn round_half_even(n: nat, d: nat) -> nat {
    let q = n / d;
    let r = n % d;
    if 2 * r > d || (2 * r == d && q % 2 == 1) {
        q + 1
    } else {
        q
    }
}

/// A size in hundredths of its scaled unit. The size is divided by 1024 until
/// it is below 1024, and at most three times, which leaves gigabytes; the
/// hundredths are rounded to the nearest.
pub open spec fn scaled_hundredths(bytes: nat) -> nat {
    if bytes < 1024 {
        round_half_even(bytes * 100, 1)
    } else if bytes < 1024 * 1024 {
        round_half_even(bytes * 100, 1024)
    } else if bytes < 1024 * 1024 * 1024 {
        round_half_even(bytes * 100, 1024 * 1024)
    } else {
        round_half_even(bytes * 100, 1024 * 1024 * 1024)
    }
}

/// `n / d`, rounded to the nearest, a tie to the even one.
fn round_div(n: u128, d: u128) -> (rounded: u128)
    requires
        0 < d <= 0x4000_0000,
        n <= 100 * u64::MAX,
    ensures
        rounded == round_half_even(n as nat, d as nat),
{
    let q: u128 = n / d;
    let r: u128 = n % d;
    if 2 * r > d || (2 * r == d && q % 2 == 1) {
        q + 1
    } else {
        q
    }
}

/// A size scaled to its unit, in hundredths: 1536 bytes are 150.
pub fn scaled_size(bytes: u64) -> (hundredths: u64)
    ensures
        hundredths == scaled_hundredths(bytes as nat),
{
    let n: u128 = bytes as u128 * 100;
    let rounded: u128 = if bytes < 1024 {
        round_div(n, 1)
    } else if bytes < 1024 * 1024 {
        round_div(n, 1024)
    } else if bytes < 1024 * 1024 * 1024 {
        round_div(n, 1024 * 1024)
    } else {
        round_div(n, 1024 * 1024 * 1024)
    };
    rounded as u64
}

/// A scaled size written with two decimals.
pub open spec fn size_text(hundredths: nat) -> Seq<char> {
    decimal(hundredths / 100) + seq!['.'] + two_digits(hundredths % 100)
}

/// A size scaled to its unit, with two decimals: 1536 bytes are "1.50".
pub fn human_readable_bytes(bytes: u64) -> (text: String)
    ensures
        text@ == size_text(scaled_hundredths(bytes as nat)),
{
    let h = scaled_size(bytes);
    let mut out = String::new();
    push_decimal(&mut out, h / 100);
    out.append(".");
    let cents: u64 = h % 100;
    out.append(digit_text((cents / 10) as u8));
    out.append(digit_text((cents % 10) as u8));
    proof {
        reveal_strlit(".");
        assert(out@ =~= size_text(h as nat));
    }
    out
}

/// The character that writes a hexadecimal digit, small letters for ten to fifteen.
pub open spec fn hex_char(d: int) -> char {
    if d < 10 {
        digit_char(d)
    } else if d == 10 {
        'a'
    } else if d == 11 {
        'b'
    } else if d == 12 {
        'c'
    } else if d == 13 {
        'd'
    } else if d == 14 {
        'e'
    } else {
        'f'
    }
}

/// A checksum as eight hexadecimal digits, the leading zeros kept.
pub open spec fn hex8(x: u32) -> Seq<char> {
    seq![
        hex_char(x as int / 0x1000_0000 % 16),
        hex_char(x as int / 0x100_0000 % 16),
        hex_char(x as int / 0x10_0000 % 16),
        hex_char(x as int / 0x1_0000 % 16),
        hex_char(x as int / 0x1000 % 16),
        hex_char(x as int / 0x100 % 16),
        hex_char(x as int / 0x10 % 16),
        hex_char(x as int % 16),
    ]
}

/// The one-character text of a hexadecimal digit.
pub fn hex_text(d: u8) -> (t: &'static str)
    requires
        d < 16,
    ensures
        t@ == seq![hex_char(d as int)],
{
    if d < 10 {
        digit_text(d)
    } else {
        proof {
            reveal_strlit("a");
            reveal_strlit("b");
            reveal_strlit("c");
            reveal_strlit("d");
            reveal_strlit("e");
            reveal_strlit("f");
        }
        let t = match d {
            10 => "a",
            11 => "b",
            12 => "c",
            13 => "d",
            14 => "e",
            _ => "f",
        };
        assert(t@ =~= seq![hex_char(d as int)]);
        t
    }
}

/// A checksum rendered as a fingerprint: eight small hexadecimal digits.
pub fn hex_digest(digest: u32) -> (text: String)
    ensures
        text@ == hex8(digest),
{
    let mut out = String::new();
    out.append(hex_text((digest / 0x1000_0000 % 16) as u8));
    out.append(hex_text((digest / 0x100_0000 % 16) as u8));
    out.append(hex_text((digest / 0x10_0000 % 16) as u8));
    out.append(hex_text((digest / 0x1_0000 % 16) as u8));
    out.append(hex_text((digest / 0x1000 % 16) as u8));
    out.append(hex_text((digest / 0x100 % 16) as u8));
    out.append(hex_text((digest / 0x10 % 16) as u8));
    out.append(hex_text((digest % 16) as u8));
    assert(out@ =~= hex8(digest));
    out
}

/// Modification time in nanoseconds plus size in bytes: the number the checksum
/// is taken of.
pub open spec fn stamp_key(stamp: FileStamp) -> nat {
    (stamp.modified_secs * 1_000_000_000 + stamp.modified_nanos + stamp.size_bytes) as nat
}

/// The fingerprint of a file: the CRC-32C of its key, the key written as sixteen
/// bytes with the lowest first.
pub open spec fn fingerprint(stamp: FileStamp) -> Seq<char> {
    hex8(crc32c(spec_u128_to_le_bytes(stamp_key(stamp) as u128)))
}

/// Scaled size, in hundredths, and fingerprint of a file.
///
/// The fingerprint depends on size and modification time alone, so a file that
/// was only moved or renamed keeps it.
pub fn get_hash(stamp: &FileStamp) -> (r: (u64, String))
    ensures
        r.0 == scaled_hundredths(stamp.size_bytes as nat),
        r.1@ == fingerprint(*stamp),
{
    let nanos: u128 = stamp.modified_secs as u128 * 1_000_000_000 + stamp.modified_nanos as u128;
    let key: u128 = nanos + stamp.size_bytes as u128;
    let bytes = u128_to_le_bytes(key);
    let digest = castagnoli(&bytes);
    (scaled_size(stamp.size_bytes), hex_digest(digest))
}

/// Two hexadecimal digits that are written alike are the same digit.
pub proof fn lemma_hex_char_injective(d: int, e: int)
    requires
        0 <= d < 16,
        0 <= e < 16,
        hex_char(d) == hex_char(e),
    ensures
        d == e,
{
}

/// A checksum is the sum of its eight hexadecimal digits, each at its place.
proof fn lemma_hex_places(x: u32)
    ensures
        x as int == (x as int / 0x1000_0000 % 16) * 0x1000_0000 + (x as int / 0x100_0000 % 16)
            * 0x100_0000 + (x as int / 0x10_0000 % 16) * 0x10_0000 + (x as int / 0x1_0000 % 16)
            * 0x1_0000 + (x as int / 0x1000 % 16) * 0x1000 + (x as int / 0x100 % 16) * 0x100 + (
        x as int / 0x10 % 16) * 0x10 + x as int % 16,
{
    let v = x as int;
    assert(v / 0x10 == (v / 0x100) * 16 + v / 0x10 % 16);
    assert(v / 0x100 == (v / 0x1000) * 16 + v / 0x100 % 16);
    assert(v / 0x1000 == (v / 0x1_0000) * 16 + v / 0x1000 % 16);
    assert(v / 0x1_0000 == (v / 0x10_0000) * 16 + v / 0x1_0000 % 16);
    assert(v / 0x10_0000 == (v / 0x100_0000) * 16 + v / 0x10_0000 % 16);
    assert(v / 0x100_0000 == (v / 0x1000_0000) * 16 + v / 0x100_0000 % 16);
    assert(v / 0x1000_0000 == v / 0x1000_0000 % 16);
}

/// Two checksums that are written alike are the same checksum: rendering a
/// fingerprint loses nothing.
pub proof fn lemma_hex8_injective(a: u32, b: u32)
    requires
        hex8(a) == hex8(b),
    ensures
        a == b,
{
    let x = hex8(a);
    let y = hex8(b);
    assert(x[0] == y[0] && x[1] == y[1] && x[2] == y[2] && x[3] == y[3]);
    assert(x[4] == y[4] && x[5] == y[5] && x[6] == y[6] && x[7] == y[7]);
    lemma_hex_char_injective(a as int / 0x1000_0000 % 16, b as int / 0x1000_0000 % 16);
    lemma_hex_char_injective(a as int / 0x100_0000 % 16, b as int / 0x100_0000 % 16);
    lemma_hex_char_injective(a as int / 0x10_0000 % 16, b as int / 0x10_0000 % 16);
    lemma_hex_char_injective(a as int / 0x1_0000 % 16, b as int / 0x1_0000 % 16);
    lemma_hex_char_injective(a as int / 0x1000 % 16, b as int / 0x1000 % 16);
    lemma_hex_char_injective(a as int / 0x100 % 16, b as int / 0x100 % 16);
    lemma_hex_char_injective(a as int / 0x10 % 16, b as int / 0x10 % 16);
    lemma_hex_char_injective(a as int % 16, b as int % 16);
    lemma_hex_places(a);
    lemma_hex_places(b);
}

} // verus!

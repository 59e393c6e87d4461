//! Hexadecimal digits and the byte strings they write.
use vstd::prelude::*;

verus! {

/// The value of a hexadecimal digit in either case.
pub open spec fn hex_value(c: char) -> Option<u8> {
    let v = c as u32;
    if 0x30 <= v <= 0x39 {
        Some((v - 0x30) as u8)
    } else if 0x61 <= v <= 0x66 {
        Some((v - 0x61 + 10) as u8)
    } else if 0x41 <= v <= 0x46 {
        Some((v - 0x41 + 10) as u8)
    } else {
        None
    }
}

/// The value of a hexadecimal digit in either case.
pub fn hex_digit(c: char) -> (r: Option<u8>)
    ensures
        r == hex_value(c),
        r matches Some(v) ==> v < 16,
{
    let v: u32 = c as u32;
    if 0x30 <= v && v <= 0x39 {
        Some((v - 0x30) as u8)
    } else if 0x61 <= v && v <= 0x66 {
        Some((v - 0x61 + 10) as u8)
    } else if 0x41 <= v && v <= 0x46 {
        Some((v - 0x41 + 10) as u8)
    } else {
        None
    }
}

/// All of `s` are hexadecimal digits.
pub open spec fn all_hex(s: Seq<char>) -> bool {
    forall|i: int| 0 <= i < s.len() ==> (#[trigger] hex_value(s[i])) is Some
}

/// The bytes that pairs of hexadecimal digits write, the high half first; a
/// digit without a partner is left over.
pub open spec fn hex_bytes(s: Seq<char>) -> Seq<u8> {
    Seq::new(
        s.len() / 2,
        |i: int| (hex_value(s[2 * i])->0 * 16 + hex_value(s[2 * i + 1])->0) as u8,
    )
}

/// The lower-case hexadecimal digit for a value under sixteen.
pub open spec fn hex_char(v: u8) -> char {
    if v < 10 {
        (0x30 + v) as char
    } else {
        (0x61 + (v - 10)) as char
    }
}

/// The lower-case hexadecimal digits of `b`.
pub open spec fn hex_text(b: Seq<u8>) -> Seq<char> {
    Seq::new(
        b.len() * 2,
        |i: int|
            if i % 2 == 0 {
                hex_char(b[i / 2] / 16)
            } else {
                hex_char(b[i / 2] % 16)
            },
    )
}

fn digit_char(v: u8) -> (r: char)
    requires
        v < 16,
    ensures
        r == hex_char(v),
{
    if v < 10 {
        (0x30 + v) as char
    } else {
        (0x61 + (v - 10)) as char
    }
}

/// The lower-case hexadecimal digits of `b`.
pub fn hex(b: &[u8]) -> (r: String)
    ensures
        r@ == hex_text(b@),
{
    let mut r = String::new();
    let mut i: usize = 0;
    while i < b.len()
        invariant
            i <= b@.len(),
            r@ == hex_text(b@.take(i as int)),
        decreases b@.len() - i,
    {
        let x = b[i];
        r.push(digit_char(x / 16));
        r.push(digit_char(x % 16));
        assert(hex_text(b@.take(i + 1)) =~= hex_text(b@.take(i as int)).push(hex_char(x / 16)).push(
            hex_char(x % 16),
        ));
        i += 1;
    }
    assert(b@.take(b@.len() as int) =~= b@);
    r
}

/// The digits of a byte string read back as that byte string.
pub proof fn hex_reads_back(b: Seq<u8>)
    ensures
        all_hex(hex_text(b)),
        hex_bytes(hex_text(b)) == b,
{
    let t = hex_text(b);
    assert forall|i: int| 0 <= i < t.len() implies (#[trigger] hex_value(t[i])) is Some by {}
    assert forall|i: int| 0 <= i < b.len() implies #[trigger] hex_bytes(t)[i] == b[i] by {
        assert(t[2 * i] == hex_char(b[i] / 16));
        assert(t[2 * i + 1] == hex_char(b[i] % 16));
    }
    assert(hex_bytes(t) =~= b);
}

/// The sixteen bytes that 32 hexadecimal digits write.
pub fn hash_from_hex(s: &[char]) -> (r: Option<[u8; 16]>)
    ensures
        match r {
            Some(h) => s@.len() == 32 && all_hex(s@) && h@ == hex_bytes(s@),
            None => s@.len() != 32 || !all_hex(s@),
        },
{
    if s.len() != 32 {
        return None;
    }
    let mut out: [u8; 16] = [0u8; 16];
    let mut i: usize = 0;
    while i < 16
        invariant
            i <= 16,
            s@.len() == 32,
            forall|k: int| 0 <= k < 2 * i ==> (#[trigger] hex_value(s@[k])) is Some,
            forall|k: int| 0 <= k < i ==> #[trigger] out@[k] == hex_bytes(s@)[k],
        decreases 16 - i,
    {
        match (hex_digit(s[2 * i]), hex_digit(s[2 * i + 1])) {
            (Some(a), Some(b)) => {
                out[i] = a * 16 + b;
            },
            _ => {
                assert(hex_value(s@[2 * i]) is None || hex_value(s@[2 * i + 1]) is None);
                return None;
            },
        }
        i += 1;
    }
    assert(out@ =~= hex_bytes(s@));
    Some(out)
}

/// The bytes that pairs of hexadecimal digits write.
pub fn unhex(s: &[char]) -> (r: Option<Vec<u8>>)
    ensures
        match r {
            Some(b) => s@.len() % 2 == 0 && all_hex(s@) && b@ == hex_bytes(s@),
            None => s@.len() % 2 != 0 || !all_hex(s@),
        },
{
    if s.len() % 2 != 0 {
        return None;
    }
    let mut out: Vec<u8> = Vec::new();
    let n = s.len() / 2;
    let mut i: usize = 0;
    while i < n
        invariant
            i <= n,
            n == s@.len() / 2,
            s@.len() % 2 == 0,
            s@.len() == s.len(),
            out@.len() == i,
            forall|k: int| 0 <= k < 2 * i ==> (#[trigger] hex_value(s@[k])) is Some,
            forall|k: int| 0 <= k < i ==> #[trigger] out@[k] == hex_bytes(s@)[k],
        decreases n - i,
    {
        match (hex_digit(s[2 * i]), hex_digit(s[2 * i + 1])) {
            (Some(x), Some(y)) => {
                out.push(x * 16 + y);
            },
            _ => {
                assert(hex_value(s@[2 * i]) is None || hex_value(s@[2 * i + 1]) is None);
                return None;
            },
        }
        i += 1;
    }
    assert(out@ =~= hex_bytes(s@));
    Some(out)
}

} // verus!

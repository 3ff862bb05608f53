//! SHA-256 digests and their hexadecimal text.
use vstd::prelude::*;
use sha2::Digest;
use crate::error::{ErrorCode, RehomeError};
use crate::text::chars_of;

verus! {

/// The SHA-256 digest of `data`.
pub uninterp spec fn sha256(data: Seq<u8>) -> Seq<u8>;

/// Calls `sha2::Sha256::digest` on `data`. The contract claims that the
/// result is the SHA-256 digest of `data` (named `sha256`) and that it is 32
/// bytes long, the output size of SHA-256.
#[verifier::external_body]
pub(crate) fn sha256_digest(data: &[u8]) -> (r: Vec<u8>)
    ensures
        r@ == sha256(data@),
        r@.len() == 32,
{
    sha2::Sha256::digest(data).to_vec()
}

/// The lower-case hexadecimal digit for `n` (below 16).
pub open spec fn hex_digit(n: u8) -> char {
    if n < 10 {
        ((n as u32) + 48) as char
    } else {
        ((n as u32) + 87) as char
    }
}

/// The lower-case hexadecimal text of `bytes`, two digits per byte.
pub open spec fn hex_lower(bytes: Seq<u8>) -> Seq<char>
    decreases bytes.len(),
{
    if bytes.len() == 0 {
        Seq::empty()
    } else {
        hex_lower(bytes.drop_last()) + seq![
            hex_digit(bytes.last() / 16),
            hex_digit(bytes.last() % 16),
        ]
    }
}

/// The hexadecimal text of a digest: two characters per byte, high digit
/// first, each from `0123456789abcdef`.
pub proof fn law_hex_text_spells_bytes(bytes: Seq<u8>)
    ensures
        hex_lower(bytes).len() == 2 * bytes.len(),
        forall|k: int|
            0 <= k < bytes.len() ==> hex_lower(bytes)[2 * k] == "0123456789abcdef"@[(#[trigger] bytes[k]
                / 16) as int] && hex_lower(bytes)[2 * k + 1] == "0123456789abcdef"@[(bytes[k]
                % 16) as int],
    decreases bytes.len(),
{
    reveal_strlit("0123456789abcdef");
    if bytes.len() > 0 {
        let t = bytes.drop_last();
        law_hex_text_spells_bytes(t);
        assert forall|k: int| 0 <= k < bytes.len() implies hex_lower(bytes)[2 * k]
            == "0123456789abcdef"@[(#[trigger] bytes[k] / 16) as int] && hex_lower(bytes)[2 * k + 1]
            == "0123456789abcdef"@[(bytes[k] % 16) as int] by {
            let n = bytes.last();
            assert(n / 16 < 16 && n % 16 < 16);
            if k < t.len() {
                assert(bytes[k] == t[k]);
                assert(hex_lower(bytes)[2 * k] == hex_lower(t)[2 * k]);
                assert(hex_lower(bytes)[2 * k + 1] == hex_lower(t)[2 * k + 1]);
            } else {
                let hi = n / 16;
                let lo = n % 16;
                assert(hex_lower(bytes)[2 * k] == hex_digit(hi));
                assert(hex_lower(bytes)[2 * k + 1] == hex_digit(lo));
                assert(hex_digit(hi) == "0123456789abcdef"@[hi as int]);
                assert(hex_digit(lo) == "0123456789abcdef"@[lo as int]);
            }
        }
    }
}

/// The value of an ASCII hexadecimal digit, either case.
pub open spec fn nibble_value(c: u32) -> Option<u8> {
    if 48 <= c <= 57 {
        Some((c - 48) as u8)
    } else if 97 <= c <= 102 {
        Some((c - 87) as u8)
    } else if 65 <= c <= 70 {
        Some((c - 55) as u8)
    } else {
        None
    }
}

/// `v` is the text of a SHA-256 digest: 64 hexadecimal digits.
pub open spec fn is_sha256_text(v: Seq<char>) -> bool {
    v.len() == 64 && forall|i: int| 0 <= i < 64 ==> (nibble_value(#[trigger] v[i] as u32) is Some)
}

/// The 32 bytes spelled by the 64 hexadecimal digits `v`.
pub open spec fn decoded_sha256(v: Seq<char>) -> Seq<u8> {
    Seq::new(
        32,
        |i: int|
            (nibble_value(v[2 * i] as u32)->0 * 16 + nibble_value(v[2 * i + 1] as u32)->0) as u8,
    )
}

/// The value of the hexadecimal digit `value`, if it is one.
pub fn hex_nibble(value: u8) -> (r: Option<u8>)
    ensures
        r == nibble_value(value as u32),
{
    if 48 <= value && value <= 57 {
        Some(value - 48)
    } else if 97 <= value && value <= 102 {
        Some(value - 87)
    } else if 65 <= value && value <= 70 {
        Some(value - 55)
    } else {
        None
    }
}

fn char_nibble(c: char) -> (r: Option<u8>)
    ensures
        r == nibble_value(c as u32),
{
    let x = c as u32;
    if 48 <= x && x <= 57 {
        Some((x - 48) as u8)
    } else if 97 <= x && x <= 102 {
        Some((x - 87) as u8)
    } else if 65 <= x && x <= 70 {
        Some((x - 55) as u8)
    } else {
        None
    }
}

/// The 32 digest bytes spelled by `value`, or an error when `value` is not
/// 64 hexadecimal digits.
pub fn decode_sha256(value: &str) -> (r: Result<Vec<u8>, RehomeError>)
    ensures
        match r {
            Ok(d) => is_sha256_text(value@) && d@ == decoded_sha256(value@),
            Err(e) => !is_sha256_text(value@) && e.code == ErrorCode::PackageInvalid
                && e.message@ == "Skill payload hash is not SHA-256"@,
        },
{
    let v = chars_of(value);
    if v.len() != 64 {
        return Err(RehomeError::new(ErrorCode::PackageInvalid, "Skill payload hash is not SHA-256"));
    }
    let mut out: Vec<u8> = Vec::new();
    let mut i: usize = 0;
    while i < 32
        invariant
            v@ == value@,
            v@.len() == 64,
            i <= 32,
            forall|k: int| 0 <= k < 2 * i ==> (nibble_value(#[trigger] v@[k] as u32) is Some),
            out@.len() == i,
            forall|k: int| 0 <= k < i ==> #[trigger] out@[k] == decoded_sha256(v@)[k],
        decreases 32 - i,
    {
        let high = char_nibble(v[2 * i]);
        let low = char_nibble(v[2 * i + 1]);
        match (high, low) {
            (Some(h), Some(l)) => {
                out.push(h * 16 + l);
            },
            _ => {
                return Err(
                    RehomeError::new(ErrorCode::PackageInvalid, "Skill payload hash is not SHA-256"),
                );
            },
        }
        i = i + 1;
    }
    assert(out@ =~= decoded_sha256(v@));
    Ok(out)
}

pub(crate) fn hex_digit_text(n: u8) -> (r: &'static str)
    requires
        n < 16,
    ensures
        r@ == seq![hex_digit(n)],
{
    proof {
        reveal_strlit("0");
        reveal_strlit("1");
        reveal_strlit("2");
        reveal_strlit("3");
        reveal_strlit("4");
        reveal_strlit("5");
        reveal_strlit("6");
        reveal_strlit("7");
        reveal_strlit("8");
        reveal_strlit("9");
        reveal_strlit("a");
        reveal_strlit("b");
        reveal_strlit("c");
        reveal_strlit("d");
        reveal_strlit("e");
        reveal_strlit("f");
    }
    match n {
        0 => "0",
        1 => "1",
        2 => "2",
        3 => "3",
        4 => "4",
        5 => "5",
        6 => "6",
        7 => "7",
        8 => "8",
        9 => "9",
        10 => "a",
        11 => "b",
        12 => "c",
        13 => "d",
        14 => "e",
        _ => "f",
    }
}

/// The lower-case hexadecimal text of `bytes`.
pub fn to_hex_lower(bytes: &[u8]) -> (r: String)
    ensures
        r@ == hex_lower(bytes@),
{
    let mut out = String::new();
    let n = bytes.len();
    let mut i: usize = 0;
    while i < n
        invariant
            n == bytes@.len(),
            i <= n,
            out@ == hex_lower(bytes@.subrange(0, i as int)),
        decreases n - i,
    {
        let b = bytes[i];
        out.append(hex_digit_text(b / 16));
        out.append(hex_digit_text(b % 16));
        assert(bytes@.subrange(0, i + 1).drop_last() =~= bytes@.subrange(0, i as int));
        i = i + 1;
    }
    assert(bytes@.subrange(0, n as int) =~= bytes@);
    out
}

/// The lower-case hexadecimal SHA-256 digest of `data`.
pub fn sha256_hex(data: &[u8]) -> (r: String)
    ensures
        r@ == hex_lower(sha256(data@)),
{
    let digest = sha256_digest(data);
    to_hex_lower(digest.as_slice())
}

/// The decimal text of `n`, without leading zeros.
pub open spec fn decimal(n: nat) -> Seq<char>
    decreases n,
{
    if n < 10 {
        seq![hex_digit(n as u8)]
    } else {
        decimal(n / 10).push(hex_digit((n % 10) as u8))
    }
}

/// The decimal text of `n`.
pub fn decimal_text(n: u64) -> (r: String)
    ensures
        r@ == decimal(n as nat),
    decreases n,
{
    if n < 10 {
        String::from_str(hex_digit_text(n as u8))
    } else {
        let mut text = decimal_text(n / 10);
        text.append(hex_digit_text((n % 10) as u8));
        text
    }
}

} // verus!

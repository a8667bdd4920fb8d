use vstd::prelude::*;
use vstd::string::StringSliceAdditionalSpecFns;
use rand::TryRngCore;
use totp_rs::{Algorithm, TOTP};

verus! {

/// The settings of a time-based one-time password with the SHA-1
/// algorithm: the number of digits of a code, the number of steps before
/// and after the current one whose codes are accepted too, the length of
/// a step in seconds, and the shared secret.
#[derive(Debug, Clone, PartialEq)]
pub struct TotpSettings {
    pub digits: usize,
    pub skew: u8,
    pub step: u64,
    pub secret: Vec<u8>,
}

/// The lowercase character of a hexadecimal digit.
pub open spec fn hex_char(d: int) -> char {
    if d < 10 { (d + 48) as char } else { (d + 87) as char }
}

/// The lowercase hexadecimal writing of bytes, two characters per byte.
pub open spec fn hex_encoding(bytes: Seq<u8>) -> Seq<char>
    decreases bytes.len(),
{
    if bytes.len() == 0 {
        Seq::empty()
    } else {
        hex_encoding(bytes.drop_last()) + seq![hex_char((bytes.last() / 16) as int), hex_char((bytes.last() % 16) as int)]
    }
}

/// The value of a hexadecimal digit, in either case.
pub open spec fn hex_value(c: u8) -> Option<int> {
    if 48 <= c <= 57 {
        Some(c - 48)
    } else if 97 <= c <= 102 {
        Some(c - 87)
    } else if 65 <= c <= 70 {
        Some(c - 55)
    } else {
        None
    }
}

/// The bytes are an even number of hexadecimal digits.
pub open spec fn hex_valid(bytes: Seq<u8>) -> bool {
    bytes.len() % 2 == 0 && forall|i: int| 0 <= i < bytes.len() ==> (#[trigger] hex_value(bytes[i])) is Some
}

/// The bytes that pairs of hexadecimal digits write.
pub open spec fn hex_decoding(bytes: Seq<u8>) -> Seq<u8> {
    Seq::new(bytes.len() / 2, |i: int| (hex_value(bytes[2 * i])->Some_0 * 16 + hex_value(bytes[2 * i + 1])->Some_0) as u8)
}

/// The bytes of a text of ASCII characters, one per character.
pub open spec fn ascii_bytes(s: Seq<char>) -> Seq<u8> {
    Seq::new(s.len(), |i: int| s[i] as u8)
}

proof fn lemma_hex_char(d: int)
    requires
        0 <= d < 16,
    ensures
        '\0' <= hex_char(d) <= '\u{7f}',
        hex_value(hex_char(d) as u8) == Some(d),
{
}

proof fn lemma_hex_round_trip(b: Seq<u8>)
    ensures
        hex_encoding(b).len() == 2 * b.len(),
        vstd::utf8::is_ascii_chars(hex_encoding(b)),
        hex_valid(ascii_bytes(hex_encoding(b))),
        hex_decoding(ascii_bytes(hex_encoding(b))) == b,
    decreases b.len(),
{
    let e = hex_encoding(b);
    if b.len() == 0 {
        assert(hex_decoding(ascii_bytes(e)) =~= b);
    } else {
        let p = b.drop_last();
        let x = b.last();
        lemma_hex_round_trip(p);
        let pe = hex_encoding(p);
        let hi = (x / 16) as int;
        let lo = (x % 16) as int;
        lemma_hex_char(hi);
        lemma_hex_char(lo);
        assert(e == pe + seq![hex_char(hi), hex_char(lo)]);
        assert(vstd::utf8::is_ascii_chars(e)) by {
            assert forall|i: int| 0 <= i < e.len() implies '\0' <= #[trigger] e[i] <= '\u{7f}' by {
                if i < pe.len() {
                    assert(e[i] == pe[i]);
                }
            }
        }
        let eb = ascii_bytes(e);
        let pb = ascii_bytes(pe);
        assert(hex_valid(eb)) by {
            assert forall|i: int| 0 <= i < eb.len() implies (#[trigger] hex_value(eb[i])) is Some by {
                if i < pb.len() {
                    assert(eb[i] == pb[i]);
                }
            }
        }
        assert(hex_decoding(eb) =~= b) by {
            assert forall|i: int| 0 <= i < b.len() implies #[trigger] hex_decoding(eb)[i] == b[i] by {
                if i < p.len() {
                    assert(eb[2 * i] == pb[2 * i]);
                    assert(eb[2 * i + 1] == pb[2 * i + 1]);
                    assert(hex_decoding(pb)[i] == p[i]);
                } else {
                    assert(eb[2 * i] == hex_char(hi) as u8);
                    assert(eb[2 * i + 1] == hex_char(lo) as u8);
                    assert(hi * 16 + lo == x);
                }
            }
        }
    }
}

/// A token written in hexadecimal reads back as the same bytes: the text
/// that [`hex_encode`] gives for a token, sent back as a header, is what
/// [`hex_decode`] turns into that token again.
pub proof fn law_hex_round_trip(token: Seq<u8>, text: &str)
    requires
        text@ == hex_encoding(token),
    ensures
        hex_valid(text.spec_bytes()),
        hex_decoding(text.spec_bytes()) == token,
{
    lemma_hex_round_trip(token);
    vstd::string::is_ascii_spec_bytes(text);
    assert(text.spec_bytes() =~= ascii_bytes(text@));
}

/// `hex::encode` writes bytes as lowercase hexadecimal digits.
#[verifier::external_body]
pub(crate) fn hex_encode(data: &Vec<u8>) -> (r: String)
    ensures
        r@ == hex_encoding(data@),
{
    hex::encode(data)
}

/// `hex::decode` reads an even number of hexadecimal digits, in either
/// case, as bytes; it fails on any other text.
#[verifier::external_body]
pub(crate) fn hex_decode(text: &str) -> (r: Option<Vec<u8>>)
    ensures
        r is Some <==> hex_valid(text.spec_bytes()),
        r matches Some(v) ==> v@ == hex_decoding(text.spec_bytes()),
{
    hex::decode(text).ok()
}

/// Whether a password matches a bcrypt hash, as `pwhash::bcrypt::verify`
/// decides from these two texts alone (the hash holds its salt and cost).
pub uninterp spec fn bcrypt_verifies(password: Seq<char>, hash: Seq<char>) -> bool;

/// Every character of the text is an ASCII character from the space
/// character on (codes 32 to 127).
pub open spec fn printable(s: Seq<char>) -> bool {
    forall|i: int| 0 <= i < s.len() ==> 32 <= (#[trigger] s[i]) as u32 && (s[i] as u32) < 128
}

/// `pwhash::bcrypt::verify`: whether the password matches the bcrypt hash.
/// Its decoding of the salt subtracts 32 from each character's code and
/// looks the result up in a table of 96 entries, so the hash must hold
/// ASCII characters from the space character on only.
#[verifier::external_body]
pub(crate) fn bcrypt_verify(password: &str, hash: &str) -> (r: bool)
    requires
        printable(hash@),
    ensures
        r == bcrypt_verifies(password@, hash@),
{
    pwhash::bcrypt::verify(password, hash)
}

/// `pwhash::bcrypt::hash`: a bcrypt hash of the password, with the
/// default cost, the `2b` variant and a random salt, `None` when the crate
/// answers an error. The hash is written with ASCII characters from the
/// space character on, and `pwhash::bcrypt::verify` recomputes it from its
/// own salt, cost and variant, so the password matches it. The salt comes
/// from the operating system's random numbers, which the crate takes
/// without checking for a failure, so nothing is said of the text beyond
/// this.
#[verifier::external_body]
pub(crate) fn bcrypt_hash(password: &str) -> (r: Option<String>)
    ensures
        r matches Some(h) ==> printable(h@) && bcrypt_verifies(password@, h@),
{
    pwhash::bcrypt::hash(password).ok()
}

/// `rand::rngs::OsRng::try_next_u32`: a random number from the operating
/// system, `None` when it cannot give one. Nothing is promised of the number.
#[verifier::external_body]
pub(crate) fn os_random_u32() -> Option<u32> {
    rand::rngs::OsRng.try_next_u32().ok()
}

/// `rand::rngs::OsRng::try_fill_bytes`: `n` random bytes from the operating
/// system, `None` when it cannot give them. Nothing is promised of the bytes.
#[verifier::external_body]
pub(crate) fn os_random_bytes(n: usize) -> (r: Option<Vec<u8>>)
    ensures
        r matches Some(v) ==> v@.len() == n,
{
    let mut v = vec![0u8; n];
    rand::rngs::OsRng.try_fill_bytes(&mut v).ok().map(|_| v)
}

/// `totp_rs::TOTP::new` with the SHA-1 algorithm: whether it accepts the
/// settings, which it does exactly when a code has 6 to 8 digits and the
/// secret at least 16 bytes.
#[verifier::external_body]
pub(crate) fn totp_accepts_settings(s: &TotpSettings) -> (r: bool)
    ensures
        r == (6 <= s.digits <= 8 && s.secret@.len() >= 16),
{
    TOTP::new(Algorithm::SHA1, s.digits, s.skew, s.step, s.secret.clone()).is_ok()
}

/// Whether `code` is a valid code, at `time` seconds since 1970, of a
/// TOTP with the SHA-1 algorithm, `digits` digits, the skew `skew`, steps
/// of `step` seconds and the secret `secret`, as `totp_rs::TOTP::check`
/// decides from these values alone.
pub uninterp spec fn totp_checks(digits: usize, skew: u8, step: u64, secret: Seq<u8>, code: Seq<char>, time: u64) -> bool;

/// `totp_rs::TOTP::check`: whether the code is valid at the given time for
/// the TOTP of the settings, built field for field. It divides the time by
/// the step, subtracts the skew from the quotient and multiplies the steps
/// it tries back by the step, and a code has at most 9 digits, so these
/// must not fail.
#[verifier::external_body]
pub(crate) fn totp_check(s: &TotpSettings, code: &str, time: u64) -> (r: bool)
    requires
        s.step > 0,
        s.digits <= 9,
        time / s.step >= s.skew,
        (time / s.step + s.skew) * s.step <= u64::MAX,
    ensures
        r == totp_checks(s.digits, s.skew, s.step, s.secret@, code@, time),
{
    TOTP::new_unchecked(Algorithm::SHA1, s.digits, s.skew, s.step, s.secret.clone()).check(code, time)
}

/// A power of ten.
pub open spec fn pow10(n: nat) -> nat
    decreases n,
{
    if n == 0 { 1 } else { 10 * pow10((n - 1) as nat) }
}

/// Generates a random token of the given length in bytes; `None` when the
/// system cannot give random bytes.
pub fn random_token(bytes: usize) -> (r: Option<Vec<u8>>)
    ensures
        r matches Some(v) ==> v@.len() == bytes,
{
    os_random_bytes(bytes)
}

/// Generates a random integer code of the given number of digits, at
/// most 9; `None` when the system cannot give a random number.
pub fn random_code(digits: u32) -> (r: Option<u32>)
    requires
        digits <= 9,
    ensures
        r matches Some(c) ==> c < pow10(digits as nat),
{
    match os_random_u32() {
        Some(x) => Some(code_of_random(x, digits)),
        None => None,
    }
}

/// The code of `digits` digits that a random number gives: its remainder
/// by ten to the power `digits`.
pub fn code_of_random(x: u32, digits: u32) -> (r: u32)
    requires
        digits <= 9,
    ensures
        r == (x as int) % (pow10(digits as nat) as int),
        r < pow10(digits as nat),
{
    let mut modulus: u32 = 1;
    let mut i: u32 = 0;
    while i < digits
        invariant
            i <= digits <= 9,
            modulus == pow10(i as nat),
            1 <= modulus <= 1_000_000_000,
        decreases digits - i,
    {
        assert(pow10(i as nat) <= 100_000_000) by {
            lemma_pow10_bound(i as nat);
        }
        modulus = modulus * 10;
        i = i + 1;
    }
    x % modulus
}

proof fn lemma_pow10_bound(n: nat)
    requires
        n <= 8,
    ensures
        pow10(n) <= 100_000_000,
    decreases n,
{
    reveal_with_fuel(pow10, 9);
}

} // verus!

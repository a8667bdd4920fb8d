use vstd::prelude::*;
use vstd::string::{StringExecFns, StrSliceExecFns};
use crate::utils::crypto::{hex_decode, hex_valid, hex_decoding};
use crate::utils::utils::{decimal, decimal_digits, digit_char};
use vstd::string::StringSliceAdditionalSpecFns;

verus! {

/// The user id and auth token a request carries, when it carries them.
#[derive(Debug, Clone, PartialEq)]
pub struct UserAuthInfo {
    pub user_id: Option<i32>,
    pub auth_token: Option<Vec<u8>>,
}

/// The device a request comes from: a description of it and its IP address.
#[derive(Debug, Clone, PartialEq)]
pub struct DeviceInfo {
    pub device_string: String,
    pub ip_address: Option<String>,
}

/// What a user agent tells of the device.
#[derive(Debug, Clone, PartialEq)]
pub struct DeviceDescription {
    pub brand: Option<String>,
    pub name: Option<String>,
    pub model: Option<String>,
}

/// What a user agent tells of the operating system.
#[derive(Debug, Clone, PartialEq)]
pub struct OsDescription {
    pub name: Option<String>,
    pub major: Option<String>,
    pub minor: Option<String>,
    pub patch: Option<String>,
    pub patch_minor: Option<String>,
}

/// What a user agent tells of the browser engine.
#[derive(Debug, Clone, PartialEq)]
pub struct EngineDescription {
    pub name: Option<String>,
    pub major: Option<String>,
    pub minor: Option<String>,
    pub patch: Option<String>,
}

/// The text of an optional part, after a prefix: empty without the part.
pub open spec fn part(prefix: Seq<char>, x: Option<String>) -> Seq<char> {
    match x {
        Some(s) => prefix + s@,
        None => Seq::empty(),
    }
}

/// The device's brand, then its name or else its model, each followed by a space.
pub open spec fn device_part(d: DeviceDescription) -> Seq<char> {
    part(Seq::empty(), d.brand) + (if d.brand is Some { seq![' '] } else { Seq::empty() })
        + match d.name {
            Some(n) => n@ + seq![' '],
            None => match d.model {
                Some(m) => m@ + seq![' '],
                None => Seq::empty(),
            },
        }
}

/// The system's name and version in brackets, followed by a space.
pub open spec fn os_part(o: OsDescription) -> Seq<char> {
    match o.name {
        Some(n) => seq!['('] + n@ + match o.major {
            Some(major) => seq![' '] + major@ + match o.minor {
                Some(minor) => seq!['.'] + minor@ + match o.patch {
                    Some(patch) => seq!['.'] + patch@ + part(seq!['.'], o.patch_minor),
                    None => Seq::empty(),
                },
                None => Seq::empty(),
            },
            None => Seq::empty(),
        } + seq![')', ' '],
        None => Seq::empty(),
    }
}

/// The engine's name and version.
pub open spec fn engine_part(e: EngineDescription) -> Seq<char> {
    match e.name {
        Some(n) => n@ + match e.major {
            Some(major) => seq![' '] + major@ + match e.minor {
                Some(minor) => seq!['.'] + minor@ + part(seq!['.'], e.patch),
                None => Seq::empty(),
            },
            None => Seq::empty(),
        },
        None => Seq::empty(),
    }
}

/// The description of a device: its brand, its name (or else its model),
/// its system with version in brackets, and its engine with version;
/// "Unknown" when the user agent tells none of them.
pub open spec fn device_text(d: DeviceDescription, o: OsDescription, e: EngineDescription) -> Seq<char> {
    let all = device_part(d) + os_part(o) + engine_part(e);
    if all.len() == 0 { "Unknown"@ } else { all }
}

/// Appends an optional part after a prefix; says whether the part was there.
fn push_part(s: &mut String, prefix: &str, x: &Option<String>) -> (r: bool)
    ensures
        final(s)@ == old(s)@ + match x {
            Some(v) => prefix@ + v@,
            None => Seq::empty(),
        },
        r == x is Some,
{
    match x {
        Some(v) => {
            s.append(prefix);
            s.append(v.as_str());
            true
        },
        None => {
            assert(s@ + Seq::<char>::empty() =~= s@);
            false
        },
    }
}

fn push_device(s: &mut String, d: &DeviceDescription)
    ensures
        final(s)@ == old(s)@ + device_part(*d),
{
    proof {
        reveal_strlit(" ");
    }
    let ghost s0 = s@;
    if let Some(brand) = &d.brand {
        s.append(brand.as_str());
        s.append(" ");
    }
    let ghost s1 = s@;
    if let Some(name) = &d.name {
        s.append(name.as_str());
        s.append(" ");
    } else if let Some(model) = &d.model {
        s.append(model.as_str());
        s.append(" ");
    }
    assert(s1 =~= s0 + part(Seq::empty(), d.brand) + (if d.brand is Some { seq![' '] } else { Seq::empty() }));
    assert(s@ =~= s0 + device_part(*d));
}

fn push_os(s: &mut String, o: &OsDescription)
    ensures
        final(s)@ == old(s)@ + os_part(*o),
{
    proof {
        reveal_strlit(" ");
        reveal_strlit("(");
        reveal_strlit(".");
        reveal_strlit(") ");
    }
    let ghost s0 = s@;
    if let Some(name) = &o.name {
        s.append("(");
        s.append(name.as_str());
        let ghost s1 = s@;
        if push_part(s, " ", &o.major) {
            let ghost s2 = s@;
            if push_part(s, ".", &o.minor) {
                let ghost s3 = s@;
                if push_part(s, ".", &o.patch) {
                    push_part(s, ".", &o.patch_minor);
                }
                assert(s@ =~= s3 + match o.patch {
                    Some(patch) => seq!['.'] + patch@ + part(seq!['.'], o.patch_minor),
                    None => Seq::empty(),
                });
            }
        }
        s.append(") ");
    }
    assert(s@ =~= s0 + os_part(*o));
}

fn push_engine(s: &mut String, e: &EngineDescription)
    ensures
        final(s)@ == old(s)@ + engine_part(*e),
{
    proof {
        reveal_strlit(" ");
        reveal_strlit(".");
    }
    let ghost s0 = s@;
    if let Some(name) = &e.name {
        s.append(name.as_str());
        if push_part(s, " ", &e.major) {
            if push_part(s, ".", &e.minor) {
                push_part(s, ".", &e.patch);
            }
        }
    }
    assert(s@ =~= s0 + engine_part(*e));
}

/// Helper function to create a device string from the device, os and engine information.
pub fn device_str(device: &DeviceDescription, os: &OsDescription, engine: &EngineDescription) -> (r: String)
    ensures
        r@ == device_text(*device, *os, *engine),
{
    let mut s = String::new();
    push_device(&mut s, device);
    push_os(&mut s, os);
    push_engine(&mut s, engine);
    assert(s@ =~= device_part(*device) + os_part(*os) + engine_part(*engine));
    if s.unicode_len() == 0 {
        s = String::from_str("Unknown");
    }
    s
}

/// The first position of the character in the text, when it occurs.
pub open spec fn first_index(s: Seq<char>, c: char) -> int {
    choose|i: int| 0 <= i < s.len() && s[i] == c && forall|j: int| 0 <= j < i ==> s[j] != c
}

/// The number of occurrences of the character in the text.
pub open spec fn count_char(s: Seq<char>, c: char) -> nat
    decreases s.len(),
{
    if s.len() == 0 {
        0
    } else {
        count_char(s.drop_last(), c) + if s.last() == c { 1nat } else { 0nat }
    }
}

/// An IP address without its port: the text before the first colon. When
/// the text has more than one colon, it is taken for an IPv6 address
/// instead: the text between the opening bracket and the first closing
/// one when it is bracketed, else the text as it is.
pub open spec fn without_port(ip: Seq<char>) -> Seq<char> {
    if !ip.contains(':') {
        ip
    } else if count_char(ip, ':') > 1 {
        if ip.len() > 0 && ip[0] == '[' && ip.contains(']') {
            ip.subrange(1, first_index(ip, ']'))
        } else {
            ip
        }
    } else {
        ip.subrange(0, first_index(ip, ':'))
    }
}

/// The first position of a character in a text.
pub fn find_char(s: &str, c: char) -> (r: Option<usize>)
    ensures
        r is None <==> !s@.contains(c),
        r matches Some(i) ==> i < s@.len() && i == first_index(s@, c) && s@[i as int] == c,
{
    let n = s.unicode_len();
    let mut i: usize = 0;
    while i < n
        invariant
            n == s@.len(),
            i <= n,
            forall|j: int| 0 <= j < i ==> s@[j] != c,
        decreases n - i,
    {
        if s.get_char(i) == c {
            proof {
                let k = first_index(s@, c);
                assert(s@[i as int] == c && forall|j: int| 0 <= j < i ==> s@[j] != c);
                if k < i {
                    assert(s@[k] != c);
                }
                if k > i {
                    assert(s@[i as int] != c);
                }
            }
            return Some(i);
        }
        i = i + 1;
    }
    None
}

fn count_in(s: &str, c: char) -> (r: usize)
    ensures
        r == count_char(s@, c),
{
    let n = s.unicode_len();
    let mut count: usize = 0;
    let mut i: usize = 0;
    while i < n
        invariant
            n == s@.len(),
            i <= n,
            count == count_char(s@.subrange(0, i as int), c),
            count <= i,
        decreases n - i,
    {
        assert(s@.subrange(0, i + 1).drop_last() =~= s@.subrange(0, i as int));
        if s.get_char(i) == c {
            count = count + 1;
        }
        i = i + 1;
    }
    assert(s@.subrange(0, n as int) =~= s@);
    count
}

/// Removes the port from an IP address, as [`without_port`] says.
pub fn strip_port(ip: String) -> (r: String)
    ensures
        r@ == without_port(ip@),
{
    let colon = find_char(ip.as_str(), ':');
    match colon {
        None => ip,
        Some(c) => {
            if count_in(ip.as_str(), ':') > 1 {
                let n = ip.as_str().unicode_len();
                if n > 0 && ip.as_str().get_char(0) == '[' {
                    match find_char(ip.as_str(), ']') {
                        Some(j) => {
                            assert(j != 0);
                            String::from_str(ip.as_str().substring_char(1, j))
                        },
                        None => ip,
                    }
                } else {
                    ip
                }
            } else {
                String::from_str(ip.as_str().substring_char(0, c))
            }
        },
    }
}

impl DeviceInfo {
    /// The device of a request, from what its user agent tells and the
    /// address it comes from, without port.
    pub fn from_request(device: &DeviceDescription, os: &OsDescription, engine: &EngineDescription, ip_address: Option<String>) -> (r: DeviceInfo)
        ensures
            r.device_string@ == device_text(*device, *os, *engine),
            match ip_address {
                Some(ip) => r.ip_address matches Some(x) && x@ == without_port(ip@),
                None => r.ip_address is None,
            },
    {
        let device_string = device_str(device, os, engine);
        let ip_address = match ip_address {
            Some(ip) => Some(strip_port(ip)),
            None => None,
        };
        DeviceInfo { device_string, ip_address }
    }
}

/// The character is a decimal digit.
pub open spec fn is_digit(c: char) -> bool {
    '0' <= c <= '9'
}

/// The value of a text of decimal digits.
pub open spec fn digits_value(s: Seq<char>) -> int
    decreases s.len(),
{
    if s.len() == 0 {
        0
    } else {
        digits_value(s.drop_last()) * 10 + (s.last() as int - '0' as int)
    }
}

/// The text after an optional leading plus sign.
pub open spec fn unsigned_digits(s: Seq<char>) -> Seq<char> {
    if s.len() > 0 && s[0] == '+' {
        s.subrange(1, s.len() as int)
    } else {
        s
    }
}

/// Every character of the text is a decimal digit.
pub open spec fn all_digits(d: Seq<char>) -> bool {
    forall|i: int| 0 <= i < d.len() ==> is_digit(#[trigger] d[i])
}

/// The number an unsigned decimal text writes, as Rust reads unsigned
/// integers: an optional plus sign, then at least one decimal digit.
pub open spec fn decimal_text(s: Seq<char>) -> Option<int> {
    let d = unsigned_digits(s);
    if d.len() > 0 && all_digits(d) {
        Some(digits_value(d))
    } else {
        None
    }
}

proof fn lemma_digits_value_nonneg(s: Seq<char>)
    requires
        forall|i: int| 0 <= i < s.len() ==> is_digit(#[trigger] s[i]),
    ensures
        digits_value(s) >= 0,
    decreases s.len(),
{
    if s.len() > 0 {
        lemma_digits_value_nonneg(s.drop_last());
    }
}

proof fn lemma_digits_value_grows(s: Seq<char>, k: int)
    requires
        0 <= k <= s.len(),
        forall|i: int| 0 <= i < s.len() ==> is_digit(#[trigger] s[i]),
    ensures
        digits_value(s.subrange(0, k)) <= digits_value(s),
    decreases s.len(),
{
    if k < s.len() {
        assert(s.drop_last().subrange(0, k) =~= s.subrange(0, k));
        lemma_digits_value_grows(s.drop_last(), k);
        lemma_digits_value_nonneg(s.drop_last());
    } else {
        assert(s.subrange(0, k) =~= s);
    }
}

proof fn lemma_decimal_digits(n: nat)
    ensures
        decimal_digits(n).len() > 0,
        all_digits(decimal_digits(n)),
        digits_value(decimal_digits(n)) == n,
    decreases n,
{
    let s = decimal_digits(n);
    if n >= 10 {
        lemma_decimal_digits(n / 10);
        let p = decimal_digits(n / 10);
        assert(s.drop_last() =~= p);
        assert forall|i: int| 0 <= i < s.len() implies is_digit(#[trigger] s[i]) by {
            if i < p.len() {
                assert(s[i] == p[i]);
            }
        }
        let d = n % 10;
        assert(digit_char(d) as int - '0' as int == d);
        assert(s.last() == digit_char(d));
        assert(digits_value(s) == digits_value(p) * 10 + (s.last() as int - '0' as int));
        assert((n / 10) * 10 + n % 10 == n);
    } else {
        assert(digit_char(n) as int - '0' as int == n);
        assert(s.drop_last().len() == 0);
        assert(digits_value(s.drop_last()) == 0);
        assert(digits_value(s) == digits_value(s.drop_last()) * 10 + (s.last() as int - '0' as int));
    }
}

/// An unsigned number reads back from its decimal writing: what
/// [`parse_decimal`] and [`get_id_from_headers`] read of a number written
/// with `to_string` is that number.
pub proof fn law_decimal_round_trip(n: nat)
    ensures
        decimal_text(decimal(n as int)) == Some(n as int),
{
    lemma_decimal_digits(n);
    let s = decimal_digits(n);
    assert(is_digit(s[0]));
    assert(unsigned_digits(s) == s);
}

/// Reads an unsigned decimal number no greater than `max`, as Rust's
/// `parse` reads an unsigned integer type whose largest value is `max`.
pub fn parse_decimal(s: &str, max: u64) -> (r: Option<u64>)
    ensures
        r == match decimal_text(s@) {
            Some(v) => if v <= max { Some(v as u64) } else { None },
            None => None,
        },
        r matches Some(x) ==> decimal_text(s@) == Some(x as int),
{
    let n = s.unicode_len();
    let start: usize = if n > 0 && s.get_char(0) == '+' { 1 } else { 0 };
    let ghost d = unsigned_digits(s@);
    assert(d =~= s@.subrange(start as int, n as int));
    if start >= n {
        assert(d.len() == 0);
        return None;
    }
    let mut value: u64 = 0;
    let mut i: usize = start;
    while i < n
        invariant
            n == s@.len(),
            start <= i <= n,
            d == s@.subrange(start as int, n as int),
            d == unsigned_digits(s@),
            forall|j: int| 0 <= j < i - start ==> is_digit(#[trigger] d[j]),
            value == digits_value(d.subrange(0, i - start)),
            value <= max,
        decreases n - i,
    {
        let c = s.get_char(i);
        if !('0' <= c && c <= '9') {
            assert(!is_digit(d[i - start]));
            return None;
        }
        let digit = (c as u32 - '0' as u32) as u64;
        assert(d.subrange(0, i + 1 - start).drop_last() =~= d.subrange(0, i - start));
        assert(d.subrange(0, i + 1 - start).last() == c);
        if digit > max || value > (max - digit) / 10 {
            proof {
                assert(value * 10 + digit > max) by (nonlinear_arith)
                    requires digit > max || value > (max - digit) / 10, value >= 0, digit >= 0, max >= 0;
                let k = i + 1 - start;
                if all_digits(d) {
                    lemma_digits_value_grows(d, k);
                }
            }
            return None;
        }
        proof {
            assert(value * 10 + digit <= max) by (nonlinear_arith)
                requires value <= (max - digit) / 10, digit <= 9, max >= 0;
        }
        value = value * 10 + digit;
        i = i + 1;
    }
    assert(d.subrange(0, n - start) =~= d);
    Some(value)
}

/// The user id a request names in its header, if it is an unsigned 32 bit number.
pub fn get_id_from_headers(header: Option<&str>) -> (r: Option<u32>)
    ensures
        r == match header {
            Some(h) => match decimal_text(h@) {
                Some(v) => if v <= u32::MAX { Some(v as u32) } else { None },
                None => None,
            },
            None => None,
        },
{
    match header {
        Some(h) => match parse_decimal(h, 0xffff_ffff) {
            Some(v) => Some(v as u32),
            None => None,
        },
        None => None,
    }
}

/// The auth token a request gives in its header, if it is hexadecimal.
pub fn get_auth_token_from_headers(header: Option<&str>) -> (r: Option<Vec<u8>>)
    ensures
        header is None ==> r is None,
        header is Some ==> (r is Some <==> hex_valid(header->Some_0.spec_bytes())),
        header is Some && r is Some ==> r->Some_0@ == hex_decoding(header->Some_0.spec_bytes()),
{
    match header {
        Some(h) => hex_decode(h),
        None => None,
    }
}

} // verus!

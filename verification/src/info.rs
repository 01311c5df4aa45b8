//! What the player types at the terminal before a session starts:
//! the server address, the creature name, and what is derived from them.

use vstd::prelude::*;

verus! {

/// Whether a text ends with the character `c` (`str::ends_with` on a one-character pattern).
pub open spec fn ends_with_char(s: Seq<char>, c: char) -> bool {
    s.len() > 0 && s.last() == c
}

/// The level a session plays, chosen by the last digit of the port text:
/// `3` gives level 3, `2` gives level 2, anything else level 1.
pub open spec fn level_of_port(port: Seq<char>) -> u8 {
    if ends_with_char(port, '3') {
        3
    } else if ends_with_char(port, '2') {
        2
    } else {
        1
    }
}

/// Get the level number from the last digit of the port: "2" -> 2, "3" -> 3, otherwise 1.
///
/// The client loads its scene and the server its 2d map by this number.
pub fn mutate_to_level(port: &str) -> (level: u8)
    ensures
        level == level_of_port(port@),
        1 <= level <= 3,
{
    let n = port.unicode_len();
    if n > 0 && port.get_char(n - 1) == '3' {
        3
    } else if n > 0 && port.get_char(n - 1) == '2' {
        2
    } else {
        1
    }
}


/// The value `std::hash::Hash` gives a string through a hasher made by
/// `std::collections::hash_map::DefaultHasher::new()`.
pub uninterp spec fn default_hash_of_str(name: Seq<char>) -> u64;

/// Hash `name` with a fresh `DefaultHasher` (through `BuildHasher::hash_one` on
/// `BuildHasherDefault<DefaultHasher>`, which makes its hasher with
/// `DefaultHasher::new()`, hashes the value into it and finishes it).
/// The contract names the result: it depends on the text alone, since every
/// hasher made by `DefaultHasher::new()` is the same; which value it is, the
/// contract does not say.
#[verifier::external_body]
fn default_hash_str(name: &str) -> (h: u64)
    ensures
        h == default_hash_of_str(name@),
{
    std::hash::BuildHasher::hash_one(
        &std::hash::BuildHasherDefault::<std::collections::hash_map::DefaultHasher>::default(),
        name,
    )
}

/// The id a hash gives: its lowest 16 bits.
pub fn hash_to_id(hash_value: u64) -> (id: u16)
    ensures
        id as int == hash_value as int % 0x10000,
{
    let id = (hash_value % 0x10000) as u16;
    id
}

/// The client id made from a name: the lowest 16 bits of the name's hash.
pub fn mutate_to_id(name: &str) -> (id: u16)
    ensures
        id as int == default_hash_of_str(name@) as int % 0x10000,
{
    let hash_value = default_hash_str(name);
    hash_to_id(hash_value)
}


/// The characters of a text, one by one.
pub fn chars_of(s: &str) -> (v: Vec<char>)
    ensures
        v@ == s@,
{
    let n = s.unicode_len();
    let mut v: Vec<char> = Vec::new();
    let mut i: usize = 0;
    while i < n
        invariant
            n == s@.len(),
            i <= n,
            v@ == s@.take(i as int),
        decreases n - i,
    {
        v.push(s.get_char(i));
        i = i + 1;
        assert(v@ =~= s@.take(i as int));
    }
    assert(s@.take(n as int) =~= s@);
    v
}

/// An ASCII decimal digit (`char::is_digit(10)`).
pub open spec fn is_decimal_digit(c: char) -> bool {
    '0' <= c <= '9'
}

/// The value of a decimal digit.
pub open spec fn digit_value(c: char) -> int {
    c as int - '0' as int
}

/// Whether every character of `s` is a decimal digit.
pub open spec fn all_digits(s: Seq<char>) -> bool {
    forall|i: int| 0 <= i < s.len() ==> is_decimal_digit(#[trigger] s[i])
}

/// The number a string of decimal digits writes.
pub open spec fn decimal_value(s: Seq<char>) -> int
    decreases s.len(),
{
    if s.len() == 0 {
        0
    } else {
        decimal_value(s.drop_last()) * 10 + digit_value(s.last())
    }
}

/// The pieces of `s` between its dots, as `str::split('.')` gives them:
/// one more piece than there are dots, each possibly empty.
pub open spec fn split_dots(s: Seq<char>) -> Seq<Seq<char>>
    decreases s.len(),
{
    if s.len() == 0 {
        seq![Seq::empty()]
    } else {
        let before = split_dots(s.drop_last());
        if s.last() == '.' {
            before.push(Seq::empty())
        } else {
            before.update(before.len() - 1, before.last().push(s.last()))
        }
    }
}

/// One number of a dotted-decimal IPv4 address: one to three decimal digits,
/// without a leading zero (which would read as octal), at most 255.
pub open spec fn is_octet_text(s: Seq<char>) -> bool {
    &&& 1 <= s.len() <= 3
    &&& all_digits(s)
    &&& (s.len() > 1 ==> s[0] != '0')
    &&& decimal_value(s) <= 255
}

/// Whether `s` is an IPv4 address in dotted-decimal notation, as
/// `Ipv4Addr`'s `FromStr` reads it: four octets separated by dots.
pub open spec fn is_ipv4_text(s: Seq<char>) -> bool {
    &&& split_dots(s).len() == 4
    &&& forall|i: int| 0 <= i < 4 ==> is_octet_text(#[trigger] split_dots(s)[i])
}

/// The four octets an IPv4 text gives.
pub open spec fn ipv4_octets(s: Seq<char>) -> Seq<u8> {
    Seq::new(4, |i: int| decimal_value(split_dots(s)[i]) as u8)
}

proof fn lemma_split_dots_nonempty(s: Seq<char>)
    ensures
        split_dots(s).len() >= 1,
    decreases s.len(),
{
    if s.len() > 0 {
        lemma_split_dots_nonempty(s.drop_last());
    }
}

proof fn lemma_decimal_value_bound(s: Seq<char>)
    requires
        all_digits(s),
    ensures
        0 <= decimal_value(s),
        s.len() <= 1 ==> decimal_value(s) <= 9,
        s.len() <= 2 ==> decimal_value(s) <= 99,
        s.len() <= 3 ==> decimal_value(s) <= 999,
    decreases s.len(),
{
    if s.len() > 0 {
        assert(all_digits(s.drop_last())) by {
            assert forall|i: int| 0 <= i < s.drop_last().len() implies is_decimal_digit(
                #[trigger] s.drop_last()[i],
            ) by {
                assert(s.drop_last()[i] == s[i]);
            }
        }
        assert(is_decimal_digit(s[s.len() - 1]));
        lemma_decimal_value_bound(s.drop_last());
    }
}

/// Read the text `t[start..end]` as a dotted-decimal IPv4 address.
fn parse_ipv4(t: &Vec<char>, start: usize, end: usize) -> (r: Option<[u8; 4]>)
    requires
        start <= end <= t@.len(),
    ensures
        match r {
            Some(a) => is_ipv4_text(t@.subrange(start as int, end as int)) && a@ == ipv4_octets(
                t@.subrange(start as int, end as int),
            ),
            None => !is_ipv4_text(t@.subrange(start as int, end as int)),
        },
{
    let ghost full = t@.subrange(start as int, end as int);
    let mut octets: [u8; 4] = [0, 0, 0, 0];
    // pieces finished so far, and whether all of them were octets
    let mut done: usize = 0;
    let mut done_ok: bool = true;
    // the piece being read
    let mut cur_len: usize = 0;
    let mut cur_val: u32 = 0;
    let mut cur_digits: bool = true;
    let mut cur_lead_zero: bool = false;
    let mut i: usize = start;
    while i < end
        invariant
            start <= i <= end <= t@.len(),
            full == t@.subrange(start as int, end as int),
            split_dots(t@.subrange(start as int, i as int)).len() == done + 1,
            done <= i - start,
            cur_len <= i - start,
            done_ok <==> forall|k: int| 0 <= k < done ==> is_octet_text(#[trigger] split_dots(t@.subrange(start as int, i as int))[k]),
            forall|k: int|
                0 <= k < done && k < 4 && is_octet_text(split_dots(t@.subrange(start as int, i as int))[k])
                    ==> #[trigger] octets@[k] == decimal_value(split_dots(t@.subrange(start as int, i as int))[k]) as u8,
            cur_val <= 999,
            cur_len == split_dots(t@.subrange(start as int, i as int)).last().len(),
            cur_digits <==> all_digits(split_dots(t@.subrange(start as int, i as int)).last()),
            cur_lead_zero <==> (cur_len > 0 && split_dots(t@.subrange(start as int, i as int)).last()[0] == '0'),
            (cur_digits && cur_len <= 3) ==> cur_val == decimal_value(split_dots(t@.subrange(start as int, i as int)).last()),
        decreases end - i,
    {
        let c = t[i];
        let ghost before = t@.subrange(start as int, i as int);
        let ghost after = t@.subrange(start as int, i + 1);
        assert(after.drop_last() =~= before);
        assert(after.last() == c);
        proof {
            lemma_split_dots_nonempty(before);
        }
        if c == '.' {
            let this_ok = cur_digits && 1 <= cur_len && cur_len <= 3 && !(cur_len > 1 && cur_lead_zero) && cur_val <= 255;
            proof {
                let sp = split_dots(before);
                let cur = sp.last();
                if cur_digits {
                    lemma_decimal_value_bound(cur);
                }
                assert(this_ok <==> is_octet_text(cur));
            }
            if done < 4 {
                octets[done] = cur_val as u8;
            }
            done_ok = done_ok && this_ok;
            done = done + 1;
            cur_len = 0;
            cur_val = 0;
            cur_digits = true;
            cur_lead_zero = false;
            proof {
                let sp = split_dots(before);
                let sp2 = split_dots(after);
                assert(sp2 == sp.push(Seq::empty()));
                assert(forall|k: int| 0 <= k < done ==> sp2[k] == sp[k]);
                assert(sp2[done - 1] == sp.last());
                assert(all_digits(Seq::<char>::empty()));
            }
        } else {
            proof {
                let sp = split_dots(before);
                let cur = sp.last();
                let sp2 = split_dots(after);
                assert(sp2 == sp.update(sp.len() - 1, cur.push(c)));
                assert(forall|k: int| 0 <= k < done ==> sp2[k] == sp[k]);
                if cur_digits {
                    lemma_decimal_value_bound(cur);
                }
                assert(cur.push(c).drop_last() =~= cur);
                if cur_digits && is_decimal_digit(c) {
                    assert(all_digits(cur.push(c))) by {
                        assert forall|k: int| 0 <= k < cur.push(c).len() implies is_decimal_digit(#[trigger] cur.push(c)[k]) by {
                            if k < cur.len() {
                                assert(cur.push(c)[k] == cur[k]);
                            }
                        }
                    }
                } else {
                    if !is_decimal_digit(c) {
                        assert(!is_decimal_digit(cur.push(c)[cur.len() as int]));
                    } else {
                        let k = choose|k: int| 0 <= k < cur.len() && !is_decimal_digit(#[trigger] cur[k]);
                        assert(cur.push(c)[k] == cur[k]);
                    }
                }
                if cur.len() > 0 {
                    assert(cur.push(c)[0] == cur[0]);
                }
            }
            let is_digit = '0' <= c && c <= '9';
            if cur_digits && is_digit && cur_len < 3 {
                cur_val = cur_val * 10 + (c as u32 - '0' as u32);
            }
            if cur_len == 0 {
                cur_lead_zero = c == '0';
            }
            cur_digits = cur_digits && is_digit;
            cur_len = cur_len + 1;
        }
        i = i + 1;
    }
    proof {
        lemma_split_dots_nonempty(full);
        assert(t@.subrange(start as int, i as int) == full);
    }
    let last_ok = cur_digits && 1 <= cur_len && cur_len <= 3 && !(cur_len > 1 && cur_lead_zero) && cur_val <= 255;
    proof {
        let sp = split_dots(full);
        let cur = sp.last();
        if cur_digits {
            lemma_decimal_value_bound(cur);
        }
        assert(last_ok <==> is_octet_text(cur));
    }
    if done == 3 && done_ok && last_ok {
        octets[3] = cur_val as u8;
        proof {
            let sp = split_dots(full);
            assert forall|k: int| 0 <= k < 4 implies is_octet_text(#[trigger] sp[k]) by {
                if k == 3 {
                    assert(sp[k] == sp.last());
                }
            }
            assert(octets@ =~= ipv4_octets(full));
        }
        Some(octets)
    } else {
        proof {
            let sp = split_dots(full);
            if sp.len() == 4 && done_ok {
                assert(!is_octet_text(sp[3]));
            }
        }
        None
    }
}


/// Why a port text is not a `u16`, as `u16`'s `FromStr` tells it.
#[derive(Clone, Copy, Debug, PartialEq, Eq, Structural)]
pub enum PortError {
    /// The text is empty ("cannot parse integer from empty string").
    Empty,
    /// A character is not a decimal digit ("invalid digit found in string").
    InvalidDigit,
    /// The number exceeds 65535 ("number too large to fit in target type").
    TooLarge,
}

/// Read decimal digits from the left onto `acc`: the first character that is
/// not a digit is an error, and so is the first digit that takes the number past 65535.
pub open spec fn scan_port(digits: Seq<char>, acc: int) -> Result<int, PortError>
    decreases digits.len(),
{
    if digits.len() == 0 {
        Ok(acc)
    } else if !is_decimal_digit(digits[0]) {
        Err(PortError::InvalidDigit)
    } else if acc * 10 + digit_value(digits[0]) > 65535 {
        Err(PortError::TooLarge)
    } else {
        scan_port(digits.drop_first(), acc * 10 + digit_value(digits[0]))
    }
}

/// A port text read as `u16`'s `FromStr` reads it: an optional `+`, then
/// decimal digits read from the left.
pub open spec fn port_of(s: Seq<char>) -> Result<u16, PortError> {
    if s.len() == 0 {
        Err(PortError::Empty)
    } else if s.len() == 1 && (s[0] == '+' || s[0] == '-') {
        Err(PortError::InvalidDigit)
    } else {
        let digits = if s[0] == '+' {
            s.drop_first()
        } else {
            s
        };
        match scan_port(digits, 0) {
            Ok(v) => Ok(v as u16),
            Err(e) => Err(e),
        }
    }
}

/// Read the text `t[start..end]` as a port number.
fn parse_port(t: &Vec<char>, start: usize, end: usize) -> (r: Result<u16, PortError>)
    requires
        start <= end <= t@.len(),
    ensures
        r == port_of(t@.subrange(start as int, end as int)),
{
    let ghost s = t@.subrange(start as int, end as int);
    if start == end {
        return Err(PortError::Empty);
    }
    let first = t[start];
    if end - start == 1 && (first == '+' || first == '-') {
        return Err(PortError::InvalidDigit);
    }
    let mut j: usize = if first == '+' {
        start + 1
    } else {
        start
    };
    let ghost digits = t@.subrange(j as int, end as int);
    assert(digits =~= (if s[0] == '+' { s.drop_first() } else { s }));
    let mut acc: u32 = 0;
    assert(port_of(s) == match scan_port(digits, 0) {
        Ok(v) => Ok(v as u16),
        Err(e) => Err(e),
    });
    while j < end
        invariant
            start <= j <= end <= t@.len(),
            s == t@.subrange(start as int, end as int),
            port_of(s) == match scan_port(digits, 0) {
                Ok(v) => Ok(v as u16),
                Err(e) => Err(e),
            },
            acc <= 65535,
            scan_port(digits, 0) == scan_port(t@.subrange(j as int, end as int), acc as int),
        decreases end - j,
    {
        let c = t[j];
        let ghost rest = t@.subrange(j as int, end as int);
        assert(rest[0] == c);
        assert(rest.drop_first() =~= t@.subrange(j + 1, end as int));
        if !('0' <= c && c <= '9') {
            assert(scan_port(rest, acc as int) == Err::<int, PortError>(PortError::InvalidDigit));
            return Err(PortError::InvalidDigit);
        }
        let d: u32 = c as u32 - '0' as u32;
        assert(d as int == digit_value(c));
        if acc * 10 + d > 65535 {
            assert(scan_port(rest, acc as int) == Err::<int, PortError>(PortError::TooLarge));
            return Err(PortError::TooLarge);
        }
        acc = acc * 10 + d;
        j = j + 1;
    }
    assert(t@.subrange(j as int, end as int) =~= Seq::<char>::empty());
    Ok(acc as u16)
}


/// Why a typed server address was refused.
#[derive(Clone, Copy, Debug, PartialEq, Eq, Structural)]
pub enum AddressError {
    /// A character other than a digit, a dot or a colon.
    InvalidCharacters,
    /// The part before the first colon is not a dotted-decimal IPv4 address.
    InvalidIp,
    /// There is no colon, so no port.
    MissingPort,
    /// The part after the first colon is not a port number.
    InvalidPort(PortError),
}

/// A character allowed in a typed address: a digit, a dot or a colon.
pub open spec fn is_address_char(c: char) -> bool {
    is_decimal_digit(c) || c == '.' || c == ':'
}

/// Whether a text holds only digits, dots and colons.
pub open spec fn all_address_chars(s: Seq<char>) -> bool {
    forall|i: int| 0 <= i < s.len() ==> is_address_char(#[trigger] s[i])
}

/// The index of the first colon of `s`, or its length when it has none.
pub open spec fn first_colon(s: Seq<char>) -> int
    decreases s.len(),
{
    if s.len() == 0 {
        0
    } else if s[0] == ':' {
        0
    } else {
        1 + first_colon(s.drop_first())
    }
}

/// What a typed `IPv4:port` text gives: the text must hold only digits, dots and
/// colons; the part before the first colon is the address, the rest the port.
pub open spec fn address_of(s: Seq<char>) -> Result<(Seq<u8>, u16), AddressError> {
    if !all_address_chars(s) {
        Err(AddressError::InvalidCharacters)
    } else {
        let k = first_colon(s);
        let ip = s.take(k);
        if !is_ipv4_text(ip) {
            Err(AddressError::InvalidIp)
        } else if k == s.len() {
            Err(AddressError::MissingPort)
        } else {
            match port_of(s.skip(k + 1)) {
                Ok(port) => Ok((ipv4_octets(ip), port)),
                Err(e) => Err(AddressError::InvalidPort(e)),
            }
        }
    }
}

proof fn lemma_first_colon(s: Seq<char>, k: int)
    requires
        0 <= k <= s.len(),
        forall|j: int| 0 <= j < k ==> s[j] != ':',
        k == s.len() || s[k] == ':',
    ensures
        first_colon(s) == k,
    decreases k,
{
    if k > 0 {
        assert(s[0] != ':');
        let t = s.drop_first();
        assert forall|j: int| 0 <= j < k - 1 implies t[j] != ':' by {
            assert(t[j] == s[j + 1]);
        }
        if k < s.len() {
            assert(t[k - 1] == s[k]);
        }
        lemma_first_colon(t, k - 1);
    }
}

/// Whether every character of a typed address is a digit, a dot or a colon.
pub fn is_address_text(input: &str) -> (ok: bool)
    ensures
        ok == all_address_chars(input@),
{
    let v = chars_of(input);
    all_address_chars_in(&v)
}

fn all_address_chars_in(v: &Vec<char>) -> (ok: bool)
    ensures
        ok == all_address_chars(v@),
{
    let n = v.len();
    let mut i: usize = 0;
    while i < n
        invariant
            n == v@.len(),
            i <= n,
            forall|j: int| 0 <= j < i ==> is_address_char(#[trigger] v@[j]),
        decreases n - i,
    {
        let c = v[i];
        if !(('0' <= c && c <= '9') || c == '.' || c == ':') {
            assert(!is_address_char(v@[i as int]));
            return false;
        }
        i = i + 1;
    }
    true
}

/// Read a typed server address, `IPv4:port`: only digits, dots and colons are
/// allowed; the part before the first colon must be an IPv4 address in
/// dotted-decimal notation and the part after it a port number.
pub fn parse_server_address(input: &str) -> (r: Result<([u8; 4], u16), AddressError>)
    ensures
        match r {
            Ok((ip, port)) => address_of(input@) == Ok::<(Seq<u8>, u16), AddressError>((ip@, port)),
            Err(e) => address_of(input@) == Err::<(Seq<u8>, u16), AddressError>(e),
        },
{
    let v = chars_of(input);
    if !all_address_chars_in(&v) {
        return Err(AddressError::InvalidCharacters);
    }
    let n = v.len();
    let mut k: usize = 0;
    while k < n && v[k] != ':'
        invariant
            n == v@.len(),
            k <= n,
            forall|j: int| 0 <= j < k ==> v@[j] != ':',
        decreases n - k,
    {
        k = k + 1;
    }
    proof {
        lemma_first_colon(v@, k as int);
        assert(v@.subrange(0, k as int) =~= v@.take(k as int));
    }
    let ip = match parse_ipv4(&v, 0, k) {
        Some(ip) => ip,
        None => {
            return Err(AddressError::InvalidIp);
        },
    };
    if k == n {
        return Err(AddressError::MissingPort);
    }
    assert(v@.subrange(k + 1, n as int) =~= v@.skip(k + 1));
    match parse_port(&v, k + 1, n) {
        Ok(port) => Ok((ip, port)),
        Err(e) => Err(AddressError::InvalidPort(e)),
    }
}


/// The longest name a player may take, in characters.
pub const MAX_NAME_LEN: usize = 20;

/// An English letter or a decimal digit (`char::is_ascii_alphanumeric`).
pub open spec fn is_ascii_alphanumeric(c: char) -> bool {
    ('0' <= c <= '9') || ('a' <= c <= 'z') || ('A' <= c <= 'Z')
}

/// Whether a text holds only English letters and digits.
pub open spec fn all_alphanumeric(s: Seq<char>) -> bool {
    forall|i: int| 0 <= i < s.len() ==> is_ascii_alphanumeric(#[trigger] s[i])
}

/// Why a typed name was refused.
#[derive(Clone, Copy, Debug, PartialEq, Eq, Structural)]
pub enum NameError {
    /// A character other than an English letter or a digit.
    InvalidCharacters,
    /// More than `MAX_NAME_LEN` characters.
    TooLong,
}

/// Whether a name is accepted: only English letters and digits, and at most
/// `MAX_NAME_LEN` of them.
pub open spec fn name_error(s: Seq<char>) -> Option<NameError> {
    if !all_alphanumeric(s) {
        Some(NameError::InvalidCharacters)
    } else if s.len() > MAX_NAME_LEN {
        Some(NameError::TooLong)
    } else {
        None
    }
}

/// Whether every character of a typed name is an English letter or a digit.
pub fn is_user_name_text(input: &str) -> (ok: bool)
    ensures
        ok == all_alphanumeric(input@),
{
    let v = chars_of(input);
    let n = v.len();
    let mut i: usize = 0;
    while i < n
        invariant
            n == v@.len(),
            v@ == input@,
            i <= n,
            forall|j: int| 0 <= j < i ==> is_ascii_alphanumeric(#[trigger] v@[j]),
        decreases n - i,
    {
        let c = v[i];
        if !(('0' <= c && c <= '9') || ('a' <= c && c <= 'z') || ('A' <= c && c <= 'Z')) {
            assert(!is_ascii_alphanumeric(input@[i as int]));
            return false;
        }
        i = i + 1;
    }
    true
}

/// Check a typed creature name: English letters and digits only, and at most
/// `MAX_NAME_LEN` characters. Returns the name when it is accepted.
pub fn validate_creature_name(input: &str) -> (r: Result<String, NameError>)
    ensures
        match r {
            Ok(name) => name_error(input@) is None && name@ == input@,
            Err(e) => name_error(input@) == Some(e),
        },
{
    if !is_user_name_text(input) {
        return Err(NameError::InvalidCharacters);
    }
    if input.unicode_len() > MAX_NAME_LEN {
        return Err(NameError::TooLong);
    }
    Ok(input.to_owned())
}


/// The digit character for `d` in `0..10`.
pub open spec fn digit_char(d: int) -> char {
    (d + 48) as char
}


/// The decimal numeral of `n`, without leading zeros, as `Display` writes numbers.
pub open spec fn decimal_text(n: nat) -> Seq<char>
    decreases n,
{
    if n < 10 {
        seq![digit_char(n as int)]
    } else {
        decimal_text(n / 10).push(digit_char((n % 10) as int))
    }
}

/// An IPv4 address written in dotted-decimal notation, as `Ipv4Addr`'s `Display` writes it.
pub open spec fn ipv4_text(a: Seq<u8>) -> Seq<char> {
    decimal_text(a[0] as nat) + seq!['.'] + decimal_text(a[1] as nat) + seq!['.']
        + decimal_text(a[2] as nat) + seq!['.'] + decimal_text(a[3] as nat)
}

/// The `IPv4:port` text the programs print for an address.
pub open spec fn address_text(a: Seq<u8>, port: u16) -> Seq<char> {
    ipv4_text(a) + seq![':'] + decimal_text(port as nat)
}

proof fn lemma_decimal_text(n: nat)
    ensures
        decimal_text(n).len() >= 1,
        all_digits(decimal_text(n)),
        decimal_value(decimal_text(n)) == n,
        n >= 10 ==> decimal_text(n)[0] != '0',
        n < 10 ==> decimal_text(n).len() == 1,
        n < 100 ==> decimal_text(n).len() <= 2,
        n < 1000 ==> decimal_text(n).len() <= 3,
    decreases n,
{
    let t = decimal_text(n);
    if n < 10 {
        assert(t.drop_last() =~= Seq::<char>::empty());
        assert(decimal_value(t.drop_last()) == 0);
        assert(digit_value(t.last()) == n);
        assert(decimal_value(t) == decimal_value(t.drop_last()) * 10 + digit_value(t.last()));
        assert forall|i: int| 0 <= i < t.len() implies is_decimal_digit(#[trigger] t[i]) by {
            assert(t[i] == digit_char(n as int));
        }
    }
    if n >= 10 {
        let q = n / 10;
        assert(digit_value(digit_char((n % 10) as int)) == n % 10);
        assert(n == q * 10 + n % 10);
        lemma_decimal_text(q);
        let u = decimal_text(q);
        assert(t == u.push(digit_char((n % 10) as int)));
        assert(t.drop_last() =~= u);
        assert(t.last() == digit_char((n % 10) as int));
        assert(decimal_value(t) == decimal_value(t.drop_last()) * 10 + digit_value(t.last()));
        assert forall|i: int| 0 <= i < t.len() implies is_decimal_digit(#[trigger] t[i]) by {
            if i < u.len() {
                assert(t[i] == u[i]);
                assert(is_decimal_digit(u[i]));
            } else {
                assert(t[i] == digit_char((n % 10) as int));
            }
        }
        assert(t[0] == u[0]);
        if q < 10 {
            assert(u[0] == digit_char(q as int));
        }
    }
}

/// Text without a dot added after `p` extends the last piece of `p`'s split.
proof fn lemma_split_dot_free(p: Seq<char>, d: Seq<char>)
    requires
        forall|i: int| 0 <= i < d.len() ==> #[trigger] d[i] != '.',
    ensures
        split_dots(p + d) == split_dots(p).update(split_dots(p).len() - 1, split_dots(p).last() + d),
    decreases d.len(),
{
    lemma_split_dots_nonempty(p);
    if d.len() == 0 {
        assert(p + d =~= p);
        assert(split_dots(p).last() + d =~= split_dots(p).last());
        assert(split_dots(p).update(split_dots(p).len() - 1, split_dots(p).last()) =~= split_dots(p));
    } else {
        let d0 = d.drop_last();
        assert forall|i: int| 0 <= i < d0.len() implies #[trigger] d0[i] != '.' by {
            assert(d0[i] == d[i]);
        }
        lemma_split_dot_free(p, d0);
        assert((p + d).drop_last() =~= p + d0);
        assert((p + d).last() == d.last());
        assert(d.last() != '.');
        let sp = split_dots(p);
        let sp0 = split_dots(p + d0);
        assert(sp0.last() == sp.last() + d0);
        assert(sp.last() + d0 + seq![d.last()] =~= sp.last() + d);
        assert((sp.last() + d0).push(d.last()) =~= sp.last() + d);
        assert(split_dots(p + d) =~= sp.update(sp.len() - 1, sp.last() + d));
    }
}

proof fn lemma_decimal_has_no_dot(n: nat)
    ensures
        forall|i: int| 0 <= i < decimal_text(n).len() ==> #[trigger] decimal_text(n)[i] != '.',
        forall|i: int| 0 <= i < decimal_text(n).len() ==> decimal_text(n)[i] != ':',
{
    lemma_decimal_text(n);
    assert forall|i: int| 0 <= i < decimal_text(n).len() implies #[trigger] decimal_text(n)[i] != '.'
        && decimal_text(n)[i] != ':' by {
        assert(is_decimal_digit(decimal_text(n)[i]));
    }
}

/// Reading an IPv4 address back from its dotted-decimal text gives the address.
proof fn lemma_ipv4_text_reads_back(a: Seq<u8>)
    requires
        a.len() == 4,
    ensures
        is_ipv4_text(ipv4_text(a)),
        ipv4_octets(ipv4_text(a)) == a,
        forall|i: int| 0 <= i < ipv4_text(a).len() ==> is_address_char(#[trigger] ipv4_text(a)[i]),
        forall|i: int| 0 <= i < ipv4_text(a).len() ==> #[trigger] ipv4_text(a)[i] != ':',
{
    let d0 = decimal_text(a[0] as nat);
    let d1 = decimal_text(a[1] as nat);
    let d2 = decimal_text(a[2] as nat);
    let d3 = decimal_text(a[3] as nat);
    lemma_decimal_text(a[0] as nat);
    lemma_decimal_text(a[1] as nat);
    lemma_decimal_text(a[2] as nat);
    lemma_decimal_text(a[3] as nat);
    lemma_decimal_has_no_dot(a[0] as nat);
    lemma_decimal_has_no_dot(a[1] as nat);
    lemma_decimal_has_no_dot(a[2] as nat);
    lemma_decimal_has_no_dot(a[3] as nat);
    let dot: Seq<char> = seq!['.'];
    let e: Seq<char> = Seq::empty();
    assert(split_dots(e) == seq![e]);
    lemma_split_dot_free(e, d0);
    assert(e + d0 =~= d0);
    assert(split_dots(d0) =~= seq![d0]);
    let p1 = d0 + dot;
    assert(p1.drop_last() =~= d0);
    assert(split_dots(p1) =~= seq![d0, e]);
    lemma_split_dot_free(p1, d1);
    let q1 = p1 + d1;
    assert(e + d1 =~= d1);
    assert(split_dots(q1) =~= seq![d0, d1]);
    let p2 = q1 + dot;
    assert(p2.drop_last() =~= q1);
    assert(split_dots(p2) =~= seq![d0, d1, e]);
    lemma_split_dot_free(p2, d2);
    let q2 = p2 + d2;
    assert(split_dots(q2) =~= seq![d0, d1, d2]);
    let p3 = q2 + dot;
    assert(p3.drop_last() =~= q2);
    assert(split_dots(p3) =~= seq![d0, d1, d2, e]);
    lemma_split_dot_free(p3, d3);
    let q3 = p3 + d3;
    assert(split_dots(q3) =~= seq![d0, d1, d2, d3]);
    assert(q3 =~= ipv4_text(a));
    let sp = split_dots(ipv4_text(a));
    assert forall|i: int| 0 <= i < 4 implies is_octet_text(#[trigger] sp[i]) by {
        if i == 0 {
            assert(sp[i] == d0);
        } else if i == 1 {
            assert(sp[i] == d1);
        } else if i == 2 {
            assert(sp[i] == d2);
        } else {
            assert(sp[i] == d3);
        }
    }
    assert(ipv4_octets(ipv4_text(a)) =~= a);
    let t = ipv4_text(a);
    assert forall|i: int| 0 <= i < t.len() implies is_address_char(#[trigger] t[i]) && t[i] != ':' by {
        let l0 = d0.len() as int;
        let l1 = d1.len() as int;
        let l2 = d2.len() as int;
        if i < l0 {
            assert(t[i] == d0[i]);
        } else if i == l0 {
            assert(t[i] == '.');
        } else if i < l0 + 1 + l1 {
            assert(t[i] == d1[i - l0 - 1]);
        } else if i == l0 + 1 + l1 {
            assert(t[i] == '.');
        } else if i < l0 + 1 + l1 + 1 + l2 {
            assert(t[i] == d2[i - l0 - 1 - l1 - 1]);
        } else if i == l0 + 1 + l1 + 1 + l2 {
            assert(t[i] == '.');
        } else {
            assert(t[i] == d3[i - l0 - 1 - l1 - 1 - l2 - 1]);
        }
    }
}


proof fn lemma_scan_push(s: Seq<char>, c: char, acc: int)
    requires
        all_digits(s),
        is_decimal_digit(c),
    ensures
        scan_port(s.push(c), acc) == match scan_port(s, acc) {
            Ok(v) => if v * 10 + digit_value(c) <= 65535 {
                Ok(v * 10 + digit_value(c))
            } else {
                Err(PortError::TooLarge)
            },
            Err(e) => Err(e),
        },
    decreases s.len(),
{
    let t = s.push(c);
    if s.len() == 0 {
        assert(t[0] == c);
        assert(t.drop_first() =~= Seq::<char>::empty());
        assert(scan_port(s, acc) == Ok::<int, PortError>(acc));
        assert(scan_port(t.drop_first(), acc * 10 + digit_value(c)) == Ok::<int, PortError>(
            acc * 10 + digit_value(c),
        ));
    } else {
        assert(t[0] == s[0]);
        assert(is_decimal_digit(s[0]));
        assert(t.drop_first() =~= s.drop_first().push(c));
        assert(all_digits(s.drop_first())) by {
            assert forall|i: int| 0 <= i < s.drop_first().len() implies is_decimal_digit(
                #[trigger] s.drop_first()[i],
            ) by {
                assert(s.drop_first()[i] == s[i + 1]);
            }
        }
        lemma_scan_push(s.drop_first(), c, acc * 10 + digit_value(s[0]));
    }
}

proof fn lemma_scan_value(s: Seq<char>)
    requires
        all_digits(s),
        decimal_value(s) <= 65535,
    ensures
        scan_port(s, 0) == Ok::<int, PortError>(decimal_value(s)),
    decreases s.len(),
{
    if s.len() > 0 {
        let s0 = s.drop_last();
        let c = s.last();
        assert(all_digits(s0)) by {
            assert forall|i: int| 0 <= i < s0.len() implies is_decimal_digit(#[trigger] s0[i]) by {
                assert(s0[i] == s[i]);
            }
        }
        assert(is_decimal_digit(s[s.len() - 1]));
        lemma_decimal_value_bound(s0);
        lemma_scan_value(s0);
        assert(s0.push(c) =~= s);
        lemma_scan_push(s0, c, 0);
    }
}

/// An address read back from the `IPv4:port` text the programs print for it is
/// that address: every address and port that can be shown can be typed in.
pub proof fn address_text_reads_back(a: Seq<u8>, port: u16)
    requires
        a.len() == 4,
    ensures
        address_of(address_text(a, port)) == Ok::<(Seq<u8>, u16), AddressError>((a, port)),
{
    let ip = ipv4_text(a);
    let dp = decimal_text(port as nat);
    let s = address_text(a, port);
    lemma_ipv4_text_reads_back(a);
    lemma_decimal_text(port as nat);
    let k = ip.len() as int;
    assert forall|i: int| 0 <= i < s.len() implies is_address_char(#[trigger] s[i]) by {
        if i < k {
            assert(s[i] == ip[i]);
        } else if i == k {
            assert(s[i] == ':');
        } else {
            assert(s[i] == dp[i - k - 1]);
            assert(is_decimal_digit(dp[i - k - 1]));
        }
    }
    assert forall|j: int| 0 <= j < k implies s[j] != ':' by {
        assert(s[j] == ip[j]);
    }
    assert(s[k] == ':');
    lemma_first_colon(s, k);
    assert(s.take(k) =~= ip);
    assert(s.skip(k + 1) =~= dp);
    assert(is_decimal_digit(dp[0]));
    lemma_scan_value(dp);
}


/// The level depends on the last character of the port text alone: 3 when it
/// is `3`, 2 when it is `2`, and 1 for any other last character or an empty text.
pub proof fn level_is_last_digit(port: Seq<char>)
    ensures
        level_of_port(port) == 3 <==> (port.len() > 0 && port[port.len() - 1] == '3'),
        level_of_port(port) == 2 <==> (port.len() > 0 && port[port.len() - 1] == '2'),
        level_of_port(port) == 1 <==> (port.len() == 0 || (port[port.len() - 1] != '2'
            && port[port.len() - 1] != '3')),
        forall|prefix: Seq<char>| #[trigger] level_of_port(prefix + port) == level_of_port(port)
            || port.len() == 0,
{
    assert forall|prefix: Seq<char>| #[trigger] level_of_port(prefix + port) == level_of_port(port)
        || port.len() == 0 by {
        if port.len() > 0 {
            assert((prefix + port)[(prefix + port).len() - 1] == port[port.len() - 1]);
        }
    }
}

/// A name is accepted only when every character is an ASCII digit or an English
/// letter, and at most `MAX_NAME_LEN` long; a name holding any other character
/// is refused for its characters.
pub proof fn names_are_letters_and_digits(s: Seq<char>)
    ensures
        all_alphanumeric(s) <==> forall|i: int|
            0 <= i < s.len() ==> ('0' <= #[trigger] s[i] <= '9') || ('a' <= s[i] <= 'z') || ('A'
                <= s[i] <= 'Z'),
        name_error(s) is None <==> (s.len() <= 20 && forall|i: int|
            0 <= i < s.len() ==> ('0' <= #[trigger] s[i] <= '9') || ('a' <= s[i] <= 'z') || ('A'
                <= s[i] <= 'Z')),
        (exists|i: int|
            0 <= i < s.len() && !(('0' <= #[trigger] s[i] <= '9') || ('a' <= s[i] <= 'z') || ('A'
                <= s[i] <= 'Z'))) ==> name_error(s) == Some(NameError::InvalidCharacters),
{
}

} // verus!

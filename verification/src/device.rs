//! MAC addresses, hexadecimal bytes and the WFD device information.
use crate::error::{self, ErrorCase, ErrorModel, MiracastError};
use crate::text::chars_of;
use vstd::prelude::*;
use vstd::utf8;

verus! {

/// The value of a hexadecimal digit.
pub open spec fn hex_value(c: char) -> Option<u8> {
    if '0' <= c <= '9' {
        Some((c as u8 - '0' as u8) as u8)
    } else if 'a' <= c <= 'f' {
        Some((c as u8 - 'a' as u8 + 10) as u8)
    } else if 'A' <= c <= 'F' {
        Some((c as u8 - 'A' as u8 + 10) as u8)
    } else {
        None
    }
}

/// Reads a hexadecimal digit.
pub fn hex_digit(c: char) -> (r: Option<u8>)
    ensures
        r == hex_value(c),
        r matches Some(v) ==> v < 16,
{
    if '0' <= c && c <= '9' {
        Some(c as u8 - 48)
    } else if 'a' <= c && c <= 'f' {
        Some(c as u8 - 87)
    } else if 'A' <= c && c <= 'F' {
        Some(c as u8 - 55)
    } else {
        None
    }
}

/// Whether `s` is a MAC address: six pairs of hexadecimal digits with colons
/// between them.
pub open spec fn is_mac(s: Seq<char>) -> bool {
    &&& s.len() == 17
    &&& forall|i: int|
        0 <= i < 17 ==> if i % 3 == 2 {
            #[trigger] s[i] == ':'
        } else {
            hex_value(s[i]) is Some
        }
}

/// Whether `value` is a MAC address.
pub fn is_mac_address(value: &str) -> (r: bool)
    ensures
        r == is_mac(value@),
{
    let chars: Vec<char> = chars_of(value);
    if chars.len() != 17 {
        return false;
    }
    let mut i: usize = 0;
    while i < 17
        invariant
            i <= 17,
            chars@.len() == 17,
            chars@ == value@,
            forall|k: int|
                0 <= k < i ==> if k % 3 == 2 {
                    #[trigger] chars@[k] == ':'
                } else {
                    hex_value(chars@[k]) is Some
                },
        decreases 17 - i,
    {
        let c: char = chars[i];
        let fits: bool = if i % 3 == 2 {
            c == ':'
        } else {
            hex_digit(c).is_some()
        };
        if !fits {
            assert(value@[i as int] == c);
            return false;
        }
        i = i + 1;
    }
    true
}

/// The error for a peer that is not given by a MAC address.
pub open spec fn address_error(address: Seq<char>) -> ErrorModel {
    error::plain(
        ErrorCase::PeerAddress,
        "peer must be a P2P device MAC address, got `"@ + address + "`"@,
    )
}

/// Accepts MAC addresses.
pub fn validate_peer_address(address: &str) -> (r: Result<(), MiracastError>)
    ensures
        match r {
            Ok(_) => is_mac(address@),
            Err(e) => !is_mac(address@) && e@ == address_error(address@),
        },
{
    if is_mac_address(address) {
        return Ok(());
    }
    let mut message: String = "peer must be a P2P device MAC address, got `".to_owned();
    message.append(address);
    message.append("`");
    Err(MiracastError::new(ErrorCase::PeerAddress, message))
}

/// What is wrong with a device information, if anything is: it has an odd
/// number of bytes, or else something in it is not a hexadecimal digit.
pub open spec fn device_info_error(info: Seq<char>) -> Option<ErrorModel> {
    if utf8::encode_utf8(info).len() % 2 != 0 {
        Some(
            error::plain(
                ErrorCase::DeviceInfoLength,
                "WFD device info must have an even number of hex digits"@,
            ),
        )
    } else if exists|i: int| 0 <= i < info.len() && hex_value(#[trigger] info[i]) is None {
        Some(
            error::plain(
                ErrorCase::DeviceInfoDigits,
                "WFD device info must contain only hex digits"@,
            ),
        )
    } else {
        None
    }
}

/// Accepts an even number of hexadecimal digits.
pub fn validate_wfd_device_info(device_info: &str) -> (r: Result<(), MiracastError>)
    ensures
        match r {
            Ok(_) => device_info_error(device_info@) is None,
            Err(e) => device_info_error(device_info@) == Some(e@),
        },
{
    if device_info.as_bytes().len() % 2 != 0 {
        return Err(
            MiracastError::new(
                ErrorCase::DeviceInfoLength,
                "WFD device info must have an even number of hex digits".to_owned(),
            ),
        );
    }
    let chars: Vec<char> = chars_of(device_info);
    let mut i: usize = 0;
    while i < chars.len()
        invariant
            i <= chars@.len(),
            chars@ == device_info@,
            utf8::encode_utf8(device_info@).len() % 2 == 0,
            forall|k: int| 0 <= k < i ==> hex_value(#[trigger] device_info@[k]) is Some,
        decreases chars@.len() - i,
    {
        if hex_digit(chars[i]).is_none() {
            assert(hex_value(device_info@[i as int]) is None);
            return Err(
                MiracastError::new(
                    ErrorCase::DeviceInfoDigits,
                    "WFD device info must contain only hex digits".to_owned(),
                ),
            );
        }
        i = i + 1;
    }
    Ok(())
}

/// The byte that two characters spell: two hexadecimal digits, or a plus sign
/// and one.
pub open spec fn pair_value(a: char, b: char) -> Option<u8> {
    match (hex_value(a), hex_value(b)) {
        (Some(hi), Some(lo)) => Some((16 * hi + lo) as u8),
        (None, Some(lo)) => if a == '+' {
            Some(lo)
        } else {
            None
        },
        _ => None,
    }
}

/// The bytes that the characters spell two by two, if all of them do.
pub open spec fn pair_bytes(s: Seq<char>) -> Option<Seq<u8>>
    decreases s.len(),
{
    if s.len() == 0 {
        Some(Seq::empty())
    } else if s.len() >= 2 {
        match (pair_value(s[0], s[1]), pair_bytes(s.skip(2))) {
            (Some(b), Some(rest)) => Some(seq![b] + rest),
            _ => None,
        }
    } else {
        None
    }
}

/// The bytes that a text of an even number of bytes spells in hexadecimal.
pub open spec fn hex_bytes(s: Seq<char>) -> Option<Seq<u8>> {
    if utf8::encode_utf8(s).len() % 2 != 0 {
        None
    } else {
        pair_bytes(s)
    }
}

/// Whether the text can be cut after every second byte up to the first pair
/// that spells nothing.
pub open spec fn cuts_in_pairs(s: Seq<char>) -> bool
    decreases s.len(),
{
    ||| s.len() == 0
    ||| '\u{80}' <= s[0] <= '\u{7ff}'
    ||| {
        &&& s.len() >= 2
        &&& s[0] < '\u{80}'
        &&& s[1] < '\u{80}'
        &&& pair_value(s[0], s[1]) is Some ==> cuts_in_pairs(s.skip(2))
    }
}

/// Whether [`decode_hex`] can take the text: one of an even number of bytes
/// must not have a character across two pairs of bytes.
pub open spec fn hex_is_cuttable(s: Seq<char>) -> bool {
    utf8::encode_utf8(s).len() % 2 == 0 ==> cuts_in_pairs(s)
}

/// Reads the byte that two characters spell.
fn pair_byte(a: char, b: char) -> (r: Option<u8>)
    ensures
        r == pair_value(a, b),
{
    match (hex_digit(a), hex_digit(b)) {
        (Some(hi), Some(lo)) => Some(16 * hi + lo),
        (None, Some(lo)) => if a == '+' {
            Some(lo)
        } else {
            None
        },
        _ => None,
    }
}

/// Whether [`decode_hex`] can take the text.
pub fn can_decode_hex(hex: &str) -> (r: bool)
    ensures
        r == hex_is_cuttable(hex@),
{
    if hex.as_bytes().len() % 2 != 0 {
        return true;
    }
    let chars: Vec<char> = chars_of(hex);
    let mut i: usize = 0;
    assert(chars@.skip(0) == chars@);
    while i < chars.len()
        invariant
            i <= chars@.len(),
            chars@ == hex@,
            utf8::encode_utf8(hex@).len() % 2 == 0,
            cuts_in_pairs(hex@) == cuts_in_pairs(chars@.skip(i as int)),
        decreases chars@.len() - i,
    {
        let a: char = chars[i];
        if '\u{80}' <= a && a <= '\u{7ff}' {
            return true;
        }
        if a > '\u{7ff}' || chars.len() - i < 2 {
            return false;
        }
        let b: char = chars[i + 1];
        if b >= '\u{80}' {
            return false;
        }
        if pair_byte(a, b).is_none() {
            return true;
        }
        assert(chars@.skip(i as int).skip(2) == chars@.skip(i + 2));
        i = i + 2;
    }
    true
}

/// Reads hexadecimal bytes.
pub fn decode_hex(hex: &str) -> (r: Option<Vec<u8>>)
    requires
        hex_is_cuttable(hex@),
    ensures
        match r {
            Some(bytes) => hex_bytes(hex@) == Some(bytes@),
            None => hex_bytes(hex@) is None,
        },
{
    if hex.as_bytes().len() % 2 != 0 {
        return None;
    }
    let chars: Vec<char> = chars_of(hex);
    let mut out: Vec<u8> = Vec::new();
    let mut i: usize = 0;
    proof {
        assert(chars@.skip(0) == chars@);
        if let Some(all) = pair_bytes(chars@) {
            assert(out@ + all =~= all);
        }
    }
    while i < chars.len()
        invariant
            i <= chars@.len(),
            chars@ == hex@,
            utf8::encode_utf8(hex@).len() % 2 == 0,
            match pair_bytes(chars@.skip(i as int)) {
                Some(rest) => pair_bytes(hex@) == Some(out@ + rest),
                None => pair_bytes(hex@) is None,
            },
        decreases chars@.len() - i,
    {
        if chars.len() - i < 2 {
            return None;
        }
        match pair_byte(chars[i], chars[i + 1]) {
            Some(b) => {
                proof {
                    assert(chars@.skip(i as int).skip(2) == chars@.skip(i + 2));
                    if let Some(rest) = pair_bytes(chars@.skip(i + 2)) {
                        assert(out@ + (seq![b] + rest) =~= out@.push(b) + rest);
                    }
                }
                out.push(b);
                i = i + 2;
            },
            None => {
                return None;
            },
        }
    }
    assert(out@ + Seq::<u8>::empty() =~= out@);
    Some(out)
}

/// The number that two bytes stand for, the high one first.
pub open spec fn big_endian(hi: u8, lo: u8) -> u16 {
    (hi * 256 + lo) as u16
}

/// Puts two bytes together.
fn from_be_bytes(hi: u8, lo: u8) -> (n: u16)
    ensures
        n == big_endian(hi, lo),
        n == hi * 256 + lo,
{
    hi as u16 * 256 + lo as u16
}

/// The port in the device information among complete WFD subelements. A
/// subelement has an identifier, a length of two bytes and so many bytes; the
/// device information has the identifier zero, and in it the port follows two
/// bytes of flags.
pub open spec fn subelement_port(bytes: Seq<u8>) -> Option<u16>
    decreases bytes.len(),
{
    if bytes.len() < 3 {
        None
    } else {
        let len = big_endian(bytes[1], bytes[2]) as int;
        if 3 + len > bytes.len() {
            None
        } else if bytes[0] == 0 && len >= 4 {
            Some(big_endian(bytes[5], bytes[6]))
        } else {
            subelement_port(bytes.skip(3 + len))
        }
    }
}

/// The port in a device information that has its length before it, but no
/// identifier.
pub open spec fn prefixed_port(bytes: Seq<u8>) -> Option<u16> {
    if bytes.len() >= 6 && big_endian(bytes[0], bytes[1]) == bytes.len() - 2 {
        Some(big_endian(bytes[4], bytes[5]))
    } else {
        None
    }
}

/// The port in a device information that stands alone.
pub open spec fn payload_port(bytes: Seq<u8>) -> Option<u16> {
    if bytes.len() >= 4 {
        Some(big_endian(bytes[2], bytes[3]))
    } else {
        None
    }
}

/// The port in a device information in the first of these forms that fits.
pub open spec fn device_info_port(bytes: Seq<u8>) -> Option<u16> {
    match subelement_port(bytes) {
        Some(port) => Some(port),
        None => match prefixed_port(bytes) {
            Some(port) => Some(port),
            None => payload_port(bytes),
        },
    }
}

/// The port in a device information in hexadecimal.
pub open spec fn hex_port(hex: Seq<char>) -> Option<u16> {
    match hex_bytes(hex) {
        Some(bytes) => device_info_port(bytes),
        None => None,
    }
}

/// Reads the RTSP port out of WFD subelements in hexadecimal.
pub fn parse_wfd_rtsp_port(hex: &str) -> (r: Option<u16>)
    requires
        hex_is_cuttable(hex@),
    ensures
        r == hex_port(hex@),
{
    let bytes: Vec<u8> = match decode_hex(hex) {
        Some(bytes) => bytes,
        None => {
            return None;
        },
    };
    let n: usize = bytes.len();
    let mut i: usize = 0;
    let mut complete: bool = true;
    assert(bytes@.skip(0) == bytes@);
    while complete && n - i >= 3
        invariant
            n == bytes@.len(),
            i <= n,
            hex_bytes(hex@) == Some(bytes@),
            complete ==> subelement_port(bytes@) == subelement_port(bytes@.skip(i as int)),
            !complete ==> subelement_port(bytes@) is None,
        decreases n - i + (if complete { 1int } else { 0int }),
    {
        let id: u8 = bytes[i];
        let len: usize = from_be_bytes(bytes[i + 1], bytes[i + 2]) as usize;
        let ghost tail = bytes@.skip(i as int);
        assert(tail[0] == id && tail[1] == bytes@[i + 1] && tail[2] == bytes@[i + 2]);
        if len > n - i - 3 {
            complete = false;
        } else if id == 0 && len >= 4 {
            assert(tail[5] == bytes@[i + 5] && tail[6] == bytes@[i + 6]);
            return Some(from_be_bytes(bytes[i + 5], bytes[i + 6]));
        } else {
            assert(tail.skip(3 + len) == bytes@.skip(i + 3 + len));
            i = i + 3 + len;
        }
    }
    if n >= 6 && from_be_bytes(bytes[0], bytes[1]) as usize == n - 2 {
        return Some(from_be_bytes(bytes[4], bytes[5]));
    }
    if n >= 4 {
        return Some(from_be_bytes(bytes[2], bytes[3]));
    }
    None
}

/// A device information with its identifier and its length before it gives its
/// port, whatever follows.
pub proof fn law_port_of_subelement(info: Seq<u8>, rest: Seq<u8>)
    requires
        4 <= info.len() <= u16::MAX,
    ensures
        device_info_port(
            seq![0u8, (info.len() / 256) as u8, (info.len() % 256) as u8] + info + rest,
        ) == Some(big_endian(info[2], info[3])),
{
    let bytes = seq![0u8, (info.len() / 256) as u8, (info.len() % 256) as u8] + info + rest;
    assert(big_endian(bytes[1], bytes[2]) == info.len());
    assert(bytes[5] == info[2] && bytes[6] == info[3]);
}

/// A complete subelement that is not the device information is passed over.
pub proof fn law_other_subelements_are_passed_over(id: u8, payload: Seq<u8>, rest: Seq<u8>)
    requires
        id != 0,
        payload.len() <= u16::MAX,
    ensures
        subelement_port(
            seq![id, (payload.len() / 256) as u8, (payload.len() % 256) as u8] + payload + rest,
        ) == subelement_port(rest),
{
    let bytes = seq![id, (payload.len() / 256) as u8, (payload.len() % 256) as u8] + payload + rest;
    assert(big_endian(bytes[1], bytes[2]) == payload.len());
    assert(bytes.skip(3 + payload.len() as int) =~= rest);
}

/// A device information with its length before it gives its port, unless it is
/// so long that the length and what follows can be read as subelements that
/// hold another port.
pub proof fn law_port_of_prefixed_info(info: Seq<u8>)
    requires
        4 <= info.len() <= u16::MAX,
        info.len() >= 256 ==> (subelement_port(
            seq![(info.len() / 256) as u8, (info.len() % 256) as u8] + info,
        ) matches Some(port) ==> port == big_endian(info[2], info[3])),
    ensures
        device_info_port(seq![(info.len() / 256) as u8, (info.len() % 256) as u8] + info) == Some(
            big_endian(info[2], info[3]),
        ),
{
    let bytes = seq![(info.len() / 256) as u8, (info.len() % 256) as u8] + info;
    assert(big_endian(bytes[0], bytes[1]) == info.len());
    if info.len() < 256 {
        assert(bytes[0] == 0 && bytes[1] == info.len());
        assert(big_endian(bytes[1], bytes[2]) >= 256 * info.len());
        assert(subelement_port(bytes) is None);
    }
    assert(bytes[4] == info[2] && bytes[5] == info[3]);
}

/// A device information that stands alone, with six bytes or some of them left
/// out at its end, gives its port, unless its first two bytes happen to be its
/// length less two and its last two bytes are not the port.
pub proof fn law_port_of_bare_info(info: Seq<u8>)
    requires
        4 <= info.len() <= 6,
        info.len() < 6 || big_endian(info[0], info[1]) != 4 || big_endian(info[4], info[5])
            == big_endian(info[2], info[3]),
    ensures
        device_info_port(info) == Some(big_endian(info[2], info[3])),
{
    reveal_with_fuel(subelement_port, 4);
    assert(subelement_port(info) is None);
}

/// The hexadecimal digits are `0` to `9`, and `a` to `f` in either case, and
/// they count in this order.
pub proof fn law_hex_value(c: char)
    ensures
        hex_value(c) is Some <==> '0' <= c <= '9' || 'a' <= c <= 'f' || 'A' <= c <= 'F',
        '0' <= c <= '9' ==> hex_value(c)->Some_0 as int == c as int - '0' as int,
        'a' <= c <= 'f' ==> hex_value(c)->Some_0 as int == c as int - 'a' as int + 10,
        'A' <= c <= 'F' ==> hex_value(c)->Some_0 as int == c as int - 'A' as int + 10,
{
}

/// A text of hexadecimal digits and nothing else, an even number of them.
pub open spec fn is_even_hex(s: Seq<char>) -> bool {
    &&& s.len() % 2 == 0
    &&& forall|i: int|
        0 <= i < s.len() ==> '0' <= #[trigger] s[i] <= '9' || 'a' <= s[i] <= 'f' || 'A' <= s[i]
            <= 'F'
}

/// A text of hexadecimal digits takes a byte for each.
proof fn lemma_hex_size(s: Seq<char>)
    requires
        forall|i: int| 0 <= i < s.len() ==> hex_value(#[trigger] s[i]) is Some,
    ensures
        utf8::encode_utf8(s).len() == s.len(),
{
    assert(utf8::is_ascii_chars(s));
    utf8::is_ascii_chars_encode_utf8(s);
}

/// A device information is accepted exactly if it is an even number of
/// hexadecimal digits.
pub proof fn law_device_info(info: Seq<char>)
    ensures
        device_info_error(info) is None <==> is_even_hex(info),
        device_info_error(info) matches Some(e) ==> e.contexts.len() == 0 && (e.case
            == ErrorCase::DeviceInfoLength || e.case == ErrorCase::DeviceInfoDigits),
{
    assert forall|i: int| 0 <= i < info.len() implies (hex_value(#[trigger] info[i]) is Some <==> '0'
        <= info[i] <= '9' || 'a' <= info[i] <= 'f' || 'A' <= info[i] <= 'F') by {
        law_hex_value(info[i]);
    }
    if forall|i: int| 0 <= i < info.len() ==> hex_value(#[trigger] info[i]) is Some {
        lemma_hex_size(info);
    }
    if is_even_hex(info) {
        lemma_hex_size(info);
        assert(device_info_error(info) is None);
    }
    if device_info_error(info) is None {
        assert(forall|i: int| 0 <= i < info.len() ==> hex_value(#[trigger] info[i]) is Some);
    }
}

/// A MAC address is six pairs of hexadecimal digits and a colon between each
/// two of them.
pub proof fn law_mac(a: Seq<char>, b: Seq<char>, c: Seq<char>, d: Seq<char>, e: Seq<char>, f: Seq<char>)
    requires
        a.len() == 2,
        b.len() == 2,
        c.len() == 2,
        d.len() == 2,
        e.len() == 2,
        f.len() == 2,
    ensures
        is_mac(
            a.push(':') + b.push(':') + c.push(':') + d.push(':') + e.push(':') + f,
        ) <==> is_even_hex(a) && is_even_hex(b) && is_even_hex(c) && is_even_hex(d) && is_even_hex(
            e,
        ) && is_even_hex(f),
{
    let s = a.push(':') + b.push(':') + c.push(':') + d.push(':') + e.push(':') + f;
    assert(s[0] == a[0] && s[1] == a[1] && s[2] == ':');
    assert(s[3] == b[0] && s[4] == b[1] && s[5] == ':');
    assert(s[6] == c[0] && s[7] == c[1] && s[8] == ':');
    assert(s[9] == d[0] && s[10] == d[1] && s[11] == ':');
    assert(s[12] == e[0] && s[13] == e[1] && s[14] == ':');
    assert(s[15] == f[0] && s[16] == f[1]);
}

/// Nothing else is a MAC address: there are seventeen characters, and every
/// third one is a colon.
pub proof fn law_mac_shape(s: Seq<char>)
    requires
        is_mac(s),
    ensures
        s.len() == 17,
        s[2] == ':' && s[5] == ':' && s[8] == ':' && s[11] == ':' && s[14] == ':',
{
}

/// Bytes are spelled in hexadecimal, two digits each and the high one first.
pub proof fn law_hex_bytes(a: char, b: char, rest: Seq<char>)
    requires
        is_even_hex(seq![a, b]),
        is_even_hex(rest),
    ensures
        hex_bytes(Seq::empty()) == Some(Seq::<u8>::empty()),
        hex_bytes(rest) is Some,
        hex_bytes(rest)->Some_0.len() == rest.len() / 2,
        hex_bytes(seq![a, b] + rest) is Some,
        hex_bytes(seq![a, b] + rest)->Some_0.len() == rest.len() / 2 + 1,
        hex_bytes(seq![a, b] + rest)->Some_0[0] as int == 16 * hex_value(a)->Some_0 + hex_value(
            b,
        )->Some_0,
        hex_bytes(seq![a, b] + rest)->Some_0.skip(1) == hex_bytes(rest)->Some_0,
{
    let s = seq![a, b] + rest;
    assert(seq![a, b][0] == a && seq![a, b][1] == b);
    assert forall|i: int| 0 <= i < s.len() implies hex_value(#[trigger] s[i]) is Some by {
        if i < 2 {
            assert(s[i] == seq![a, b][i]);
        } else {
            assert(s[i] == rest[i - 2]);
        }
    }
    lemma_hex_size(s);
    lemma_hex_size(rest);
    lemma_hex_size(Seq::empty());
    lemma_pairs(rest);
    assert(s.skip(2) =~= rest);
    assert(s[0] == a && s[1] == b);
    let tail = pair_bytes(rest)->Some_0;
    let first = pair_value(a, b)->Some_0;
    assert(pair_bytes(s) == Some(seq![first] + tail));
    assert((seq![first] + tail).skip(1) =~= tail);
}

/// An even number of hexadecimal digits spells half as many bytes.
proof fn lemma_pairs(s: Seq<char>)
    requires
        is_even_hex(s),
    ensures
        pair_bytes(s) is Some,
        pair_bytes(s)->Some_0.len() == s.len() / 2,
    decreases s.len(),
{
    if s.len() > 0 {
        let rest = s.skip(2);
        assert forall|i: int| 0 <= i < rest.len() implies '0' <= #[trigger] rest[i] <= '9' || 'a'
            <= rest[i] <= 'f' || 'A' <= rest[i] <= 'F' by {
            assert(rest[i] == s[i + 2]);
        }
        lemma_pairs(rest);
        law_hex_value(s[0]);
        law_hex_value(s[1]);
    }
}

/// Of the two bytes of a port the first one counts the multiples of 256.
pub proof fn law_big_endian(hi: u8, lo: u8)
    ensures
        big_endian(hi, lo) as int == 256 * hi + lo,
{
}

/// The port of a device information in hexadecimal stands in its third and
/// fourth byte, behind the flags.
pub proof fn law_port_in_hex(flags: Seq<char>, port: Seq<char>)
    requires
        flags.len() == 4,
        port.len() == 4,
        is_even_hex(flags),
        is_even_hex(port),
    ensures
        hex_port(flags + port) is Some,
        hex_port(flags + port)->Some_0 as int == 4096 * hex_value(port[0])->Some_0 + 256
            * hex_value(port[1])->Some_0 + 16 * hex_value(port[2])->Some_0 + hex_value(
            port[3],
        )->Some_0,
{
    let s = flags + port;
    law_hex_bytes(port[2], port[3], Seq::empty());
    let p2 = seq![port[2], port[3]] + Seq::<char>::empty();
    assert(p2 =~= seq![port[2], port[3]]);
    let p1 = seq![port[0], port[1]] + p2;
    assert(p1 =~= port);
    law_hex_bytes(port[0], port[1], p2);
    let f2 = seq![flags[2], flags[3]] + port;
    law_hex_bytes(flags[2], flags[3], port);
    assert forall|i: int| 0 <= i < f2.len() implies '0' <= #[trigger] f2[i] <= '9' || 'a' <= f2[i]
        <= 'f' || 'A' <= f2[i] <= 'F' by {
        if i < 2 {
            assert(f2[i] == flags[i + 2]);
        } else {
            assert(f2[i] == port[i - 2]);
        }
    }
    law_hex_bytes(flags[0], flags[1], f2);
    assert(seq![flags[0], flags[1]] + f2 =~= s);
    let info = hex_bytes(s)->Some_0;
    assert(info.len() == 4);
    let b1 = info.skip(1);
    let b2 = b1.skip(1);
    let b3 = b2.skip(1);
    assert(b1 == hex_bytes(f2)->Some_0);
    assert(b2 == hex_bytes(port)->Some_0);
    assert(b3 == hex_bytes(p2)->Some_0);
    assert(info[2] == b2[0] && info[3] == b3[0]);
    law_port_of_bare_info(info);
    law_big_endian(info[2], info[3]);
}

/// A plus sign stands for a zero in front of a digit. Any other pair that is
/// not two hexadecimal digits spells nothing, and then the whole text does not.
pub proof fn law_hex_is_refused(a: char, b: char, rest: Seq<char>)
    ensures
        hex_value(b) is Some ==> hex_bytes(seq!['+', b]) == Some(seq![hex_value(b)->Some_0]),
        hex_value(b) is None ==> hex_bytes(seq![a, b] + rest) is None,
        hex_value(a) is None && a != '+' ==> hex_bytes(seq![a, b] + rest) is None,
        utf8::encode_utf8(rest).len() % 2 == 1 ==> hex_bytes(rest) is None,
{
    let s = seq![a, b] + rest;
    assert(s[0] == a && s[1] == b);
    if hex_value(b) is Some {
        let t = seq!['+', b];
        assert(utf8::is_ascii_chars(t));
        utf8::is_ascii_chars_encode_utf8(t);
        assert(t.skip(2) =~= Seq::<char>::empty());
        assert(t[0] == '+' && t[1] == b);
        let v = hex_value(b)->Some_0;
        assert(pair_value('+', b) == Some(v));
        assert(pair_bytes(t.skip(2)) == Some(Seq::<u8>::empty()));
        assert(seq![v] + Seq::<u8>::empty() =~= seq![v]);
    }
}

/// A subelement that is not complete, and one that is too short to have a port,
/// give none. Behind the short one the search goes on.
pub proof fn law_short_subelements(id: u8, hi: u8, lo: u8, payload: Seq<u8>, rest: Seq<u8>)
    ensures
        payload.len() < 256 * hi + lo ==> subelement_port(seq![id, hi, lo] + payload) is None,
        payload.len() < 4 && payload.len() == 256 * hi + lo ==> subelement_port(
            seq![id, hi, lo] + payload + rest,
        ) == subelement_port(rest),
        rest.len() < 3 ==> subelement_port(rest) is None,
{
    law_big_endian(hi, lo);
    let short = seq![id, hi, lo] + payload;
    assert(short[0] == id && short[1] == hi && short[2] == lo);
    let bytes = seq![id, hi, lo] + payload + rest;
    assert(bytes[0] == id && bytes[1] == hi && bytes[2] == lo);
    if payload.len() < 4 && payload.len() == 256 * hi + lo {
        assert(bytes.skip(3 + payload.len() as int) =~= rest);
    }
}

/// Bytes in which no subelement has a port and that do not start with their own
/// length are a device information that stands alone: the third and the fourth
/// byte are its port. Fewer bytes have none.
pub proof fn law_port_of_other_bytes(bytes: Seq<u8>)
    requires
        subelement_port(bytes) is None,
        bytes.len() < 6 || 256 * bytes[0] + bytes[1] != bytes.len() - 2,
    ensures
        bytes.len() < 4 ==> device_info_port(bytes) is None,
        bytes.len() >= 4 ==> device_info_port(bytes) is Some && device_info_port(
            bytes,
        )->Some_0 as int == 256 * bytes[2] + bytes[3],
{
    if bytes.len() >= 4 {
        law_big_endian(bytes[2], bytes[3]);
        law_big_endian(bytes[0], bytes[1]);
    }
}

} // verus!

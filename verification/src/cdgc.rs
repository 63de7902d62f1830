//! Catalog helpers: request-target encoding, nonce and the cached types.

use crate::conformance::{fields_view, ContractField, FieldView};
use crate::text::{decimal, decimal_of, optional_text};
use crate::timing::{epoch_nanos, unix_nanos};
use std::time::SystemTime;
use vstd::prelude::*;
use vstd::utf8::encode_utf8;

verus! {

/// Cached field contract of one asset, with the asset's identity.
#[derive(Debug, Clone)]
pub struct CachedContract {
    pub fields: Vec<ContractField>,
    pub name: Option<String>,
    pub external_id: Option<String>,
    /// Unix seconds when fetched; drives the refresh.
    pub timestamp: i64,
}

/// What a cached contract holds.
pub struct ContractView {
    pub fields: Seq<FieldView>,
    pub name: Option<Seq<char>>,
    pub external_id: Option<Seq<char>>,
    pub timestamp: i64,
}

impl View for CachedContract {
    type V = ContractView;

    open spec fn view(&self) -> ContractView {
        ContractView {
            fields: fields_view(self.fields@),
            name: optional_text(self.name),
            external_id: optional_text(self.external_id),
            timestamp: self.timestamp,
        }
    }
}

impl Default for CachedContract {
    fn default() -> (r: CachedContract)
        ensures
            r.fields@.len() == 0,
            r.name is None,
            r.external_id is None,
            r.timestamp == 0,
    {
        CachedContract { fields: Vec::new(), name: None, external_id: None, timestamp: 0 }
    }
}

/// Lock entry of the one replica that refreshes a contract.
#[derive(Debug, Clone, PartialEq)]
pub struct RefreshLock {
    pub acquired_at: i64,
}

// ---- percent encoding ----

/// The bytes that stand for themselves in a path segment.
pub open spec fn unreserved(b: u8) -> bool {
    65 <= b <= 90 || 97 <= b <= 122 || 48 <= b <= 57 || b == 45 || b == 95 || b == 46 || b == 126
}

/// The upper-case hexadecimal digit of a number below 16.
pub open spec fn hex_char(d: u8) -> char {
    if d < 10 {
        (48 + d) as char
    } else {
        (55 + d) as char
    }
}

/// One byte of a path segment.
pub open spec fn encoded_byte(b: u8) -> Seq<char> {
    if unreserved(b) {
        seq![b as char]
    } else {
        seq!['%', hex_char(b / 16), hex_char(b % 16)]
    }
}

/// The bytes of a path segment.
pub open spec fn encoded(bytes: Seq<u8>) -> Seq<char>
    decreases bytes.len(),
{
    if bytes.len() == 0 {
        seq![]
    } else {
        encoded(bytes.drop_last()) + encoded_byte(bytes.last())
    }
}

/// The upper-case hexadecimal digit of a number below 16.
fn hex_digit(d: u8) -> (r: char)
    requires
        d < 16,
    ensures
        r == hex_char(d),
{
    if d < 10 {
        (48 + d) as char
    } else {
        (55 + d) as char
    }
}

/// Percent-encode a value for safe interpolation into a request path segment.
pub fn percent_encode(value: &str) -> (r: String)
    ensures
        r@ == encoded(encode_utf8(value@)),
{
    let bytes = value.as_bytes();
    let mut out = String::new();
    let mut i: usize = 0;
    assert(bytes@.take(0) =~= Seq::<u8>::empty());
    while i < bytes.len()
        invariant
            i <= bytes@.len(),
            out@ == encoded(bytes@.take(i as int)),
        decreases bytes@.len() - i,
    {
        let b = bytes[i];
        let ghost held = out@;
        if (65 <= b && b <= 90) || (97 <= b && b <= 122) || (48 <= b && b <= 57) || b == 45 || b
            == 95 || b == 46 || b == 126 {
            out.push(b as char);
        } else {
            out.push('%');
            out.push(hex_digit(b / 16));
            out.push(hex_digit(b % 16));
        }
        assert(out@ =~= held + encoded_byte(b));
        assert(bytes@.take(i + 1).drop_last() =~= bytes@.take(i as int));
        i = i + 1;
    }
    assert(bytes@.take(i as int) =~= bytes@);
    out
}

/// A character that stands for itself in a path segment.
pub open spec fn unreserved_char(c: char) -> bool {
    ('A' <= c && c <= 'Z') || ('a' <= c && c <= 'z') || ('0' <= c && c <= '9') || c == '-' || c
        == '_' || c == '.' || c == '~'
}

/// An encoded value holds unreserved characters and percent signs only, so it
/// cannot leave its path segment.
pub proof fn encoded_is_safe(bytes: Seq<u8>, i: int)
    requires
        0 <= i < encoded(bytes).len(),
    ensures
        encoded(bytes)[i] == '%' || unreserved_char(encoded(bytes)[i]),
    decreases bytes.len(),
{
    let head = encoded(bytes.drop_last());
    if i < head.len() {
        encoded_is_safe(bytes.drop_last(), i);
    } else {
        let last = encoded_byte(bytes.last());
        assert(encoded(bytes)[i] == last[i - head.len()]);
    }
}

/// A value of unreserved bytes is encoded as it is.
pub proof fn unreserved_stays(bytes: Seq<u8>)
    requires
        forall|i: int| 0 <= i < bytes.len() ==> unreserved(#[trigger] bytes[i]),
    ensures
        encoded(bytes) == bytes.map_values(|b: u8| b as char),
    decreases bytes.len(),
{
    let same = bytes.map_values(|b: u8| b as char);
    if bytes.len() == 0 {
        assert(encoded(bytes) =~= same);
    } else {
        let head = bytes.drop_last();
        assert forall|i: int| 0 <= i < head.len() implies unreserved(#[trigger] head[i]) by {
            assert(unreserved(bytes[i]));
        }
        unreserved_stays(head);
        assert(unreserved(bytes[bytes.len() - 1]));
        assert(encoded(bytes) =~= same);
    }
}

/// The encoding of a value begins with that of its first byte.
proof fn encoded_front(bytes: Seq<u8>)
    requires
        bytes.len() > 0,
    ensures
        encoded(bytes) == encoded_byte(bytes[0]) + encoded(bytes.drop_first()),
    decreases bytes.len(),
{
    if bytes.len() == 1 {
        assert(bytes.drop_last() =~= seq![]);
        assert(bytes.drop_first() =~= seq![]);
        assert(encoded(bytes) =~= encoded_byte(bytes[0]) + encoded(bytes.drop_first()));
    } else {
        encoded_front(bytes.drop_last());
        assert(bytes.drop_last().drop_first() =~= bytes.drop_first().drop_last());
        assert(encoded(bytes) =~= encoded_byte(bytes[0]) + encoded(bytes.drop_first()));
    }
}

/// The value of an upper-case hexadecimal digit.
pub open spec fn hex_value(c: char) -> Option<u8> {
    if '0' <= c && c <= '9' {
        Some((c as u32 - 48) as u8)
    } else if 'A' <= c && c <= 'F' {
        Some((c as u32 - 55) as u8)
    } else {
        None
    }
}

/// A percent sign and the two hexadecimal digits of a byte stand at `i`.
pub open spec fn escape_at(s: Seq<char>, i: int) -> bool {
    0 <= i && i + 2 < s.len() && s[i] == '%' && hex_value(s[i + 1]) is Some && hex_value(s[i + 2])
        is Some
}

/// The bytes that a path segment stands for: an unreserved character for its
/// byte, a percent sign and two hexadecimal digits for the byte they denote.
pub open spec fn decoded(s: Seq<char>) -> Option<Seq<u8>>
    decreases s.len(),
{
    if s.len() == 0 {
        Some(seq![])
    } else if escape_at(s, 0) {
        match decoded(s.skip(3)) {
            Some(rest) => Some(
                seq![(hex_value(s[1])->0 * 16 + hex_value(s[2])->0) as u8] + rest,
            ),
            None => None,
        }
    } else if unreserved_char(s[0]) {
        match decoded(s.skip(1)) {
            Some(rest) => Some(seq![s[0] as u8] + rest),
            None => None,
        }
    } else {
        None
    }
}

/// Every percent sign of an encoded value is followed by two upper-case
/// hexadecimal digits.
pub proof fn percent_begins_an_escape(bytes: Seq<u8>, i: int)
    requires
        0 <= i < encoded(bytes).len(),
        encoded(bytes)[i] == '%',
    ensures
        escape_at(encoded(bytes), i),
    decreases bytes.len(),
{
    let head = encoded(bytes.drop_last());
    let all = encoded(bytes);
    if i < head.len() {
        percent_begins_an_escape(bytes.drop_last(), i);
        assert(all[i + 1] == head[i + 1] && all[i + 2] == head[i + 2]);
    } else {
        let last = encoded_byte(bytes.last());
        assert(all[i] == last[i - head.len()]);
        assert(!unreserved(bytes.last()));
        assert(i == head.len());
        assert(all[i + 1] == last[1] && all[i + 2] == last[2]);
    }
}

/// An encoded value decodes to the bytes that were encoded.
pub proof fn encoded_decodes_back(bytes: Seq<u8>)
    ensures
        decoded(encoded(bytes)) == Some(bytes),
    decreases bytes.len(),
{
    let all = encoded(bytes);
    if bytes.len() == 0 {
        assert(decoded(all)->0 =~= bytes);
    } else {
        let b = bytes[0];
        let first = encoded_byte(b);
        let rest = bytes.drop_first();
        encoded_front(bytes);
        encoded_decodes_back(rest);
        assert(all.skip(first.len() as int) =~= encoded(rest));
        assert(all[0] == first[0]);
        if !unreserved(b) {
            assert(all[1] == first[1] && all[2] == first[2]);
            assert(hex_value(hex_char(b / 16)) == Some((b / 16) as u8));
            assert(hex_value(hex_char(b % 16)) == Some((b % 16) as u8));
        }
        assert(seq![b] + rest =~= bytes);
    }
}

/// Different values have different encodings.
pub proof fn encoded_is_injective(a: Seq<u8>, b: Seq<u8>)
    requires
        encoded(a) == encoded(b),
    ensures
        a == b,
{
    encoded_decodes_back(a);
    encoded_decodes_back(b);
}

// ---- nonce ----

/// A nonce: the nanoseconds since the Unix epoch in decimal notation, and `0`
/// before the epoch.
pub open spec fn nonce_of(nanos: Option<u128>) -> Seq<char> {
    match nanos {
        Some(n) => decimal(n as nat),
        None => seq!['0'],
    }
}

/// The nonce of a number of nanoseconds since the Unix epoch.
pub fn nonce_from_nanos(nanos: Option<u128>) -> (r: String)
    ensures
        r@ == nonce_of(nanos),
{
    match nanos {
        Some(n) => decimal_of(n),
        None => {
            assert(decimal(0) =~= seq!['0']);
            decimal_of(0)
        },
    }
}

/// Per-request JWT nonce: nanoseconds since the Unix epoch as a decimal string.
pub fn nonce_from_time(now: SystemTime) -> (r: String)
    ensures
        r@ == nonce_of(epoch_nanos(now)),
{
    nonce_from_nanos(unix_nanos(now))
}

} // verus!

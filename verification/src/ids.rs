//! Session and stream identifiers (UUIDs) and their text forms.
use vstd::prelude::*;
use crate::auth::fill_random;

verus! {

/// What `uuid::Uuid::parse_str` yields for a text, as the UUID's 128-bit value.
pub uninterp spec fn spec_uuid_parse(text: Seq<char>) -> Option<u128>;

/// Lower-case hexadecimal digit for `d < 16`.
pub open spec fn hex_char(d: u128) -> char {
    if d < 10 {
        ((d + 48) as u32) as char
    } else {
        ((d + 87) as u32) as char
    }
}

/// Index of the hexadecimal digit shown at text position `i` of a hyphenated UUID.
pub open spec fn hyphenated_nibble(i: int) -> int {
    if i < 8 {
        i
    } else if i < 13 {
        i - 1
    } else if i < 18 {
        i - 2
    } else if i < 23 {
        i - 3
    } else {
        i - 4
    }
}

/// The hyphenated lower-case form of a UUID (`8-4-4-4-12` hexadecimal digits,
/// most significant first), which is what `Uuid`'s `Display` writes.
pub open spec fn uuid_hyphenated(v: u128) -> Seq<char> {
    Seq::new(
        36,
        |i: int|
            if i == 8 || i == 13 || i == 18 || i == 23 {
                '-'
            } else {
                hex_char((v >> ((4 * (31 - hyphenated_nibble(i))) as u128)) & 15u128)
            },
    )
}

/// Parses a UUID with `uuid::Uuid::parse_str`, which accepts the simple,
/// hyphenated, URN and braced forms; the contract names its result and states
/// that the hyphenated form of any value parses back to that value.
#[verifier::external_body]
fn uuid_parse(text: &str) -> (r: Option<u128>)
    ensures
        r == spec_uuid_parse(text@),
        forall|v: u128| text@ == uuid_hyphenated(v) ==> r == Some(v),
{
    match uuid::Uuid::parse_str(text) {
        Ok(u) => Some(u.as_u128()),
        Err(_) => None,
    }
}

/// Formats a UUID with `uuid::Uuid`'s `Display`, the hyphenated lower-case form.
#[verifier::external_body]
fn uuid_text(v: u128) -> (r: String)
    ensures
        r@ == uuid_hyphenated(v),
{
    uuid::Uuid::from_u128(v).to_string()
}

/// Whether a UUID value is a random (version 4, RFC 4122 variant) UUID: its
/// version nibble (bits 76 to 79) is 4 and its variant bits (62 and 63) are `10`.
pub open spec fn is_uuid_v4(v: u128) -> bool {
    (v >> 76u128) & 0xfu128 == 4u128 && (v >> 62u128) & 0x3u128 == 2u128
}

/// Mask clearing the version nibble and the top variant bits of a UUID value.
pub const UUID_V4_MASK: u128 = 0xFFFF_FFFF_FFFF_4FFF_BFFF_FFFF_FFFF_FFFFu128;

/// Version 4 and RFC 4122 variant bits of a UUID value.
pub const UUID_V4_BITS: u128 = 0x4000_8000_0000_0000_0000u128;

/// The number whose big-endian bytes are `b`.
pub open spec fn be_value(b: Seq<u8>) -> nat
    decreases b.len(),
{
    if b.len() == 0 {
        0
    } else {
        (be_value(b.drop_last()) * 256 + b.last()) as nat
    }
}

/// `256` to the power `n`.
pub open spec fn pow256(n: nat) -> nat
    decreases n,
{
    if n == 0 {
        1
    } else {
        256 * pow256((n - 1) as nat)
    }
}

/// The version 4 UUID made from sixteen random bytes: their big-endian value with
/// the version and variant bits set, as `uuid::Uuid::new_v4` builds it.
pub open spec fn uuid_v4_value(b: Seq<u8>) -> u128 {
    ((be_value(b) as u128) & UUID_V4_MASK) | UUID_V4_BITS
}

proof fn lemma_be_value_bound(b: Seq<u8>)
    ensures
        be_value(b) < pow256(b.len()),
    decreases b.len(),
{
    if b.len() > 0 {
        lemma_be_value_bound(b.drop_last());
        let v = be_value(b.drop_last());
        let p = pow256(b.drop_last().len());
        let x = b.last() as nat;
        assert(v * 256 + x < 256 * p) by (nonlinear_arith)
            requires
                v < p,
                x < 256,
        ;
    }
}

proof fn lemma_v4_bits(v: u128)
    ensures
        is_uuid_v4((v & UUID_V4_MASK) | UUID_V4_BITS),
{
    assert(((v & 0xFFFF_FFFF_FFFF_4FFF_BFFF_FFFF_FFFF_FFFFu128) | 0x4000_8000_0000_0000_0000u128) >> 76u128
        & 0xfu128 == 4u128) by (bit_vector);
    assert(((v & 0xFFFF_FFFF_FFFF_4FFF_BFFF_FFFF_FFFF_FFFFu128) | 0x4000_8000_0000_0000_0000u128) >> 62u128
        & 0x3u128 == 2u128) by (bit_vector);
}

/// The random source failed, so no identifier could be drawn.
#[derive(Debug)]
pub struct RandomSourceError(pub getrandom::Error);

/// A fresh version 4 UUID value: sixteen bytes drawn from the system random
/// source, with the version and variant bits set. Fails only when the random
/// source fails.
fn random_uuid_v4() -> (r: Result<u128, RandomSourceError>)
    ensures
        r matches Ok(v) ==> is_uuid_v4(v) && exists|b: Seq<u8>| b.len() == 16 && v == uuid_v4_value(b),
{
    let mut bytes = [0u8; 16];
    match fill_random(&mut bytes) {
        Ok(()) => {},
        Err(e) => {
            return Err(RandomSourceError(e));
        },
    }
    let mut v: u128 = 0;
    let mut i: usize = 0;
    while i < 16
        invariant
            i <= 16,
            v as nat == be_value(bytes@.subrange(0, i as int)),
        decreases 16 - i,
    {
        proof {
            let s = bytes@.subrange(0, i + 1);
            assert(s.drop_last() =~= bytes@.subrange(0, i as int));
            lemma_be_value_bound(s);
            assert(pow256(16) == 0x1_0000_0000_0000_0000_0000_0000_0000_0000nat) by {
                reveal_with_fuel(pow256, 17);
            }
            lemma_pow256_mono((i + 1) as nat, 16);
        }
        v = v * 256 + bytes[i] as u128;
        i = i + 1;
    }
    let r = (v & UUID_V4_MASK) | UUID_V4_BITS;
    proof {
        lemma_v4_bits(v);
        assert(r == uuid_v4_value(bytes@.subrange(0, 16)));
    }
    Ok(r)
}

proof fn lemma_pow256_mono(a: nat, b: nat)
    requires
        a <= b,
    ensures
        pow256(a) <= pow256(b),
    decreases b,
{
    if a < b {
        lemma_pow256_mono(a, (b - 1) as nat);
    }
}

/// Identifier of a streaming session.
#[derive(Debug, Clone, Copy, PartialEq, Eq, Structural, Hash)]
pub struct SessionId(pub u128);

/// Identifier of a stream within a session.
#[derive(Debug, Clone, Copy, PartialEq, Eq, Structural, Hash)]
pub struct StreamId(pub u128);

impl SessionId {
    /// A fresh random session identifier: a version 4 UUID drawn from the system
    /// random source; fails only when that source fails.
    pub fn new() -> (r: Result<SessionId, RandomSourceError>)
        ensures
            r matches Ok(id) ==> is_uuid_v4(id.0) && exists|b: Seq<u8>| b.len() == 16 && id.0 == uuid_v4_value(b),
    {
        match random_uuid_v4() {
            Ok(v) => Ok(SessionId(v)),
            Err(e) => Err(e),
        }
    }

    /// Parses a session identifier from its UUID text; `None` when the text is not a
    /// UUID.
    pub fn from_string(text: &str) -> (r: Option<SessionId>)
        ensures
            r == match spec_uuid_parse(text@) {
                Some(v) => Some(SessionId(v)),
                None => None::<SessionId>,
            },
            forall|v: u128| text@ == uuid_hyphenated(v) ==> r == Some(SessionId(v)),
    {
        match uuid_parse(text) {
            Some(v) => Some(SessionId(v)),
            None => None,
        }
    }

    /// The hyphenated lower-case UUID text of this identifier.
    pub fn to_string(&self) -> (r: String)
        ensures
            r@ == uuid_hyphenated(self.0),
    {
        uuid_text(self.0)
    }
}

impl StreamId {
    /// A fresh random stream identifier: a version 4 UUID drawn from the system
    /// random source; fails only when that source fails.
    pub fn new() -> (r: Result<StreamId, RandomSourceError>)
        ensures
            r matches Ok(id) ==> is_uuid_v4(id.0) && exists|b: Seq<u8>| b.len() == 16 && id.0 == uuid_v4_value(b),
    {
        match random_uuid_v4() {
            Ok(v) => Ok(StreamId(v)),
            Err(e) => Err(e),
        }
    }

    /// Parses a stream identifier from its UUID text; `None` when the text is not a
    /// UUID.
    pub fn from_string(text: &str) -> (r: Option<StreamId>)
        ensures
            r == match spec_uuid_parse(text@) {
                Some(v) => Some(StreamId(v)),
                None => None::<StreamId>,
            },
            forall|v: u128| text@ == uuid_hyphenated(v) ==> r == Some(StreamId(v)),
    {
        match uuid_parse(text) {
            Some(v) => Some(StreamId(v)),
            None => None,
        }
    }

    /// The hyphenated lower-case UUID text of this identifier.
    pub fn to_string(&self) -> (r: String)
        ensures
            r@ == uuid_hyphenated(self.0),
    {
        uuid_text(self.0)
    }
}

} // verus!

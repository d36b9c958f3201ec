//! Identifiers of saved items: random UUIDs and their text form.
use vstd::prelude::*;
use crate::keys::hex_digit;

verus! {

/// The last `n` lower-case hex digits of `v`, most significant first,
/// padded with zeros.
pub open spec fn hex_digits(v: nat, n: nat) -> Seq<char>
    decreases n,
{
    if n == 0 {
        Seq::empty()
    } else {
        hex_digits(v / 16, (n - 1) as nat).push(hex_digit((v % 16) as int))
    }
}

/// The hyphenated lower-case text of the UUID with the 128-bit value `id`
/// (its bytes in big-endian order): 32 hex digits grouped 8-4-4-4-12.
pub open spec fn hyphenated(id: u128) -> Seq<char> {
    let d = hex_digits(id as nat, 32);
    d.subrange(0, 8) + seq!['-'] + d.subrange(8, 12) + seq!['-'] + d.subrange(12, 16) + seq!['-']
        + d.subrange(16, 20) + seq!['-'] + d.subrange(20, 32)
}

/// Whether `u` is the value of a random (version 4) UUID: its version
/// nibble (bits 76 to 79) is 4 and its variant bits (62 and 63) are those
/// of RFC 4122, `10`.
pub open spec fn is_random_uuid(u: u128) -> bool {
    (u >> 76u128) & 0xfu128 == 4u128 && (u >> 62u128) & 0x3u128 == 2u128
}

/// Whether `t` is the hyphenated text of a random (version 4) UUID.
pub open spec fn is_random_uuid_text(t: Seq<char>) -> bool {
    exists|u: u128| is_random_uuid(u) && t == #[trigger] hyphenated(u)
}

/// A new random (version 4) UUID, as its 128-bit value: uuid's
/// `Uuid::new_v4` read with `as_u128`. The random bits depend on chance;
/// what holds of every value is that `new_v4` sets the version (4) and the
/// RFC 4122 variant bits.
#[verifier::external_body]
pub(crate) fn new_uuid() -> (r: u128)
    ensures
        is_random_uuid(r),
{
    uuid::Uuid::new_v4().as_u128()
}

/// The text uuid's `Display` writes for the UUID with the value `id`
/// (`Uuid::from_u128(id).to_string()`): claimed to be the hyphenated
/// lower-case hex form of its big-endian bytes.
#[verifier::external_body]
pub(crate) fn uuid_text(id: u128) -> (r: String)
    ensures
        r@ == hyphenated(id),
{
    uuid::Uuid::from_u128(id).to_string()
}

} // verus!

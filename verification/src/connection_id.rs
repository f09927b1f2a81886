use vstd::prelude::*;
use vstd::arithmetic::power2::pow2;

verus! {

/// The lowercase hexadecimal digit for a value in `0..16`.
pub open spec fn hex_digit(n: int) -> char {
    if n < 10 {
        (('0' as int) + n) as char
    } else {
        (('a' as int) + n - 10) as char
    }
}

/// The `k`-th four-bit group of `value`, counted from the most significant one.
pub open spec fn nibble(value: u128, k: int) -> int {
    (value as int / pow2((4 * (31 - k)) as nat) as int) % 16
}

/// How many hyphens precede position `i` of the hyphenated text.
pub open spec fn hyphens_before(i: int) -> int {
    if i <= 8 {
        0
    } else if i <= 13 {
        1
    } else if i <= 18 {
        2
    } else if i <= 23 {
        3
    } else {
        4
    }
}

/// The hyphenated lowercase form `xxxxxxxx-xxxx-xxxx-xxxx-xxxxxxxxxxxx` of a
/// 128-bit identifier, most significant digit first.
pub open spec fn uuid_text(value: u128) -> Seq<char> {
    Seq::new(
        36,
        |i: int|
            if i == 8 || i == 13 || i == 18 || i == 23 {
                '-'
            } else {
                hex_digit(nibble(value, i - hyphens_before(i)))
            },
    )
}

/// The 128-bit values of a sequence of identifiers.
pub open spec fn id_values(ids: Seq<ConnectionId>) -> Seq<u128> {
    ids.map_values(|id: ConnectionId| id@)
}

/// Whether `value` carries the version nibble 4 and the variant bits `10`
/// of a random (version-4) UUID.
pub open spec fn is_v4_value(value: u128) -> bool {
    &&& (value as int / pow2(76) as int) % 16 == 4
    &&& (value as int / pow2(62) as int) % 4 == 2
}

/// Identifies one websocket connection: a 128-bit UUID value.
#[derive(Clone, Copy, PartialEq, Eq, Structural, Hash, Debug)]
pub struct ConnectionId {
    value: u128,
}

impl View for ConnectionId {
    type V = u128;

    open spec fn view(&self) -> u128 {
        self.spec_value()
    }
}

/// The value of the nil UUID (`uuid::Uuid::nil`), which is all zero bits.
#[verifier::external_body]
fn nil_value() -> (value: u128)
    ensures
        value == 0,
{
    uuid::Uuid::nil().as_u128()
}

/// The text of a UUID as `uuid::Uuid`'s `Display` writes it: the hyphenated
/// lowercase form.
#[verifier::external_body]
fn hyphenated_text(value: u128) -> (text: String)
    ensures
        text@ == uuid_text(value),
{
    uuid::Uuid::from_u128(value).to_string()
}

impl ConnectionId {
    pub closed spec fn spec_value(&self) -> u128 {
        self.value
    }

    /// The nil identifier, used where no connection is meant.
    pub fn nil() -> (id: ConnectionId)
        ensures
            id@ == 0,
    {
        ConnectionId { value: nil_value() }
    }

    pub fn from_u128(value: u128) -> (id: ConnectionId)
        ensures
            id@ == value,
    {
        ConnectionId { value }
    }

    pub fn as_u128(&self) -> (value: u128)
        ensures
            value == self@,
    {
        self.value
    }

    /// The identifier as text, in the hyphenated lowercase UUID form.
    pub fn to_string(&self) -> (text: String)
        ensures
            text@ == uuid_text(self@),
    {
        hyphenated_text(self.value)
    }
}

} // verus!

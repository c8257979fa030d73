//! Typed 128-bit identifiers.
//!
//! An identifier is the big-endian number of its sixteen bytes, so that the
//! order of the numbers is the byte order of the identifiers. Sites, kitchens,
//! stations, brands and menu items are named by a path and get their
//! identifier from it; orders, order lines and persons get theirs from a
//! point in time.

use vstd::prelude::*;
use crate::error::Error;

verus! {

/// The identifier that `Uuid::new_v5` derives from the URL namespace and `name`.
pub uninterp spec fn uuid_v5_of_url_name(name: Seq<char>) -> u128;

/// The number that `bytes` spell, most significant byte first.
pub open spec fn big_endian(bytes: Seq<u8>) -> nat
    decreases bytes.len(),
{
    if bytes.len() == 0 {
        0
    } else {
        big_endian(bytes.drop_last()) * 256 + bytes.last() as nat
    }
}

/// The lower-case hexadecimal digit of `nibble`.
pub open spec fn hex_digit(nibble: int) -> char {
    if nibble == 0 { '0' } else if nibble == 1 { '1' } else if nibble == 2 { '2' }
    else if nibble == 3 { '3' } else if nibble == 4 { '4' } else if nibble == 5 { '5' }
    else if nibble == 6 { '6' } else if nibble == 7 { '7' } else if nibble == 8 { '8' }
    else if nibble == 9 { '9' } else if nibble == 10 { 'a' } else if nibble == 11 { 'b' }
    else if nibble == 12 { 'c' } else if nibble == 13 { 'd' } else if nibble == 14 { 'e' }
    else { 'f' }
}

/// `16` to the power `e`.
pub open spec fn pow16(e: nat) -> nat
    decreases e,
{
    if e == 0 { 1 } else { 16 * pow16((e - 1) as nat) }
}

/// The text of an identifier: thirty-two hexadecimal digits, most
/// significant first, in groups of 8, 4, 4, 4 and 12 with a hyphen between.
pub open spec fn hyphenated(value: u128) -> Seq<char> {
    Seq::new(36, |i: int|
        if i == 8 || i == 13 || i == 18 || i == 23 {
            '-'
        } else {
            let hyphens: int = if i < 8 { 0 } else if i < 13 { 1 } else if i < 18 { 2 } else if i < 23 { 3 } else { 4 };
            let digit: int = i - hyphens;
            hex_digit((value as nat / pow16((31 - digit) as nat)) as int % 16)
        })
}

/// The version that an identifier carries: the four bits below its top
/// forty-eight.
pub open spec fn version_of(value: u128) -> nat {
    (value as nat / 0x1000_0000_0000_0000_0000) % 16
}

/// The variant that an identifier carries: the top two bits of its lower
/// half.
pub open spec fn variant_of(value: u128) -> nat {
    (value as nat / 0x4000_0000_0000_0000) % 4
}

/// Whether `value` is laid out as a time-ordered identifier: version seven
/// of the standard variant.
pub open spec fn is_time_ordered(value: u128) -> bool {
    version_of(value) == 7 && variant_of(value) == 2
}

/// `Uuid::new_v5` under `Uuid::NAMESPACE_URL`: the result depends on the name
/// alone and is taken over as it comes.
#[verifier::external_body]
fn uuid_v5_url(name: &str) -> (value: u128)
    ensures
        value == uuid_v5_of_url_name(name@),
{
    uuid::Uuid::new_v5(&uuid::Uuid::NAMESPACE_URL, name.as_bytes()).as_u128()
}

/// `Uuid::from_slice`: fails unless there are exactly sixteen bytes, and
/// otherwise reads them most significant byte first.
#[verifier::external_body]
fn uuid_from_slice(bytes: &[u8]) -> (r: Option<u128>)
    ensures
        r is Some <==> bytes@.len() == 16,
        r matches Some(v) ==> v as nat == big_endian(bytes@),
{
    uuid::Uuid::from_slice(bytes).ok().map(|u| u.as_u128())
}

/// `Uuid::as_bytes`: the sixteen bytes of the number, most significant first.
#[verifier::external_body]
fn uuid_to_bytes(value: u128) -> (bytes: Vec<u8>)
    ensures
        bytes@.len() == 16,
        big_endian(bytes@) == value as nat,
{
    uuid::Uuid::from_u128(value).as_bytes().to_vec()
}

/// `Uuid::hyphenated` followed by `to_string`: lower-case digits in the
/// 8-4-4-4-12 grouping.
#[verifier::external_body]
fn uuid_to_text(value: u128) -> (text: String)
    ensures
        text@ == hyphenated(value),
{
    uuid::Uuid::from_u128(value).hyphenated().to_string()
}

/// `Uuid::new_v7` on a timestamp without a counter: the low bits are random,
/// the top forty-eight bits hold the milliseconds of the timestamp, and the
/// version and the variant are those of a time-ordered identifier.
#[verifier::external_body]
fn uuid_v7(seconds: u64, subsec_nanos: u32) -> (value: u128)
    ensures
        is_time_ordered(value),
        seconds * 1000 + subsec_nanos / 1_000_000 < 0x1_0000_0000_0000 ==> value as nat
            / 0x1_0000_0000_0000_0000_0000 == seconds * 1000 + subsec_nanos / 1_000_000,
{
    uuid::Uuid::new_v7(uuid::Timestamp::from_unix(uuid::NoContext, seconds, subsec_nanos)).as_u128()
}

/// `Uuid::now_v7`: an identifier for the present instant. Which instant and
/// which random bits it carries is not promised, only that its version and
/// its variant are those of a time-ordered identifier.
#[verifier::external_body]
fn uuid_now_v7() -> (value: u128)
    ensures
        is_time_ordered(value),
{
    uuid::Uuid::now_v7().as_u128()
}

/// The milliseconds since the epoch that a time-ordered identifier carries.
pub open spec fn minted_at_ms(value: u128) -> nat {
    value as nat / 0x1_0000_0000_0000_0000_0000
}

/// Mints a time-ordered identifier value for the instant `unix_ms`.
///
/// Whatever the random part turns out to be, the value is laid out as a
/// time-ordered identifier and carries `unix_ms` in its top bits when
/// `unix_ms` fits in forty-eight bits.
pub fn mint_time_ordered(unix_ms: u64) -> (value: u128)
    ensures
        is_time_ordered(value),
        unix_ms < 0x1_0000_0000_0000 ==> minted_at_ms(value) == unix_ms,
{
    let seconds: u64 = unix_ms / 1000;
    let millis: u64 = unix_ms % 1000;
    let nanos: u32 = (millis as u32) * 1_000_000;
    assert(seconds * 1000 + nanos / 1_000_000 == unix_ms);
    uuid_v7(seconds, nanos)
}

/// Mints a time-ordered identifier value for the present instant.
///
/// Which instant and which random bits the value carries is not decided
/// here; it is laid out as a time-ordered identifier.
pub fn mint_at_present() -> (value: u128)
    ensures
        is_time_ordered(value),
{
    uuid_now_v7()
}

/// What every typed identifier offers: its number, and the way back.
pub trait TypedId: Sized {
    /// The number behind the identifier.
    spec fn spec_value(&self) -> u128;

    /// The number behind the identifier.
    fn value(&self) -> (v: u128)
        ensures
            v == self.spec_value(),
    ;

    /// The identifier with the number `value`.
    fn from_value(value: u128) -> (id: Self)
        ensures
            id.spec_value() == value,
    ;

    /// The identifier spelled by sixteen bytes; any other length is refused.
    fn try_from_bytes(bytes: &[u8]) -> (r: Result<Self, Error>)
        ensures
            r is Ok <==> bytes@.len() == 16,
            r matches Ok(id) ==> id.spec_value() as nat == big_endian(bytes@),
            r matches Err(e) ==> e is InvalidUuid,
    {
        match uuid_from_slice(bytes) {
            Some(v) => Ok(Self::from_value(v)),
            None => Err(Error::InvalidUuid),
        }
    }

    /// The sixteen bytes of the identifier, most significant first.
    fn to_bytes(&self) -> (bytes: Vec<u8>)
        ensures
            bytes@.len() == 16,
            big_endian(bytes@) == self.spec_value() as nat,
    {
        uuid_to_bytes(self.value())
    }

    /// The identifier as hyphenated lower-case text.
    fn to_text(&self) -> (text: String)
        ensures
            text@ == hyphenated(self.spec_value()),
    {
        uuid_to_text(self.value())
    }
}

/// Identifies a site.
#[derive(Clone, Copy, Debug, PartialEq, Eq, Hash, Structural)]
pub struct SiteId(pub u128);

impl SiteId {
    /// The identifier of the path `sites/<site name>`.
    pub fn from_uri_ref(name: &str) -> (id: SiteId)
        ensures
            id.0 == uuid_v5_of_url_name(name@),
    {
        SiteId(uuid_v5_url(name))
    }
}

impl TypedId for SiteId {
    open spec fn spec_value(&self) -> u128 {
        self.0
    }

    fn value(&self) -> (v: u128) {
        self.0
    }

    fn from_value(value: u128) -> (id: Self) {
        SiteId(value)
    }
}

/// Identifies a kitchen.
#[derive(Clone, Copy, Debug, PartialEq, Eq, Hash, Structural)]
pub struct KitchenId(pub u128);

impl KitchenId {
    /// The identifier of the path `sites/<site name>/kitchens/<kitchen name>`.
    pub fn from_uri_ref(name: &str) -> (id: KitchenId)
        ensures
            id.0 == uuid_v5_of_url_name(name@),
    {
        KitchenId(uuid_v5_url(name))
    }
}

impl TypedId for KitchenId {
    open spec fn spec_value(&self) -> u128 {
        self.0
    }

    fn value(&self) -> (v: u128) {
        self.0
    }

    fn from_value(value: u128) -> (id: Self) {
        KitchenId(value)
    }
}

/// Identifies a station of a kitchen.
#[derive(Clone, Copy, Debug, PartialEq, Eq, Hash, Structural)]
pub struct StationId(pub u128);

impl StationId {
    /// The identifier of the path `sites/<site name>/kitchens/<kitchen name>/stations/<station name>`.
    pub fn from_uri_ref(name: &str) -> (id: StationId)
        ensures
            id.0 == uuid_v5_of_url_name(name@),
    {
        StationId(uuid_v5_url(name))
    }
}

impl TypedId for StationId {
    open spec fn spec_value(&self) -> u128 {
        self.0
    }

    fn value(&self) -> (v: u128) {
        self.0
    }

    fn from_value(value: u128) -> (id: Self) {
        StationId(value)
    }
}

/// Identifies a brand.
#[derive(Clone, Copy, Debug, PartialEq, Eq, Hash, Structural)]
pub struct BrandId(pub u128);

impl BrandId {
    /// The identifier of the path `brands/<brand name>`.
    pub fn from_uri_ref(name: &str) -> (id: BrandId)
        ensures
            id.0 == uuid_v5_of_url_name(name@),
    {
        BrandId(uuid_v5_url(name))
    }
}

impl TypedId for BrandId {
    open spec fn spec_value(&self) -> u128 {
        self.0
    }

    fn value(&self) -> (v: u128) {
        self.0
    }

    fn from_value(value: u128) -> (id: Self) {
        BrandId(value)
    }
}

/// Identifies an item on the menu of a brand.
#[derive(Clone, Copy, Debug, PartialEq, Eq, Hash, Structural)]
pub struct MenuItemId(pub u128);

impl MenuItemId {
    /// The identifier of the path `brands/<brand name>/items/<item name>`.
    pub fn from_uri_ref(name: &str) -> (id: MenuItemId)
        ensures
            id.0 == uuid_v5_of_url_name(name@),
    {
        MenuItemId(uuid_v5_url(name))
    }
}

impl TypedId for MenuItemId {
    open spec fn spec_value(&self) -> u128 {
        self.0
    }

    fn value(&self) -> (v: u128) {
        self.0
    }

    fn from_value(value: u128) -> (id: Self) {
        MenuItemId(value)
    }
}

/// Identifies an order.
#[derive(Clone, Copy, Debug, PartialEq, Eq, Hash, Structural)]
pub struct OrderId(pub u128);

impl OrderId {
    /// A fresh identifier for the present instant: a time-ordered
    /// identifier, whatever instant and random bits it carries.
    pub fn new() -> (id: OrderId)
        ensures
            is_time_ordered(id.0),
    {
        OrderId(uuid_now_v7())
    }

    /// A fresh time-ordered identifier for the instant `unix_ms`, which it
    /// carries in its top bits when `unix_ms` fits in forty-eight bits.
    pub fn mint(unix_ms: u64) -> (id: OrderId)
        ensures
            is_time_ordered(id.0),
            unix_ms < 0x1_0000_0000_0000 ==> minted_at_ms(id.0) == unix_ms,
    {
        OrderId(mint_time_ordered(unix_ms))
    }
}

impl TypedId for OrderId {
    open spec fn spec_value(&self) -> u128 {
        self.0
    }

    fn value(&self) -> (v: u128) {
        self.0
    }

    fn from_value(value: u128) -> (id: Self) {
        OrderId(value)
    }
}

/// Identifies one line of an order.
#[derive(Clone, Copy, Debug, PartialEq, Eq, Hash, Structural)]
pub struct OrderLineId(pub u128);

impl OrderLineId {
    /// A fresh identifier for the present instant: a time-ordered
    /// identifier, whatever instant and random bits it carries.
    pub fn new() -> (id: OrderLineId)
        ensures
            is_time_ordered(id.0),
    {
        OrderLineId(uuid_now_v7())
    }

    /// A fresh time-ordered identifier for the instant `unix_ms`, which it
    /// carries in its top bits when `unix_ms` fits in forty-eight bits.
    pub fn mint(unix_ms: u64) -> (id: OrderLineId)
        ensures
            is_time_ordered(id.0),
            unix_ms < 0x1_0000_0000_0000 ==> minted_at_ms(id.0) == unix_ms,
    {
        OrderLineId(mint_time_ordered(unix_ms))
    }
}

impl TypedId for OrderLineId {
    open spec fn spec_value(&self) -> u128 {
        self.0
    }

    fn value(&self) -> (v: u128) {
        self.0
    }

    fn from_value(value: u128) -> (id: Self) {
        OrderLineId(value)
    }
}

/// Identifies a customer or a courier.
#[derive(Clone, Copy, Debug, PartialEq, Eq, Hash, Structural)]
pub struct PersonId(pub u128);

impl PersonId {
    /// A fresh identifier for the present instant: a time-ordered
    /// identifier, whatever instant and random bits it carries.
    pub fn new() -> (id: PersonId)
        ensures
            is_time_ordered(id.0),
    {
        PersonId(uuid_now_v7())
    }

    /// A fresh time-ordered identifier for the instant `unix_ms`, which it
    /// carries in its top bits when `unix_ms` fits in forty-eight bits.
    pub fn mint(unix_ms: u64) -> (id: PersonId)
        ensures
            is_time_ordered(id.0),
            unix_ms < 0x1_0000_0000_0000 ==> minted_at_ms(id.0) == unix_ms,
    {
        PersonId(mint_time_ordered(unix_ms))
    }
}

impl TypedId for PersonId {
    open spec fn spec_value(&self) -> u128 {
        self.0
    }

    fn value(&self) -> (v: u128) {
        self.0
    }

    fn from_value(value: u128) -> (id: Self) {
        PersonId(value)
    }
}

} // verus!

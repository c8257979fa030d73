use universe::error::Error;
use universe::idents::{
    BrandId, KitchenId, MenuItemId, OrderId, OrderLineId, PersonId, SiteId, StationId, TypedId,
};

#[test]
fn name_derived_identifiers_are_stable() {
    // version 5 under the URL namespace, as published for "example.org"
    let id = SiteId::from_uri_ref("example.org");
    assert_eq!(id.to_text(), "54a35416-963c-5dd6-a1e2-5ab7bb5bafc7");
    assert_eq!(id.value(), 0x54a35416_963c_5dd6_a1e2_5ab7bb5bafc7);
    assert_eq!(SiteId::from_uri_ref("example.org"), id);
    assert_eq!(KitchenId::from_uri_ref("example.org").value(), id.value());
    assert_eq!(StationId::from_uri_ref("example.org").value(), id.value());
    assert_eq!(BrandId::from_uri_ref("example.org").value(), id.value());
    assert_eq!(MenuItemId::from_uri_ref("example.org").value(), id.value());
    assert_ne!(SiteId::from_uri_ref("sites/london"), SiteId::from_uri_ref("sites/amsterdam"));
}

#[test]
fn identifiers_are_sixteen_bytes_most_significant_first() {
    let id = OrderId::from_value(0x0102_0304_0506_0708_090a_0b0c_0d0e_0f10);
    let bytes = id.to_bytes();
    assert_eq!(bytes, (1u8..=16).collect::<Vec<u8>>());
    assert_eq!(OrderId::try_from_bytes(&bytes), Ok(id));
    assert_eq!(OrderId::try_from_bytes(&bytes[..15]), Err(Error::InvalidUuid));
    assert_eq!(OrderId::try_from_bytes(&[]), Err(Error::InvalidUuid));
    assert_eq!(id.to_text(), "01020304-0506-0708-090a-0b0c0d0e0f10");
}

#[test]
fn minted_identifiers_carry_their_instant() {
    let at: u64 = 1_761_675_872_000;
    let a = OrderId::mint(at);
    let b = OrderId::mint(at);
    assert_eq!((a.value() >> 80) as u64, at);
    assert_eq!((b.value() >> 80) as u64, at);
    assert_ne!(a, b);
    assert_eq!((OrderLineId::mint(5).value() >> 80) as u64, 5);
    assert_eq!((PersonId::mint(0).value() >> 80) as u64, 0);
    // version 7, variant 10
    assert_eq!((a.value() >> 76) & 0xf, 7);
    assert_eq!((a.value() >> 62) & 0x3, 2);
    assert_ne!(PersonId::new(), PersonId::new());
    assert_eq!((OrderId::new().value() >> 76) & 0xf, 7);
    assert_eq!((OrderLineId::new().value() >> 76) & 0xf, 7);
}

#[test]
fn errors_have_a_label_and_a_weight() {
    assert_eq!(Error::NotFound.label(), "Not found");
    assert_eq!(Error::invalid_data("x").label(), "Invalid data");
    assert_eq!(Error::invalid_data("x"), Error::InvalidData("x".to_string()));
    assert_eq!(Error::invalid_geometry("y"), Error::InvalidGeometry("y".to_string()));
    assert_eq!(Error::internal("z"), Error::InternalError("z".to_string()));
    assert_eq!(Error::generic("w"), Error::External("w".to_string()));
    assert_eq!(Error::MissingGeometry.label(), "Missing geometry");
    assert_eq!(Error::MissingInput("m".to_string()).label(), "Missing input");
    assert_eq!(Error::InvalidUuid.label(), "Invalid uuid");
    assert_eq!(Error::InvalidUrl.label(), "Invalid url");
    assert!(Error::internal("z").is_fatal());
    assert!(!Error::invalid_data("x").is_fatal());
    assert!(!Error::NotFound.is_fatal());
}

#[test]
fn fresh_identifiers_are_laid_out_as_time_ordered() {
    let layout = |value: u128| ((value >> 76) & 0xf, (value >> 62) & 0x3);
    for _ in 0..100 {
        for value in [OrderId::new().0, OrderLineId::new().0, PersonId::new().0] {
            assert_eq!(layout(value), (7, 2));
            let read = uuid::Uuid::from_u128(value);
            assert_eq!(read.get_version_num(), 7);
            assert_eq!(read.get_variant(), uuid::Variant::RFC4122);
        }
    }
    for unix_ms in [0u64, 1, 999, 1_761_675_872_000, (1 << 48) - 1, 1 << 48, u64::MAX] {
        for value in [
            OrderId::mint(unix_ms).0,
            OrderLineId::mint(unix_ms).0,
            PersonId::mint(unix_ms).0,
        ] {
            assert_eq!(layout(value), (7, 2));
            if unix_ms < (1 << 48) {
                assert_eq!((value >> 80) as u64, unix_ms);
            }
        }
    }
    // a name-derived identifier is of another version
    assert_eq!((SiteId::from_uri_ref("example.org").value() >> 76) & 0xf, 5);
}

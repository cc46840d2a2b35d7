use builder_admin::flags::{Feature, FeatureFlags, ADMIN, BUILDER, KNOWN_BITS};

#[test]
fn flag_bits_are_fixed_and_distinct() {
    assert_eq!(ADMIN, 0b01);
    assert_eq!(BUILDER, 0b10);
    assert_eq!(KNOWN_BITS, ADMIN | BUILDER);
    assert_eq!(ADMIN & BUILDER, 0);
    assert_eq!(Feature::Admin.bit(), 1);
    assert_eq!(Feature::Builder.bit(), 2);
}

#[test]
fn feature_names() {
    assert_eq!(Feature::Admin.name(), "ADMIN");
    assert_eq!(Feature::Builder.name(), "BUILDER");
}

#[test]
fn empty_set_has_no_bits() {
    let none = FeatureFlags::empty();
    assert_eq!(none.bits(), 0);
    assert!(none.is_empty());
    assert!(!none.has(Feature::Admin));
    assert!(!none.has(Feature::Builder));
}

#[test]
fn full_set_has_every_feature() {
    let all = FeatureFlags::all();
    assert_eq!(all.bits(), 3);
    assert!(!all.is_empty());
    assert!(all.has(Feature::Admin));
    assert!(all.has(Feature::Builder));
}

#[test]
fn from_bits_accepts_known_bits() {
    assert_eq!(FeatureFlags::from_bits(0).map(|f| f.bits()), Some(0));
    assert_eq!(FeatureFlags::from_bits(1).map(|f| f.bits()), Some(1));
    assert_eq!(FeatureFlags::from_bits(2).map(|f| f.bits()), Some(2));
    assert_eq!(FeatureFlags::from_bits(3).map(|f| f.bits()), Some(3));
}

#[test]
fn from_bits_rejects_unknown_bits() {
    assert_eq!(FeatureFlags::from_bits(4), None);
    assert_eq!(FeatureFlags::from_bits(5), None);
    assert_eq!(FeatureFlags::from_bits(0x8000_0000), None);
    assert_eq!(FeatureFlags::from_bits(u32::MAX), None);
}

#[test]
fn union_combines_bits() {
    let admin = FeatureFlags::from_bits(ADMIN).unwrap();
    let builder = FeatureFlags::from_bits(BUILDER).unwrap();
    assert_eq!(admin.union(builder).bits(), 3);
    assert_eq!(builder.union(admin).bits(), 3);
    assert_eq!(admin.union(admin).bits(), 1);
    assert_eq!(admin.union(FeatureFlags::empty()), admin);
    assert!(admin.has(Feature::Admin));
    assert!(!admin.has(Feature::Builder));
    assert!(builder.has(Feature::Builder));
}

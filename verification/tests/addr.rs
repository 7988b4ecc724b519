use elfo::addr::Addr;

#[test]
fn null_is_all_zero() {
    assert!(Addr::null().is_null());
    assert_eq!(Addr::null().into_bits(), 0);
    assert_eq!(Addr::from_parts(0, 0, 0), Addr::null());
}

#[test]
fn parts_round_trip() {
    let addr = Addr::from_parts(3, 7, 42);
    assert_eq!(addr.group_slot(), 3);
    assert_eq!(addr.generation(), 7);
    assert_eq!(addr.local(), 42);
    assert!(!addr.is_null());
}

#[test]
fn bits_have_the_documented_layout() {
    let addr = Addr::from_parts(0x0102, 0x0304, 0x0506_0708);
    assert_eq!(addr.into_bits(), 0x0102_0304_0506_0708);
    assert_eq!(Addr::from_bits(0x0102_0304_0506_0708), addr);
}

#[test]
fn largest_parts_fit() {
    let addr = Addr::from_parts(u16::MAX, u16::MAX, u32::MAX);
    assert_eq!(addr.into_bits(), u64::MAX);
    assert_eq!(addr.group_slot(), u16::MAX);
    assert_eq!(addr.generation(), u16::MAX);
    assert_eq!(addr.local(), u32::MAX);
}

#[test]
fn addresses_differ_when_a_part_differs() {
    let addr = Addr::from_parts(1, 1, 1);
    assert_ne!(addr, Addr::from_parts(2, 1, 1));
    assert_ne!(addr, Addr::from_parts(1, 2, 1));
    assert_ne!(addr, Addr::from_parts(1, 1, 2));
    assert_eq!(addr, Addr::from_parts(1, 1, 1));
}

use rust_os::shared::addr::{AddrError, VirtAddr};

#[test]
fn check_sign_extension() {
    let virt_positive = VirtAddr::new(0xf000_0000_0000_0023);
    assert_eq!(0x0000_0000_0000_0023, virt_positive.0);

    let virt_negative = VirtAddr::new(0xffff_800f_0000_0023);
    assert_eq!(0xffff_800f_0000_0023, virt_negative.0);
}

#[test]
fn check_ctr_new_checked() {
    let virt1 = VirtAddr::new_checked(0x0222).unwrap();
    assert_eq!(0x0222, virt1.0);

    let virt2 = VirtAddr::new_checked(0xffff_800f_0000_0023).unwrap();
    assert_eq!(0xffff_800f_0000_0023, virt2.0);

    let virt3 = VirtAddr::new_checked(0x0000_8000_0700_0000).unwrap();
    assert_eq!(0xffff_8000_0700_0000, virt3.0);

    assert!(VirtAddr::new_checked(0x1020_0000_0000_0002).is_err());
}

#[test]
fn checked_constructor_extends_bit_47() {
    let virt = VirtAddr::new_checked(0x0000_8000_0000_0000).unwrap();
    assert_eq!(0xffff_8000_0000_0000, virt.0);
    assert_eq!(
        VirtAddr::new_checked(0x1020_0000_0000_0002),
        Err(AddrError::BadVirtualAddress)
    );
}

#[test]
fn checked_constructor_rejects_set_high_bits_over_clear_bit_47() {
    assert_eq!(
        VirtAddr::new_checked(0xffff_0000_0000_0000),
        Err(AddrError::BadVirtualAddress)
    );
    assert_eq!(VirtAddr::new_checked(0x0000_7fff_ffff_ffff).unwrap().0, 0x0000_7fff_ffff_ffff);
    assert_eq!(VirtAddr::new_checked(0xffff_8000_0000_0000).unwrap().0, 0xffff_8000_0000_0000);
}

#[test]
fn offset_recanonicalizes_and_reports_overflow() {
    let base = VirtAddr::new(0x0000_7fff_ffff_f000);
    assert_eq!(base.offset(0x1000).unwrap().0, 0xffff_8000_0000_0000);
    assert_eq!(VirtAddr(u64::MAX).offset(1), Err(AddrError::Overflow));
    assert_eq!(VirtAddr::zero().0, 0);
    assert_eq!(VirtAddr::from_ptr(0x1234).0, 0x1234);
}

#[test]
fn address_arithmetic_is_canonical() {
    let a = VirtAddr::new(0x0000_7000_0000_0000);
    let b = VirtAddr::new(0x0000_1000_0000_0000);
    assert_eq!(a.plus(b).0, 0xffff_8000_0000_0000);
    assert_eq!(VirtAddr(0xffff_ffff_ffff_f123).bit_and(VirtAddr(0x0000_ffff_ffff_f000)).0, 0xffff_ffff_ffff_f000);
}

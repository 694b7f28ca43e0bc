use kernel::paging::{addr_to_vpage, is_user_addr, vpage_to_addr, FrameVpageMap, USER_AREA_START};

#[test]
fn user_area_bounds() {
    assert!(!is_user_addr(USER_AREA_START - 1));
    assert!(is_user_addr(USER_AREA_START));
    assert!(is_user_addr(USER_AREA_START + 256 * 4096 - 1));
    assert!(!is_user_addr(USER_AREA_START + 256 * 4096));
}

#[test]
fn vpage_address_roundtrip() {
    assert_eq!(vpage_to_addr(0), 0x4000_0000_0000);
    assert_eq!(vpage_to_addr(3), 0x4000_0000_3000);
    assert_eq!(addr_to_vpage(0x4000_0000_3fff), 3);
    assert_eq!(addr_to_vpage(vpage_to_addr(255)), 255);
}

#[test]
fn address_past_bit_47_is_sign_extended() {
    // START + 2^34 pages = 2^47: bit 47 set, bits 48..64 clear.
    assert_eq!(vpage_to_addr(1u64 << 34), 0xffff_8000_0000_0000);
}

#[test]
fn frame_vpage_map_records_last_mapping() {
    let mut m = FrameVpageMap::new();
    assert_eq!(m.frame_to_vpage(3), None);
    m.record(3, 17);
    m.record(4, 18);
    m.record(3, 19);
    assert_eq!(m.frame_to_vpage(3), Some(19));
    assert_eq!(m.frame_to_vpage(4), Some(18));
    assert_eq!(m.frame_to_vpage(0), None);
    m.clear(3);
    assert_eq!(m.frame_to_vpage(3), None);
    assert_eq!(m.frame_to_vpage(4), Some(18));
}

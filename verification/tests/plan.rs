use alter_rsps::pe::{DataDirectory, SectionHeader};
use alter_rsps::rebuild::{
    copied_sections, copy_span, directory_range, output_section_count,
    rich_reserve_length, rsps_section_data, rsps_section_name, section_file_range, JAV_CONFIG_URL,
    WHITELIST_DOMAIN, WORLD_LIST_URL,
};

fn dir(virtual_address: u32, size: u32) -> DataDirectory {
    DataDirectory { virtual_address, size }
}

fn header(virtual_address: u32, virtual_size: u32, raw: u32, raw_size: u32) -> SectionHeader {
    SectionHeader {
        name: *b".x\0\0\0\0\0\0",
        virtual_size,
        virtual_address,
        size_of_raw_data: raw_size,
        pointer_to_raw_data: raw,
        characteristics: 0,
    }
}

#[test]
fn rsps_payload_holds_the_three_strings() {
    let data = rsps_section_data();
    let mut expected = Vec::new();
    expected.extend_from_slice(JAV_CONFIG_URL.as_bytes());
    expected.extend_from_slice(WHITELIST_DOMAIN.as_bytes());
    expected.extend_from_slice(WORLD_LIST_URL.as_bytes());
    assert_eq!(data, expected);
    assert_eq!(data.len(), 85 + 26 + 36);
    assert_eq!(JAV_CONFIG_URL, "https://raw.githubusercontent.com/AlterRSPS/Resources/main/jav_configs/jav_config.ws\0");
    assert_eq!(rsps_section_name(), *b".rsps\0\0\0");
}

#[test]
fn directory_ranges_need_a_present_non_zero_entry() {
    let dirs = vec![dir(0x10, 1), dir(0, 5)];
    assert_eq!(directory_range(&dirs, 0), Some((0x10, 1)));
    assert_eq!(directory_range(&dirs, 1), None);
    assert_eq!(directory_range(&dirs, 5), None);
}

#[test]
fn copied_sections_skip_the_relocation_table() {
    let hs = vec![header(0x1000, 0x100, 0x200, 0x200), header(0x2000, 0x80, 0x400, 0x200), header(0x3000, 0x10, 0x600, 0x200)];
    assert_eq!(copied_sections(&hs, Some((0x2000, 0x80))), vec![0, 2]);
    assert_eq!(copied_sections(&hs, Some((0x2000, 0x81))), vec![0, 1, 2]);
    assert_eq!(copied_sections(&hs, None), vec![0, 1, 2]);
}

#[test]
fn output_counts_relocations_and_rsps() {
    assert_eq!(output_section_count(3, true), Some(5));
    assert_eq!(output_section_count(3, false), Some(4));
    assert_eq!(output_section_count(65533, true), Some(65535));
    assert_eq!(output_section_count(65535, false), None);
    assert_eq!(output_section_count(65534, true), None);
}

#[test]
fn section_file_range_uses_the_smaller_size() {
    assert_eq!(section_file_range(&header(0x1000, 0x100, 0x200, 0x200)), (0x200, 0x100));
    assert_eq!(section_file_range(&header(0x1000, 0x300, 0x200, 0x200)), (0x200, 0x200));
}

#[test]
fn spans_must_lie_in_the_image() {
    assert_eq!(copy_span(2, 3, 5), Some((2, 5)));
    assert_eq!(copy_span(2, 4, 5), None);
    assert_eq!(copy_span(6, 0, 5), None);
    assert_eq!(copy_span(5, 0, 5), Some((5, 5)));
}

#[test]
fn rich_reservations_fit_in_32_bits() {
    assert_eq!(rich_reserve_length(0x20), Some(0x28));
    assert_eq!(rich_reserve_length(0xffff_fff7), Some(0xffff_ffff));
    assert_eq!(rich_reserve_length(0xffff_fff8), None);
    assert_eq!(rich_reserve_length(0x1_0000_0005), Some(13));
}

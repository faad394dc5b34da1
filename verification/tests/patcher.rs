use alter_rsps::bytes::{read_u32_le, write_u32_le};
use alter_rsps::patch::{
    find_string_in_client, get_section_by_name, replace_client_string, try_replace_client_string,
    FindError, LookupError, PatchError,
};
use alter_rsps::rebuild::{
    create_rsps_section, patch_rsps, redirect_client_strings, try_patch_rsps, rsps_section_data, PatchRspsError,
    RebuildError, JAV_CONFIG_URL, ORIGINAL_JAV_CONFIG_URL, ORIGINAL_WHITELIST,
    ORIGINAL_WORLD_LIST_URL, RSPS_CHARACTERISTICS, WHITELIST_DOMAIN, WORLD_LIST_URL,
};

const TEXT_RAW: u32 = 0x200;
const TEXT_VA: u32 = 0x1000;

struct Sec {
    name: [u8; 8],
    data: Vec<u8>,
    characteristics: u32,
}

fn name(s: &str) -> [u8; 8] {
    let mut n = [0u8; 8];
    n[..s.len()].copy_from_slice(s.as_bytes());
    n
}

fn put16(img: &mut [u8], at: usize, v: u16) {
    img[at..at + 2].copy_from_slice(&v.to_le_bytes());
}

fn put32(img: &mut [u8], at: usize, v: u32) {
    img[at..at + 4].copy_from_slice(&v.to_le_bytes());
}

fn put64(img: &mut [u8], at: usize, v: u64) {
    img[at..at + 8].copy_from_slice(&v.to_le_bytes());
}

fn get32(img: &[u8], at: usize) -> u32 {
    u32::from_le_bytes(img[at..at + 4].try_into().unwrap())
}

/// A 64-bit PE image with the NT headers at `nt`, 16 data directories, and the
/// given sections laid out from file offset 0x200 and address 0x1000, each in
/// its own 0x200-byte file block and 0x1000-byte page.
fn build_pe_at(nt: usize, secs: &[Sec]) -> Vec<u8> {
    let mut img = vec![0u8; 0x200];
    img[0] = b'M';
    img[1] = b'Z';
    put32(&mut img, 0x3c, nt as u32);
    put32(&mut img, nt, 0x4550);
    put16(&mut img, nt + 4, 0x8664);
    put16(&mut img, nt + 6, secs.len() as u16);
    put16(&mut img, nt + 20, 240);
    put16(&mut img, nt + 22, 0x22);
    let opt = nt + 24;
    put16(&mut img, opt, 0x20b);
    put32(&mut img, opt + 16, TEXT_VA);
    put64(&mut img, opt + 24, 0x1_4000_0000);
    put32(&mut img, opt + 32, 0x1000);
    put32(&mut img, opt + 36, 0x200);
    put16(&mut img, opt + 40, 6);
    put16(&mut img, opt + 48, 6);
    put32(&mut img, opt + 56, 0x1000 * (secs.len() as u32 + 1));
    put32(&mut img, opt + 60, 0x200);
    put16(&mut img, opt + 68, 2);
    put64(&mut img, opt + 72, 0x10_0000);
    put64(&mut img, opt + 80, 0x1000);
    put64(&mut img, opt + 88, 0x10_0000);
    put64(&mut img, opt + 96, 0x1000);
    put32(&mut img, opt + 108, 16);
    let table = opt + 240;
    for (k, s) in secs.iter().enumerate() {
        let h = table + 40 * k;
        img[h..h + 8].copy_from_slice(&s.name);
        put32(&mut img, h + 8, s.data.len() as u32);
        put32(&mut img, h + 12, TEXT_VA + 0x1000 * k as u32);
        put32(&mut img, h + 16, 0x200);
        put32(&mut img, h + 20, TEXT_RAW + 0x200 * k as u32);
        put32(&mut img, h + 36, s.characteristics);
    }
    for s in secs {
        let mut block = s.data.clone();
        block.resize(0x200, 0);
        img.extend_from_slice(&block);
    }
    img
}

fn build_pe(secs: &[Sec]) -> Vec<u8> {
    build_pe_at(0x40, secs)
}

const CODE: u32 = 0x6000_0020;
const RDATA: u32 = 0x4000_0040;

/// Places at `.text` offset `k` an operand that refers to address `target`.
fn operand_to(text: &mut [u8], k: usize, target: u32) {
    let i = TEXT_RAW + k as u32;
    let v = target.wrapping_sub(i + 4 + (TEXT_VA - TEXT_RAW));
    put32(text, k, v);
}

/// The address that the operand at file offset `i` of `.text` refers to.
fn operand_target(img: &[u8], i: usize) -> u64 {
    i as u64 + 4 + get32(img, i) as u64 + (TEXT_VA - TEXT_RAW) as u64
}

fn rdata_with(strings: &[&str]) -> (Vec<u8>, Vec<u32>) {
    let mut data = vec![0xccu8; 16];
    let mut addrs = Vec::new();
    for s in strings {
        addrs.push(0x2000 + data.len() as u32);
        data.extend_from_slice(s.as_bytes());
    }
    (data, addrs)
}

/// `.text`, `.rdata` holding `old`, `.rsps` holding `new`, and an operand at
/// `.text` offset 0x40 that refers to `old`.
fn image_with_reference(old: &str, new: &str) -> (Vec<u8>, u32, u32) {
    let (rdata, addrs) = rdata_with(&[old]);
    let mut text = vec![0x90u8; 0x100];
    operand_to(&mut text, 0x40, addrs[0]);
    let mut rsps = vec![0u8; 8];
    rsps.extend_from_slice(new.as_bytes());
    let img = build_pe(&[
        Sec { name: name(".text"), data: text, characteristics: CODE },
        Sec { name: name(".rdata"), data: rdata, characteristics: RDATA },
        Sec { name: name(".rsps"), data: rsps, characteristics: RDATA },
    ]);
    (img, addrs[0], 0x3000 + 8)
}

#[test]
fn sections_are_found_by_name() {
    let (img, _, _) = image_with_reference("old\0", "new\0");
    let text = get_section_by_name(&img, ".text").unwrap();
    assert_eq!(text.name, name(".text"));
    assert_eq!(text.virtual_address, 0x1000);
    assert_eq!(text.pointer_to_raw_data, 0x200);
    assert_eq!(text.virtual_size, 0x100);
    assert_eq!(text.size_of_raw_data, 0x200);
    assert_eq!(text.characteristics, CODE);
    let rsps = get_section_by_name(&img, ".rsps").unwrap();
    assert_eq!(rsps.virtual_address, 0x3000);
    assert_eq!(rsps.pointer_to_raw_data, 0x600);
    assert_eq!(get_section_by_name(&img, ".data").unwrap_err(), LookupError::NotFound);
    assert_eq!(get_section_by_name(&img, ".tex").unwrap_err(), LookupError::NotFound);
}

#[test]
fn malformed_headers_are_rejected() {
    let (img, _, _) = image_with_reference("old\0", "new\0");
    let mut bad_dos = img.clone();
    bad_dos[0] = b'N';
    assert_eq!(get_section_by_name(&bad_dos, ".text").unwrap_err(), LookupError::Malformed);
    assert_eq!(get_section_by_name(&img[..60].to_vec(), ".text").unwrap_err(), LookupError::Malformed);
    let mut bad_pe = img.clone();
    bad_pe[0x40] = b'X';
    assert_eq!(get_section_by_name(&bad_pe, ".text").unwrap_err(), LookupError::Malformed);
    let mut bad_magic = img.clone();
    put16(&mut bad_magic, 0x40 + 24, 0x10b);
    assert_eq!(get_section_by_name(&bad_magic, ".text").unwrap_err(), LookupError::Malformed);
    let mut too_many = img.clone();
    put16(&mut too_many, 0x40 + 6, 0xffff);
    assert_eq!(get_section_by_name(&too_many, ".text").unwrap_err(), LookupError::Malformed);
    let mut too_many_dirs = img.clone();
    put32(&mut too_many_dirs, 0x40 + 24 + 108, 17);
    assert_eq!(get_section_by_name(&too_many_dirs, ".text").unwrap_err(), LookupError::Malformed);
}

#[test]
fn section_names_are_read_up_to_nul() {
    let img = build_pe(&[
        Sec { name: *b"abcdefgh", data: vec![1], characteristics: RDATA },
        Sec { name: name(".text"), data: vec![1], characteristics: CODE },
    ]);
    assert_eq!(get_section_by_name(&img, ".text").unwrap_err(), LookupError::UnterminatedName);
    let img = build_pe(&[
        Sec { name: [0xff, b'a', 0, 0, 0, 0, 0, 0], data: vec![1], characteristics: RDATA },
        Sec { name: name(".text"), data: vec![1], characteristics: CODE },
    ]);
    assert_eq!(get_section_by_name(&img, ".text").unwrap_err(), LookupError::InvalidName);
    let img = build_pe(&[
        Sec { name: *b".text\0zz", data: vec![1], characteristics: CODE },
    ]);
    assert!(get_section_by_name(&img, ".text").is_ok());
}

#[test]
fn strings_are_found_at_their_virtual_address() {
    let (rdata, addrs) = rdata_with(&["first\0", "second\0"]);
    let img = build_pe(&[Sec { name: name(".rdata"), data: rdata, characteristics: RDATA }]);
    assert_eq!(find_string_in_client(&img, ".rdata", b"first\0").unwrap(), addrs[0] as u64 - 0x1000);
    assert_eq!(find_string_in_client(&img, ".rdata", b"second\0").unwrap(), addrs[1] as u64 - 0x1000);
    assert_eq!(find_string_in_client(&img, ".rdata", b"cond").unwrap(), addrs[1] as u64 - 0x1000 + 2);
    assert_eq!(find_string_in_client(&img, ".rdata", b"third").unwrap_err(), FindError::NotFound);
    assert_eq!(find_string_in_client(&img, ".rdata", b"").unwrap_err(), FindError::NotFound);
    assert_eq!(
        find_string_in_client(&img, ".text", b"first").unwrap_err(),
        FindError::Section(LookupError::NotFound)
    );
}

#[test]
fn a_match_that_runs_past_the_image_is_out_of_bounds() {
    let mut img = build_pe(&[Sec { name: name(".rdata"), data: b"xxab".to_vec(), characteristics: RDATA }]);
    img.truncate(0x200 + 4);
    put32(&mut img, 0x40 + 24 + 240 + 16, 4);
    assert_eq!(find_string_in_client(&img, ".rdata", b"abc").unwrap_err(), FindError::OutOfBounds);
    assert_eq!(find_string_in_client(&img, ".rdata", b"xxa").unwrap(), 0x1000);
    assert_eq!(find_string_in_client(&img, ".rdata", b"q").unwrap_err(), FindError::NotFound);
}

#[test]
fn replacing_a_string_redirects_its_operand() {
    let (mut img, old_addr, new_addr) = image_with_reference("old-string\0", "new\0");
    let i = (TEXT_RAW + 0x40) as usize;
    assert_eq!(operand_target(&img, i), old_addr as u64);
    let before = img.clone();
    replace_client_string(&mut img, b"old-string\0", b"new\0").unwrap();
    assert_eq!(operand_target(&img, i), new_addr as u64);
    assert_eq!(img.len(), before.len());
    for t in 0..img.len() {
        if t < i - 30 || t >= i + 4 {
            assert_eq!(img[t], before[t]);
        }
    }
}

#[test]
fn each_replacement_takes_the_earliest_remaining_reference() {
    let (rdata, addrs) = rdata_with(&["old-string\0"]);
    let mut text = vec![0x90u8; 0x100];
    operand_to(&mut text, 0x40, addrs[0]);
    operand_to(&mut text, 0x80, addrs[0]);
    let mut rsps = vec![0u8; 8];
    rsps.extend_from_slice(b"new\0");
    let mut img = build_pe(&[
        Sec { name: name(".text"), data: text, characteristics: CODE },
        Sec { name: name(".rdata"), data: rdata, characteristics: RDATA },
        Sec { name: name(".rsps"), data: rsps, characteristics: RDATA },
    ]);
    let (first, second) = ((TEXT_RAW + 0x40) as usize, (TEXT_RAW + 0x80) as usize);
    replace_client_string(&mut img, b"old-string\0", b"new\0").unwrap();
    assert_eq!(operand_target(&img, first), 0x3008);
    assert_eq!(operand_target(&img, second), addrs[0] as u64);
    replace_client_string(&mut img, b"old-string\0", b"new\0").unwrap();
    assert_eq!(operand_target(&img, first), 0x3008);
    assert_eq!(operand_target(&img, second), 0x3008);
}

#[test]
fn replacing_a_string_fixes_up_its_length_operand() {
    let (rdata, addrs) = rdata_with(&["old-string\0"]);
    let old_end = addrs[0] + 11 - 1;
    let mut text = vec![0x90u8; 0x100];
    operand_to(&mut text, 0x40, addrs[0]);
    operand_to(&mut text, 0x40 - 10, old_end);
    let mut rsps = vec![0u8; 8];
    rsps.extend_from_slice(b"new\0");
    let mut img = build_pe(&[
        Sec { name: name(".text"), data: text, characteristics: CODE },
        Sec { name: name(".rdata"), data: rdata, characteristics: RDATA },
        Sec { name: name(".rsps"), data: rsps, characteristics: RDATA },
    ]);
    replace_client_string(&mut img, b"old-string\0", b"new\0").unwrap();
    let i = (TEXT_RAW + 0x40) as usize;
    let j = i - 10;
    let new_offset = 0x3008 - (i as u32 + 4) - TEXT_VA + TEXT_RAW;
    assert_eq!(get32(&img, i), new_offset);
    assert_eq!(get32(&img, j), new_offset + 4 + 9);
}

#[test]
fn an_unreferenced_string_leaves_the_image_as_it_was() {
    let (mut img, _, _) = image_with_reference("old\0", "new\0");
    put32(&mut img, (TEXT_RAW + 0x40) as usize, 0x9090_9090);
    let before = img.clone();
    replace_client_string(&mut img, b"old\0", b"new\0").unwrap();
    assert_eq!(img, before);
}

#[test]
fn replacing_reports_missing_strings_and_sections() {
    let (mut img, _, _) = image_with_reference("old\0", "new\0");
    let before = img.clone();
    assert_eq!(
        try_replace_client_string(&mut img, b"absent\0", b"new\0").unwrap_err(),
        PatchError::InputString(FindError::NotFound)
    );
    assert_eq!(
        try_replace_client_string(&mut img, b"old\0", b"absent\0").unwrap_err(),
        PatchError::ReplaceString(FindError::NotFound)
    );
    assert_eq!(img, before);
    let (rdata, _) = rdata_with(&["old\0"]);
    let mut no_text = build_pe(&[
        Sec { name: name(".rdata"), data: rdata, characteristics: RDATA },
        Sec { name: name(".rsps"), data: b"new\0".to_vec(), characteristics: RDATA },
    ]);
    assert_eq!(
        replace_client_string(&mut no_text, b"old\0", b"new\0").unwrap_err(),
        PatchError::TextSection(LookupError::NotFound)
    );
    let mut no_rsps = build_pe(&[Sec { name: name(".rdata"), data: b"old\0".to_vec(), characteristics: RDATA }]);
    assert_eq!(
        try_replace_client_string(&mut no_rsps, b"old\0", b"new\0").unwrap_err(),
        PatchError::ReplaceString(FindError::Section(LookupError::NotFound))
    );
}

#[test]
fn a_text_scan_past_the_image_is_out_of_bounds() {
    let (mut img, _, _) = image_with_reference("old\0", "new\0");
    put32(&mut img, (TEXT_RAW + 0x40) as usize, 0x9090_9090);
    put32(&mut img, 0x40 + 24 + 240 + 16, 0x2000);
    let before = img.clone();
    assert_eq!(replace_client_string(&mut img, b"old\0", b"new\0").unwrap_err(), PatchError::OutOfBounds);
    assert_eq!(img, before);
}

#[test]
fn a_text_section_below_its_file_offset_overflows() {
    let (mut img, _, _) = image_with_reference("old\0", "new\0");
    put32(&mut img, 0x40 + 24 + 240 + 12, 0x100);
    assert_eq!(replace_client_string(&mut img, b"old\0", b"new\0").unwrap_err(), PatchError::Overflow);
}

#[test]
fn u32_operands_roundtrip() {
    let mut v = vec![0u8; 8];
    write_u32_le(&mut v, 2, 0xdead_beef);
    assert_eq!(v, vec![0, 0, 0xef, 0xbe, 0xad, 0xde, 0, 0]);
    assert_eq!(read_u32_le(&v, 2), 0xdead_beef);
}

fn client_image() -> (Vec<u8>, Vec<u32>) {
    let (rdata, addrs) = rdata_with(&[ORIGINAL_JAV_CONFIG_URL, ORIGINAL_WORLD_LIST_URL, ORIGINAL_WHITELIST]);
    let mut text = vec![0x90u8; 0x180];
    operand_to(&mut text, 0x40, addrs[0]);
    operand_to(&mut text, 0x80, addrs[1]);
    operand_to(&mut text, 0xc0, addrs[2]);
    let img = build_pe(&[
        Sec { name: name(".text"), data: text, characteristics: CODE },
        Sec { name: name(".rdata"), data: rdata, characteristics: RDATA },
    ]);
    (img, addrs)
}

#[test]
fn rebuilding_adds_the_rsps_section() {
    let (img, _) = client_image();
    let out = create_rsps_section(&img).unwrap();
    let rsps = get_section_by_name(&out, ".rsps").unwrap();
    assert_eq!(rsps.characteristics, RSPS_CHARACTERISTICS);
    assert_eq!(rsps.virtual_size, 0x1000);
    assert_eq!(rsps.virtual_address, 0x3000);
    let start = rsps.pointer_to_raw_data as usize;
    let payload = rsps_section_data();
    assert_eq!(&out[start..start + payload.len()], &payload[..]);
    assert_eq!(find_string_in_client(&out, ".rsps", JAV_CONFIG_URL.as_bytes()).unwrap(), 0x3000);
    let text = get_section_by_name(&out, ".text").unwrap();
    assert_eq!(text.virtual_address, 0x1000);
    let old_text = get_section_by_name(&img, ".text").unwrap();
    let (a, b) = (text.pointer_to_raw_data as usize, old_text.pointer_to_raw_data as usize);
    assert_eq!(&out[a..a + 0x180], &img[b..b + 0x180]);
}

#[test]
fn rebuilding_rejects_malformed_images() {
    let (mut img, _) = client_image();
    img[1] = b'Y';
    assert_eq!(create_rsps_section(&img).unwrap_err(), RebuildError::Malformed);
    assert_eq!(create_rsps_section(&[0u8; 10]).unwrap_err(), RebuildError::Malformed);
}

#[test]
fn rebuilding_rejects_section_data_past_the_image() {
    let (mut img, _) = client_image();
    put32(&mut img, 0x40 + 24 + 240 + 40 + 20, 0x10_0000);
    assert_eq!(create_rsps_section(&img).unwrap_err(), RebuildError::Malformed);
}

#[test]
fn rebuilding_keeps_the_rich_header() {
    let (rdata, _) = rdata_with(&["x\0"]);
    let mut img = build_pe_at(0xa0, &[Sec { name: name(".rdata"), data: rdata, characteristics: RDATA }]);
    img[0x80..0x84].copy_from_slice(b"DanS");
    put32(&mut img, 0x90, 0x0101_0001);
    put32(&mut img, 0x94, 3);
    img[0x98..0x9c].copy_from_slice(b"Rich");
    let out = create_rsps_section(&img).unwrap();
    assert_eq!(&out[0x80..0x84], b"DanS");
    assert_eq!(&out[0x98..0x9c], b"Rich");
    assert!(get_section_by_name(&out, ".rsps").is_ok());
}

#[test]
fn patching_points_the_client_at_this_server() {
    let (mut img, _) = client_image();
    patch_rsps(&mut img, 0).unwrap();
    let jav = find_string_in_client(&img, ".rsps", JAV_CONFIG_URL.as_bytes()).unwrap();
    let world = find_string_in_client(&img, ".rsps", WORLD_LIST_URL.as_bytes()).unwrap();
    let domain = find_string_in_client(&img, ".rsps", WHITELIST_DOMAIN.as_bytes()).unwrap();
    assert_eq!(jav, 0x3000);
    assert_eq!(domain, 0x3000 + JAV_CONFIG_URL.len() as u64);
    assert_eq!(world, domain + WHITELIST_DOMAIN.len() as u64);
    let text = get_section_by_name(&img, ".text").unwrap();
    let base = text.pointer_to_raw_data as usize;
    assert_eq!(operand_target(&img, base + 0x40), jav);
    assert_eq!(operand_target(&img, base + 0x80), world);
    assert_eq!(operand_target(&img, base + 0xc0), domain);
}

#[test]
fn patching_an_image_without_the_strings_fails() {
    let (rdata, _) = rdata_with(&["unrelated\0"]);
    let mut img = build_pe(&[
        Sec { name: name(".text"), data: vec![0x90; 0x40], characteristics: CODE },
        Sec { name: name(".rdata"), data: rdata, characteristics: RDATA },
    ]);
    let before = img.clone();
    assert_eq!(
        try_patch_rsps(&mut img, 0).unwrap_err(),
        PatchRspsError::JavConfig(PatchError::InputString(FindError::NotFound))
    );
    assert_eq!(img, before);
    let mut bad = vec![0u8; 16];
    assert_eq!(patch_rsps(&mut bad, 0).unwrap_err(), PatchRspsError::Rebuild(RebuildError::Malformed));
    assert_eq!(bad, vec![0u8; 16]);
}

#[test]
fn redirecting_strings_stops_at_the_first_failure() {
    let (rdata, addrs) = rdata_with(&[ORIGINAL_JAV_CONFIG_URL]);
    let mut text = vec![0x90u8; 0x100];
    operand_to(&mut text, 0x40, addrs[0]);
    let mut img = build_pe(&[
        Sec { name: name(".text"), data: text, characteristics: CODE },
        Sec { name: name(".rdata"), data: rdata, characteristics: RDATA },
        Sec { name: name(".rsps"), data: rsps_section_data(), characteristics: RSPS_CHARACTERISTICS },
    ]);
    assert_eq!(
        redirect_client_strings(&mut img).unwrap_err(),
        PatchRspsError::WorldList(PatchError::InputString(FindError::NotFound))
    );
    assert_eq!(operand_target(&img, (TEXT_RAW + 0x40) as usize), 0x3000);
}

#[test]
fn rebuilding_rejects_a_certificate_table_past_the_image() {
    let (mut img, _) = client_image();
    let dirs = 0x40 + 24 + 112;
    put32(&mut img, dirs + 8 * 4, 0x10_0000);
    put32(&mut img, dirs + 8 * 4 + 4, 0x10);
    assert_eq!(create_rsps_section(&img).unwrap_err(), RebuildError::OutOfBounds);
}

#[test]
fn rebuilding_copies_the_certificate_table() {
    let (mut img, _) = client_image();
    let cert_at = img.len();
    img.extend_from_slice(&[7u8; 16]);
    let dirs = 0x40 + 24 + 112;
    put32(&mut img, dirs + 8 * 4, cert_at as u32);
    put32(&mut img, dirs + 8 * 4 + 4, 16);
    let out = create_rsps_section(&img).unwrap();
    let out_cert = get32(&out, 0x80 + 24 + 112 + 8 * 4) as usize;
    assert_eq!(get32(&out, 0x80 + 24 + 112 + 8 * 4 + 4), 16);
    assert_eq!(&out[out_cert..out_cert + 16], &[7u8; 16]);
}

#[test]
fn rebuilding_recreates_the_relocation_table() {
    let (rdata, _) = rdata_with(&["x\0"]);
    let mut reloc = Vec::new();
    reloc.extend_from_slice(&0x1000u32.to_le_bytes());
    reloc.extend_from_slice(&12u32.to_le_bytes());
    reloc.extend_from_slice(&0xa010u16.to_le_bytes());
    reloc.extend_from_slice(&0xa018u16.to_le_bytes());
    let mut img = build_pe(&[
        Sec { name: name(".text"), data: vec![0x90; 0x40], characteristics: CODE },
        Sec { name: name(".rdata"), data: rdata, characteristics: RDATA },
        Sec { name: name(".reloc"), data: reloc.clone(), characteristics: 0x4200_0040 },
    ]);
    let dirs = 0x40 + 24 + 112;
    put32(&mut img, dirs + 8 * 5, 0x3000);
    put32(&mut img, dirs + 8 * 5 + 4, 12);
    // Six data directories, so that four section headers still fit before 0x200.
    put32(&mut img, 0x40 + 24 + 108, 6);
    let out = create_rsps_section(&img).unwrap();
    let rsps = get_section_by_name(&out, ".rsps").unwrap();
    assert_eq!(rsps.virtual_address, 0x3000);
    let new_reloc = get_section_by_name(&out, ".reloc").unwrap();
    assert_eq!(new_reloc.virtual_address, 0x4000);
    let at = new_reloc.pointer_to_raw_data as usize;
    assert_eq!(&out[at..at + 12], &reloc[..]);
    let out_dirs = 0x80 + 24 + 112;
    assert_eq!(get32(&out, out_dirs + 8 * 5), 0x4000);
    assert_eq!(get32(&out, out_dirs + 8 * 5 + 4), 12);
}

#[test]
fn patching_stops_when_the_whitelist_is_missing() {
    let (rdata, addrs) = rdata_with(&[ORIGINAL_JAV_CONFIG_URL, ORIGINAL_WORLD_LIST_URL]);
    let mut text = vec![0x90u8; 0x100];
    operand_to(&mut text, 0x40, addrs[0]);
    operand_to(&mut text, 0x80, addrs[1]);
    let mut img = build_pe(&[
        Sec { name: name(".text"), data: text, characteristics: CODE },
        Sec { name: name(".rdata"), data: rdata, characteristics: RDATA },
    ]);
    let before = img.clone();
    assert_eq!(
        try_patch_rsps(&mut img, 0).unwrap_err(),
        PatchRspsError::Whitelist(PatchError::InputString(FindError::NotFound))
    );
    assert_eq!(img, before);
}

/// A 64-bit image of 0x400 bytes with one section, `.text` (address 0x1000,
/// virtual size, file size and file offset 0x200), and no data directories.
fn minimal_image() -> Vec<u8> {
    let mut p = vec![0u8; 0x400];
    p[0..2].copy_from_slice(b"MZ");
    p[0x3c] = 0x40;
    p[0x40..0x44].copy_from_slice(b"PE\0\0");
    p[0x46] = 1;
    p[0x54] = 0x70;
    p[0x58] = 0x0b;
    p[0x59] = 0x02;
    p[0x79] = 0x10;
    p[0x7d] = 0x02;
    p[0xc8..0xcd].copy_from_slice(b".text");
    p[0xd1] = 0x02;
    p[0xd5] = 0x10;
    p[0xd9] = 0x02;
    p[0xdd] = 0x02;
    for (i, b) in p[0x200..0x400].iter_mut().enumerate() {
        *b = (i % 251) as u8 + 1;
    }
    p
}

#[test]
fn rebuilding_the_minimal_image_adds_rsps_after_text() {
    let p = minimal_image();
    let out = create_rsps_section(&p).unwrap();
    let nt = get32(&out, 0x3c) as usize;
    assert_eq!(&out[nt..nt + 4], b"PE\0\0");
    assert_eq!(u16::from_le_bytes([out[nt + 6], out[nt + 7]]), 2);
    let text = get_section_by_name(&out, ".text").unwrap();
    assert_eq!((text.virtual_address, text.virtual_size), (0x1000, 0x200));
    assert_eq!((text.pointer_to_raw_data, text.size_of_raw_data), (0x200, 0x200));
    assert_eq!(&out[0x200..0x400], &p[0x200..0x400]);
    let rsps = get_section_by_name(&out, ".rsps").unwrap();
    assert_eq!(rsps.characteristics, 0x4000_0040);
    assert_eq!(rsps.virtual_size, 0x1000);
    assert_eq!(rsps.size_of_raw_data, 0x200);
    assert_eq!(rsps.virtual_address, 0x2000);
    assert_eq!(rsps.pointer_to_raw_data, 0x400);
    let data = rsps_section_data();
    assert_eq!(&out[0x400..0x400 + data.len()], &data[..]);
    assert!(out[0x400 + data.len()..0x600].iter().all(|b| *b == 0));
    assert_eq!(out.len(), 0x600);
}

#[test]
fn rebuilding_pads_a_section_past_its_virtual_size_with_zeros() {
    let mut p = minimal_image();
    p[0xd0] = 0x00;
    p[0xd1] = 0x01;
    let out = create_rsps_section(&p).unwrap();
    let text = get_section_by_name(&out, ".text").unwrap();
    assert_eq!((text.virtual_size, text.size_of_raw_data), (0x100, 0x200));
    assert_eq!(&out[0x200..0x300], &p[0x200..0x300]);
    assert!(out[0x300..0x400].iter().all(|b| *b == 0));
}

#[test]
fn rebuilt_headers_are_the_writers() {
    let p = minimal_image();
    let out = create_rsps_section(&p).unwrap();
    let mut dos = vec![0x4du8, 0x5a, 0x90, 0, 3, 0, 0, 0, 4, 0, 0, 0, 0xff, 0xff, 0, 0, 0xb8, 0, 0, 0, 0, 0, 0, 0, 0x40, 0];
    dos.extend_from_slice(&[0u8; 34]);
    dos.extend_from_slice(&0x80u32.to_le_bytes());
    assert_eq!(&out[0..64], &dos[..]);
    assert_eq!(&out[64 + 14..64 + 53], b"This program cannot be run in DOS mode.");
    let opt = 0x80 + 24;
    assert_eq!(get32(&out, opt + 4), 0);
    assert_eq!(get32(&out, opt + 8), 0x1000);
    assert_eq!(get32(&out, opt + 20), 0);
    assert_eq!(get32(&out, opt + 56), 0x3000);
    assert_eq!(get32(&out, opt + 60), 0x200);
    assert_eq!(get32(&out, opt + 108), 0);
    let sh = 0x80 + 24 + 112;
    assert_eq!(&out[sh..sh + 8], b".text\0\0\0");
    assert_eq!(&out[sh + 40..sh + 48], b".rsps\0\0\0");
    assert!(out[sh + 24..sh + 36].iter().all(|b| *b == 0));
}

#[test]
fn rebuilding_twice_gives_the_same_image() {
    let p = minimal_image();
    assert_eq!(create_rsps_section(&p).unwrap(), create_rsps_section(&p).unwrap());
    let (img, _) = client_image();
    assert_eq!(create_rsps_section(&img).unwrap(), create_rsps_section(&img).unwrap());
}

#[test]
fn patching_an_image_without_rdata_is_refused() {
    let mut p = minimal_image();
    let before = p.clone();
    assert_eq!(
        try_patch_rsps(&mut p, 0).unwrap_err(),
        PatchRspsError::JavConfig(PatchError::InputString(FindError::Section(LookupError::NotFound)))
    );
    assert_eq!(p, before);
}

#[test]
fn rebuilding_rejects_alignments_that_are_not_powers_of_two() {
    let (mut img, _) = client_image();
    put32(&mut img, 0x40 + 24 + 36, 0x300);
    assert_eq!(create_rsps_section(&img).unwrap_err(), RebuildError::Unsupported);
}

#[test]
fn rebuilding_rejects_a_section_the_writer_would_move() {
    let (mut img, _) = client_image();
    put32(&mut img, 0x40 + 24 + 240 + 12, 0x8000);
    assert_eq!(create_rsps_section(&img).unwrap_err(), RebuildError::Unsupported);
}

#[test]
fn rebuilding_rejects_relocations_out_of_page_order() {
    let (rdata, _) = rdata_with(&["x\0"]);
    let mut reloc = Vec::new();
    for (page, entry) in [(0x2000u32, 0xa010u16), (0x1000, 0xa018)] {
        reloc.extend_from_slice(&page.to_le_bytes());
        reloc.extend_from_slice(&12u32.to_le_bytes());
        reloc.extend_from_slice(&entry.to_le_bytes());
        reloc.extend_from_slice(&0u16.to_le_bytes());
    }
    let mut img = build_pe(&[
        Sec { name: name(".text"), data: vec![0x90; 0x40], characteristics: CODE },
        Sec { name: name(".rdata"), data: rdata, characteristics: RDATA },
        Sec { name: name(".reloc"), data: reloc, characteristics: 0x4200_0040 },
    ]);
    let dirs = 0x40 + 24 + 112;
    put32(&mut img, dirs + 8 * 5, 0x3000);
    put32(&mut img, dirs + 8 * 5 + 4, 24);
    put32(&mut img, 0x40 + 24 + 108, 6);
    assert_eq!(create_rsps_section(&img).unwrap_err(), RebuildError::Unsupported);
}

#[test]
fn rebuilding_carries_the_headers_over() {
    let (mut img, _) = client_image();
    let dirs = 0x40 + 24 + 112;
    put32(&mut img, dirs + 8, 0x2100);
    put32(&mut img, dirs + 8 + 4, 0x28);
    let out = create_rsps_section(&img).unwrap();
    let (i, o) = (0x40usize, 0x80usize);
    assert_eq!(&out[o + 4..o + 6], &img[i + 4..i + 6]);
    assert_eq!(&out[o + 24 + 24..o + 24 + 32], &img[i + 24 + 24..i + 24 + 32]);
    assert_eq!(get32(&out, o + 24 + 108), 16);
    assert_eq!(get32(&out, o + 24 + 112 + 8), 0x2100);
    assert_eq!(get32(&out, o + 24 + 112 + 12), 0x28);
    assert_eq!(u16::from_le_bytes([out[o + 6], out[o + 7]]), 3);
    let text = get_section_by_name(&out, ".text").unwrap();
    let old_text = get_section_by_name(&img, ".text").unwrap();
    assert_eq!(text.pointer_to_raw_data, old_text.pointer_to_raw_data);
    assert_eq!(text.size_of_raw_data, old_text.size_of_raw_data);
}

#[test]
fn rebuilding_rejects_headers_that_would_push_the_sections() {
    let (rdata, _) = rdata_with(&["x\0"]);
    let mut img = build_pe(&[
        Sec { name: name(".text"), data: vec![0x90; 0x40], characteristics: CODE },
        Sec { name: name(".rdata"), data: rdata, characteristics: RDATA },
        Sec { name: name(".data"), data: vec![1; 0x10], characteristics: RDATA },
    ]);
    // 16 data directories and four output section headers need more than 0x200 bytes.
    assert_eq!(create_rsps_section(&img).unwrap_err(), RebuildError::Unsupported);
    // Where the relocation table cannot be read either, that is reported first.
    let dirs = 0x40 + 24 + 112;
    put32(&mut img, dirs + 8 * 5, 0x7000);
    put32(&mut img, dirs + 8 * 5 + 4, 8);
    assert_eq!(create_rsps_section(&img).unwrap_err(), RebuildError::Malformed);
}

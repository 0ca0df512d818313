use ue_explorer::anchors::BaseAddressDumper;
use ue_explorer::error::ErrorKind;
use ue_explorer::memory::MemoryImage;
use ue_explorer::process::Process;
use ue_explorer::scanner::{format_signature, region_is_scannable, Scanner};

fn module(base: u64, bytes: Vec<u8>) -> Process {
    let size = bytes.len() as u64;
    let mut img = MemoryImage::new();
    assert!(img.add_region(base, bytes));
    Process { pid: 7, name: "m".to_string(), exe_path: String::new(), memory: img, main_module_base: base, main_module_size: size }
}

#[test]
fn signature_parse_example() {
    assert_eq!(Scanner::parse_signature("48 8D ? 05"), vec![Some(0x48), Some(0x8D), None, Some(0x05)]);
    assert_eq!(Scanner::parse_signature("  48\t??  8d "), vec![Some(0x48), None, Some(0x8D)]);
    assert!(Scanner::parse_signature("GG 10").is_empty());
    assert!(Scanner::parse_signature("48 +48").is_empty());
    assert!(Scanner::parse_signature("048").is_empty());
    assert!(Scanner::parse_signature("48 ???").is_empty());
    assert!(Scanner::parse_signature("   ").is_empty());
}

#[test]
fn signature_canonical_round_trip() {
    let p = vec![Some(0x48), Some(0x8D), None, Some(0x05), Some(0xFF), Some(0x00)];
    let text = format_signature(&p);
    assert_eq!(text, "48 8D ? 05 FF 00");
    assert_eq!(Scanner::parse_signature(&text), p);
    assert_eq!(format_signature(&Scanner::parse_signature(&text)), text);
}

#[test]
fn buffer_search_with_wildcards() {
    let buf = [0x48u8, 0x8D, 0x05, 0x48, 0x8D, 0x07, 0x48];
    assert_eq!(Scanner::find_pattern_in_buffer(&buf, &[Some(0x48), Some(0x8D), None]), vec![0, 3]);
    assert_eq!(Scanner::find_pattern_in_buffer(&buf, &[None, Some(0x8D)]), vec![0, 3]);
    assert!(Scanner::find_pattern_in_buffer(&buf, &[]).is_empty());
    assert!(Scanner::find_pattern_in_buffer(&buf[..1], &[Some(0x48), Some(0x8D)]).is_empty());
}

#[test]
fn scan_rejects_empty_signature() {
    let p = module(0x40_0000, vec![0u8; 16]);
    assert_eq!(Scanner::scan(&p.memory, 0, u64::MAX, " "), Err(ErrorKind::InvalidSignature));
    assert_eq!(Scanner::scan(&p.memory, 0, u64::MAX, "48 ZZ"), Err(ErrorKind::InvalidSignature));
}

#[test]
fn scan_keeps_matches_inside_regions_and_range() {
    let mut img = MemoryImage::new();
    assert!(img.add_region(0x1000, vec![0xAA, 0xBB, 0x00, 0xAA]));
    assert!(img.add_region(0x1004, vec![0xBB, 0xAA, 0xBB]));
    assert!(!img.add_region(0x1002, vec![1]));
    assert_eq!(Scanner::scan(&img, 0, 0x2000, "AA BB").unwrap(), vec![0x1000, 0x1005]);
    assert_eq!(Scanner::scan(&img, 0x1001, 0x2000, "AA BB").unwrap(), vec![0x1005]);
    assert_eq!(Scanner::scan(&img, 0, 0x1006, "AA BB").unwrap(), vec![0x1000]);
}

#[test]
fn committed_readable_regions_only() {
    assert!(region_is_scannable(0x1000, 0x04));
    assert!(!region_is_scannable(0x2000, 0x04));
    assert!(!region_is_scannable(0x1000, 0x01));
    assert!(!region_is_scannable(0x1000, 0x104));
}

#[test]
fn rip_resolution_for_several_displacements() {
    let base: u64 = 0x7FF6_0000_0000;
    for disp in [-2i32, 0, 2, i32::MIN, i32::MAX] {
        let mut bytes = vec![0x48u8, 0x8D, 0x05];
        bytes.extend_from_slice(&disp.to_le_bytes());
        let p = module(base, bytes);
        let expected = (base + 7).wrapping_add_signed(disp as i64);
        assert_eq!(BaseAddressDumper::resolve_rip(&p, base, 3, 7), Ok(expected));
    }
}

#[test]
fn rip_resolution_fails_on_unreadable_displacement() {
    let p = module(0x10_0000, vec![0x48, 0x8D, 0x05]);
    assert_eq!(BaseAddressDumper::resolve_rip(&p, 0x10_0000, 3, 7), Err(ErrorKind::ReadFailed));
}

#[test]
fn candidates_are_tried_in_order() {
    let base: u64 = 0x14_0000_0000;
    let mut bytes = vec![0x90u8; 0x40];
    bytes[0x10..0x13].copy_from_slice(&[0x48, 0x8B, 0x1D]);
    bytes[0x13..0x17].copy_from_slice(&0x100i32.to_le_bytes());
    bytes[0x17..0x1C].copy_from_slice(&[0x48, 0x85, 0xDB, 0x74, 0x33]);
    bytes[0x1C..0x1F].copy_from_slice(&[0x41, 0xB0, 0x01]);
    let p = module(base, bytes);
    let cands = vec![("11 22 33", 0u64, 0u64), ("48 8B 1D ? ? ? ? 48 85", 3, 7)];
    assert_eq!(BaseAddressDumper::scan_and_resolve(&p, &cands), Ok(base + 0x10 + 7 + 0x100));
    assert_eq!(BaseAddressDumper::get_gworld(&p), Ok(base + 0x10 + 7 + 0x100));
    assert_eq!(BaseAddressDumper::get_fname_pool(&p), Err(ErrorKind::AnchorNotFound));
}

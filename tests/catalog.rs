use ue_explorer::analyzer::{analyze_fname, analyze_object};
use ue_explorer::anchors::BaseAddressDumper;
use ue_explorer::autoconfig::AutoConfig;
use ue_explorer::inspector::{decimal_string, get_array_elements, get_instance_details, get_object_details, offset_label};
use ue_explorer::session::AppState;
use ue_explorer::error::ErrorKind;
use ue_explorer::instance::{format_address, parse_address, search_object_instances};
use ue_explorer::memory::MemoryImage;
use ue_explorer::name_pool::FNamePool;
use ue_explorer::object_array::GUObjectArray;
use ue_explorer::objects::ObjectManager;
use ue_explorer::offsets::UEOffset;
use ue_explorer::package::{extract_package_name, get_objects, get_packages};
use ue_explorer::process::Process;
use ue_explorer::scanner::{format_signature, Scanner};
use ue_explorer::search::global_search;

const R: u64 = 0x1_0000_0000;
const SIZE: usize = 0x8000;
const NP: u64 = R + 0x100;
const B: u64 = R + 0x1000;

const ID_NONE: u32 = 0;
const ID_BYTEPROP: u32 = 4;
const ID_CLASS: u32 = 0x20;
const ID_OWNER: u32 = 0x40;
const ID_PACKAGE: u32 = 0x60;
const ID_ACTOR: u32 = 0x80;
const ID_ENGINE: u32 = 0xA0;
const ID_OBJPROP: u32 = 0xC0;
const ID_ACTORCOMP: u32 = 0xE0;
const ID_PAWN: u32 = 0x100;
const ID_CORE: u32 = 0x120;
const ID_OBJECT: u32 = 0x140;
const ID_ALPHA: u32 = 0x160;
const ID_BETA: u32 = 0x180;
const ID_GAMMA: u32 = 0x1A0;
const ID_SELFIE: u32 = 0x1C0;

const CC: u64 = R + 0x2000;
const PC: u64 = R + 0x2040;
const P: u64 = R + 0x2080;
const A: u64 = R + 0x40;
const AC: u64 = R + 0x20C0;
const PW: u64 = R + 0x2100;
const X: u64 = R + 0x2140;
const T: u64 = R + 0x2180;
const S: u64 = R + 0x21C0;
const CA: u64 = R + 0x2200;
const CB: u64 = R + 0x2240;
const CG: u64 = R + 0x2280;
const INST: u64 = R + 0x3000;
const T2: u64 = R + 0x3100;
const G: u64 = R + 0x5000;
const L1: u64 = R + 0x5100;
const L2: u64 = R + 0x5200;
const V: u64 = R + 0x7000;
const INTS: u64 = R + 0x7800;
const CLASS_PATTERN: u64 = 0xDEAD_BEEF_CAFE_BABE;

fn put(buf: &mut [u8], a: u64, bytes: &[u8]) {
    let o = (a - R) as usize;
    buf[o..o + bytes.len()].copy_from_slice(bytes);
}

fn put64(buf: &mut [u8], a: u64, v: u64) {
    put(buf, a, &v.to_le_bytes());
}

fn put32(buf: &mut [u8], a: u64, v: u32) {
    put(buf, a, &v.to_le_bytes());
}

fn put_name(buf: &mut [u8], id: u32, text: &str) {
    let entry = B + 2 * id as u64;
    let header: u16 = (text.len() as u16) << 6;
    put(buf, entry, &header.to_le_bytes());
    put(buf, entry + 4, text.as_bytes());
}

fn put_object(buf: &mut [u8], at: u64, id: u32, class: u64, name: u32, outer: u64) {
    put32(buf, at + 0xC, id);
    put64(buf, at + 0x10, class);
    put32(buf, at + 0x18, name);
    put64(buf, at + 0x20, outer);
}

fn fixture_bytes() -> Vec<u8> {
    let mut buf = vec![0u8; SIZE];
    // an object with id 1 reads the region start as a member-type object:
    // give it a name id whose record is not a name
    put32(&mut buf, R, 2);
    put64(&mut buf, NP + 0x10, B);
    put_name(&mut buf, ID_NONE, "None");
    put_name(&mut buf, ID_BYTEPROP, "ByteProperty");
    put_name(&mut buf, ID_CLASS, "Class");
    put_name(&mut buf, ID_OWNER, "Owner");
    put_name(&mut buf, ID_PACKAGE, "Package");
    put_name(&mut buf, ID_ACTOR, "Actor");
    put_name(&mut buf, ID_ENGINE, "/Script/Engine");
    put_name(&mut buf, ID_OBJPROP, "ObjectProperty");
    put_name(&mut buf, ID_ACTORCOMP, "ActorComponent");
    put_name(&mut buf, ID_PAWN, "Pawn");
    put_name(&mut buf, ID_CORE, "Core");
    put_name(&mut buf, ID_OBJECT, "Object");
    put_name(&mut buf, ID_ALPHA, "Alpha");
    put_name(&mut buf, ID_BETA, "Beta");
    put_name(&mut buf, ID_GAMMA, "Gamma");
    put_name(&mut buf, ID_SELFIE, "Selfie");
    put32(&mut buf, CC + 0x18, ID_CLASS);
    put32(&mut buf, PC + 0x18, ID_PACKAGE);
    put_object(&mut buf, P, 1, PC, ID_ENGINE, 0);
    put_object(&mut buf, A, 2, CC, ID_ACTOR, P);
    put_object(&mut buf, AC, 3, CC, ID_ACTORCOMP, P);
    put_object(&mut buf, PW, 4, CC, ID_PAWN, P);
    put64(&mut buf, X + 0x8, T);
    put64(&mut buf, X + 0x20, A);
    put32(&mut buf, T, ID_OBJPROP);
    put_object(&mut buf, S, 6, CC, ID_SELFIE, S);
    put_object(&mut buf, CA, 7, CC, ID_ALPHA, CB);
    put_object(&mut buf, CB, 8, CC, ID_BETA, CG);
    put_object(&mut buf, CG, 9, CC, ID_GAMMA, CA);
    put64(&mut buf, INST + 0x8, T2);
    put32(&mut buf, T2, ID_OBJECT);
    put64(&mut buf, INST + 0x10, CLASS_PATTERN);
    put32(&mut buf, INST + 0x20, ID_PAWN);
    put64(&mut buf, A + 0x50, X);
    put32(&mut buf, X + 0x44, 0x28);
    put32(&mut buf, INTS, 7);
    put32(&mut buf, INTS + 4, (-1i32) as u32);
    put32(&mut buf, INTS + 8, 42);
    put64(&mut buf, G, L1);
    put64(&mut buf, L1, L2);
    put64(&mut buf, V, V);
    for n in 0..=10u64 {
        let obj = R + 0x6000 + n * 0x40;
        put64(&mut buf, L2 + n * 0x18, obj);
        put64(&mut buf, obj, V);
        let name = if n % 2 == 0 { ID_CORE } else { ID_OBJECT };
        put_object(&mut buf, obj, n as u32, CC, name, P);
    }
    buf
}

fn image() -> MemoryImage {
    let mut img = MemoryImage::new();
    assert!(img.add_region(R, fixture_bytes()));
    img
}

fn pool(img: &MemoryImage) -> FNamePool {
    let mut p = FNamePool::new(NP);
    p.discover_string_offset(img);
    p
}

fn process(img: MemoryImage) -> Process {
    Process { pid: 1, name: "game".to_string(), exe_path: String::new(), memory: img, main_module_base: R, main_module_size: SIZE as u64 }
}

#[test]
fn string_offset_is_discovered_from_byte_property() {
    let img = image();
    let mut p = FNamePool::new(NP);
    assert_eq!(p.string_offset, None);
    assert_eq!(p.get_name(&img, ID_CLASS), Err(ErrorKind::NamePoolUninitialised));
    assert_eq!(p.get_name(&img, ID_BYTEPROP), Ok("ByteProperty".to_string()));
    assert_eq!(p.string_offset, Some(4));
    assert_eq!(p.get_name(&img, ID_CLASS), Ok("Class".to_string()));
}

#[test]
fn name_lookup_is_idempotent() {
    let img = image();
    let mut p = pool(&img);
    let first = p.get_name(&img, ID_ENGINE);
    let second = p.get_name(&img, ID_ENGINE);
    assert_eq!(first, Ok("/Script/Engine".to_string()));
    assert_eq!(first, second);
}

#[test]
fn name_lookup_rejects_bad_lengths_and_reads() {
    let img = image();
    let mut p = pool(&img);
    assert_eq!(p.get_name(&img, 2), Err(ErrorKind::InvalidNameLength));
    assert_eq!(p.get_name(&img, 0x1_0000), Err(ErrorKind::ReadFailed));
}

#[test]
fn pool_parse_counts_blocks_and_names() {
    let img = image();
    let mut p = FNamePool::new(NP);
    let mut events = Vec::new();
    let (blocks, names) = p.parse_pool(&img, &mut events);
    assert_eq!(blocks, 1);
    assert_eq!(events.len(), 1 + 128 / 10 + 1);
    let last = events.last().unwrap();
    assert_eq!((last.done, last.total, last.count, last.dynamic_total), (128, 128, names as u64, names as u64));
    assert_eq!(events[0].done, 10);
    assert_eq!(events[0].dynamic_total, 10_000);
    assert_eq!(p.string_offset, Some(4));
    assert!(names >= 16);
}

#[test]
fn class_full_name_follows_package() {
    let img = image();
    let p = pool(&img);
    let mut m = ObjectManager::new();
    let o = UEOffset::default();
    let actor = m.try_save_object(A, &img, &p, &o, 0, 5).unwrap();
    assert_eq!(actor.name, "Actor");
    assert_eq!(actor.type_label, "Class");
    assert_eq!(actor.full_name, "/Script/Engine.Actor");
    assert_eq!(m.total_object_count, 1);
    assert_eq!(m.address_of_id(2), Some(A));
    let package = m.get(P).unwrap();
    assert_eq!(package.address, P);
    assert_eq!(package.type_label, "Package");
}

#[test]
fn property_under_class_uses_colon() {
    let img = image();
    let p = pool(&img);
    let mut m = ObjectManager::new();
    let o = UEOffset::default();
    m.try_save_object(A, &img, &p, &o, 0, 5).unwrap();
    let prop = m.try_save_object(X, &img, &p, &o, 0, 5).unwrap();
    assert_eq!(prop.name, "Owner");
    assert_eq!(prop.type_label, "ObjectProperty");
    assert_eq!(prop.outer, A);
    assert_eq!(m.address_of_id(5), None);
    let full = m.resolve_full_name(&prop, &img, &p, &o);
    assert_eq!(full, "/Script/Engine.Actor:Owner");
}

#[test]
fn low_address_is_refused_without_side_effects() {
    let img = image();
    let p = pool(&img);
    let mut m = ObjectManager::new();
    let o = UEOffset::default();
    assert!(m.try_save_object(0x8000, &img, &p, &o, 0, 5).is_none());
    assert_eq!(m.total_object_count, 0);
    assert!(m.addresses().is_empty());
}

#[test]
fn depth_limit_refuses() {
    let img = image();
    let p = pool(&img);
    let mut m = ObjectManager::new();
    let o = UEOffset::default();
    assert!(m.try_save_object(A, &img, &p, &o, 5, 5).is_none());
    assert!(m.addresses().is_empty());
}

#[test]
fn self_outer_keeps_name_as_full_name() {
    let img = image();
    let p = pool(&img);
    let mut m = ObjectManager::new();
    let o = UEOffset::default();
    let s = m.try_save_object(S, &img, &p, &o, 0, 5).unwrap();
    assert_eq!(s.outer, S);
    assert_eq!(s.full_name, "Selfie");
}

#[test]
fn outer_cycle_names_each_object_once() {
    let img = image();
    let p = pool(&img);
    let mut m = ObjectManager::new();
    let o = UEOffset::default();
    let a = m.try_save_object(CA, &img, &p, &o, 0, 5).unwrap();
    assert_eq!(a.full_name, "Gamma.Beta.Alpha");
    assert_eq!(m.total_object_count, 1);
}

#[test]
fn address_above_user_space_is_refused() {
    let mut img = MemoryImage::new();
    let high: u64 = 0x7FFF_FFFF_FFFF;
    assert!(img.add_region(high, vec![0u8; 0x40]));
    let p = FNamePool::new(NP);
    let mut m = ObjectManager::new();
    let o = UEOffset::default();
    assert!(m.try_save_object(high, &img, &p, &o, 0, 5).is_none());
    assert!(m.try_save_object(0x10000, &img, &p, &o, 0, 5).is_none());
    assert!(m.addresses().is_empty());
}

#[test]
fn catalog_records_sit_under_their_addresses() {
    let img = image();
    let p = pool(&img);
    let mut m = ObjectManager::new();
    let o = UEOffset::default();
    for at in [A, AC, PW, X, S, CA] {
        m.try_save_object(at, &img, &p, &o, 0, 5);
    }
    for a in m.addresses() {
        let rec = m.get(a).unwrap();
        assert_eq!(rec.address, a);
        assert!(!rec.type_label.is_empty());
        assert!(rec.full_name == rec.name || rec.full_name.ends_with(&format!(".{}", rec.name)) || rec.full_name.ends_with(&format!(":{}", rec.name)));
    }
    for id in 1..10 {
        if let Some(a) = m.address_of_id(id) {
            let rec = m.get(a).unwrap();
            assert_eq!(rec.id, id);
            assert!(!rec.type_label.contains("Property"));
        }
    }
    assert_eq!(m.total_object_count, 6);
}

#[test]
fn element_size_is_detected_at_stride_0x18() {
    let proc_ = process(image());
    assert_eq!(BaseAddressDumper::detect_element_size(&proc_, G), 0x18);
}

#[test]
fn element_size_falls_back_without_array() {
    let proc_ = process(image());
    assert_eq!(BaseAddressDumper::detect_element_size(&proc_, R + 0x7800), 0x18);
}

#[test]
fn object_array_walk_saves_every_entry() {
    let img = image();
    let p = pool(&img);
    let mut m = ObjectManager::new();
    let o = UEOffset::default();
    let mut events = Vec::new();
    let count = GUObjectArray::new(G).parse_array(&img, &p, &o, 0x18, &mut m, &mut events);
    assert_eq!(count, 11);
    let last = events.last().unwrap();
    assert_eq!((last.done, last.total, last.count, last.dynamic_total), (1, 1, 11, 11));
    assert!(events.len() >= 2);
    let first = m.get(R + 0x6000).unwrap();
    assert_eq!(first.full_name, "/Script/Engine.Core");
}

#[test]
fn package_extraction_examples() {
    assert_eq!(extract_package_name("/Script/Engine.Actor"), "/Script/Engine");
    assert_eq!(extract_package_name("/Game/Map/BP.BP_C:Fn"), "/Game/Map/BP");
    assert_eq!(extract_package_name("NoSlashes"), "");
    assert_eq!(extract_package_name("/OnlyOne"), "");
    assert_eq!(extract_package_name("/Game/Level"), "/Game/Level");
}

#[test]
fn packages_are_counted_and_sorted() {
    let img = image();
    let p = pool(&img);
    let mut m = ObjectManager::new();
    let o = UEOffset::default();
    for at in [A, AC, PW] {
        m.try_save_object(at, &img, &p, &o, 0, 5);
    }
    let packages = get_packages(&m);
    assert_eq!(packages.len(), 1);
    assert_eq!(packages[0].name, "/Script/Engine");
    assert_eq!(packages[0].object_count, 4);
}

#[test]
fn objects_of_package_by_category() {
    let img = image();
    let p = pool(&img);
    let mut m = ObjectManager::new();
    let o = UEOffset::default();
    for at in [PW, AC, A] {
        m.try_save_object(at, &img, &p, &o, 0, 5);
    }
    let classes = get_objects(&m, "/Script/Engine", "Class");
    let names: Vec<&str> = classes.iter().map(|c| c.name.as_str()).collect();
    assert_eq!(names, vec!["Actor", "ActorComponent", "Pawn"]);
    assert!(get_objects(&m, "/Script/Engine", "Enum").is_empty());
    assert!(get_objects(&m, "/Script/Engine", "Other").is_empty());
}

#[test]
fn object_search_is_case_insensitive_and_sorted() {
    let img = image();
    let p = pool(&img);
    let mut m = ObjectManager::new();
    let o = UEOffset::default();
    for at in [PW, AC, A] {
        m.try_save_object(at, &img, &p, &o, 0, 5);
    }
    let hits = global_search(&m, &img, &p, &o, "actor", "Object");
    let names: Vec<&str> = hits.iter().map(|h| h.object_name.as_str()).collect();
    assert_eq!(names, vec!["Actor", "ActorComponent"]);
    assert_eq!(hits[0].package_name, "/Script/Engine");
    assert!(hits[0].member_name.is_none());
    assert!(global_search(&m, &img, &p, &o, "ACTOR", "Object").len() == 2);
    assert!(global_search(&m, &img, &p, &o, "actor", "Other").is_empty());
}

#[test]
fn instance_search_finds_the_object_before_the_class_field() {
    let img = image();
    let p = pool(&img);
    let proc_ = process(img);
    let mut m = ObjectManager::new();
    let o = UEOffset::default();
    let found = search_object_instances(&mut m, &proc_, &p, &o, CLASS_PATTERN);
    assert_eq!(found.len(), 1);
    assert_eq!(found[0].instance_address, format_address(INST));
    assert_eq!(found[0].object_name, "Pawn");
}

#[test]
fn address_text_round_trips() {
    assert_eq!(format_address(0x1_0000_0040), "0x100000040");
    assert_eq!(format_address(0), "0x0");
    assert_eq!(parse_address("0x100000040"), Some(0x1_0000_0040));
    assert_eq!(parse_address("ff"), Some(0xFF));
    assert_eq!(parse_address("0xzz"), None);
    assert_eq!(parse_address("0x"), None);
    assert_eq!(parse_address("0x1_0"), None);
    assert_eq!(parse_address("10000000000000000"), None);
}

#[test]
fn scanner_finds_pattern_in_fixture() {
    let img = image();
    let hits = Scanner::scan(&img, 0, 0x7FFF_FFFF_FFFF, "BE BA FE CA EF BE AD DE").unwrap();
    assert_eq!(hits, vec![INST + 0x10]);
    let pattern = Scanner::parse_signature("BE BA FE CA EF BE AD DE");
    assert_eq!(format_signature(&pattern), "BE BA FE CA EF BE AD DE");
}


#[test]
fn class_details_list_member_chain() {
    let img = image();
    let p = pool(&img);
    let mut m = ObjectManager::new();
    let o = UEOffset::default();
    m.try_save_object(A, &img, &p, &o, 0, 5).unwrap();
    let d = get_object_details(&m, &img, &p, &o, A).unwrap();
    assert_eq!(d.name, "Actor");
    assert_eq!(d.full_name, "/Script/Engine.Actor");
    assert_eq!(d.properties.len(), 1);
    assert_eq!(d.properties[0].property_name, "Owner");
    assert_eq!(d.properties[0].property_type, "ObjectProperty");
    assert_eq!(d.properties[0].offset, "28");
    assert!(d.inheritance.is_empty());
    assert!(matches!(get_object_details(&m, &img, &p, &o, PW), Err(ErrorKind::CatalogMiss)));
}

#[test]
fn instance_details_need_a_cached_class() {
    let img = image();
    let p = pool(&img);
    let mut m = ObjectManager::new();
    let o = UEOffset::default();
    assert!(matches!(get_instance_details(&mut m, &img, &p, &o, INST, A), Err(ErrorKind::CatalogMiss)));
    m.try_save_object(A, &img, &p, &o, 0, 5).unwrap();
    let rows = get_instance_details(&mut m, &img, &p, &o, INST, A).unwrap();
    assert_eq!(rows.len(), 1);
    assert_eq!(rows[0].property_name, "Owner");
    assert_eq!(rows[0].memory_address, format_address(INST + 0x28));
    assert!(rows[0].is_object);
}

#[test]
fn int_array_rows() {
    let img = image();
    let p = pool(&img);
    let mut m = ObjectManager::new();
    let o = UEOffset::default();
    let rows = get_array_elements(&mut m, &img, &p, &o, INTS, "IntProperty", 3);
    let values: Vec<&str> = rows.iter().map(|r| r.live_value.as_str()).collect();
    assert_eq!(values, vec!["7", "-1", "42"]);
    assert_eq!(rows[1].property_name, "[1]");
    assert_eq!(rows[2].memory_address, format_address(INTS + 8));
    assert!(get_array_elements(&mut m, &img, &p, &o, INTS, "IntProperty", -4).is_empty());
}

#[test]
fn number_texts() {
    assert_eq!(decimal_string(0), "0");
    assert_eq!(decimal_string(-305), "-305");
    assert_eq!(decimal_string(i64::MIN), "-9223372036854775808");
    assert_eq!(offset_label(0x28, None), "28");
    assert_eq!(offset_label(-1, None), "FFFFFFFF");
    assert_eq!(offset_label(0x10, Some(0x04)), "10:2");
    assert_eq!(offset_label(0x10, Some(0)), "10:0");
}

#[test]
fn basic_offsets_from_first_object() {
    let img = image();
    let mut cfg = AutoConfig::new();
    assert_eq!(cfg.offsets.class, 0);
    assert_eq!(cfg.scan_basic_offsets(&img, G, NP), Err(ErrorKind::ReadFailed));
    assert_eq!(cfg.offsets.class, 0);
    assert_eq!(cfg.scan_basic_offsets(&img, G - 0x10, NP), Ok(()));
    assert_eq!(cfg.offsets.class, 0x10);
    assert_eq!(cfg.offsets.object_id, 0x0C);
    assert_eq!(cfg.offsets.outer, 0x20);
}

#[test]
fn session_follows_prerequisites() {
    let mut state = AppState::new();
    assert_eq!(state.get_fname_pool_address(), Err(ErrorKind::NotAttached));
    assert!(matches!(state.parse_guobject_array(), Err(ErrorKind::NotAttached)));
    state.attach(process(image()));
    assert!(matches!(state.parse_guobject_array(), Err(ErrorKind::AnchorNotFound)));
    assert!(matches!(state.global_search("a", "Object"), Err(ErrorKind::NotParsed)));
    state.base_addresses.fname_pool = Some(NP);
    state.base_addresses.guobject_array = Some(G);
    state.base_addresses.guobject_element_size = Some(0x18);
    assert_eq!(state.parse_fname_pool(), Ok(1));
    assert_eq!(state.parse_guobject_array(), Ok(11));
    assert_eq!(state.objects_progress.last().unwrap().count, 11);
    assert_eq!(state.names_progress.last().unwrap().done, 128);
    assert_eq!(state.name_pool.as_ref().unwrap().string_offset, Some(4));
    let d = state.get_object_details(R + 0x6000).unwrap();
    assert_eq!(d.name, "Core");
    let found = state.search_object_instances("0xDEADBEEFCAFEBABE").unwrap();
    assert_eq!(found.len(), 1);
    assert!(matches!(state.search_object_instances("xyz"), Err(ErrorKind::InvalidAddress)));
    assert_eq!(ErrorKind::NotParsed.message(), "FNamePool not yet parsed. Please parse GUObjectArray first.");
}

#[test]
fn raw_object_header() {
    let img = image();
    let p = pool(&img);
    let o = UEOffset::default();
    let raw = analyze_object(&img, &p, &o, A);
    assert_eq!(raw.object_id, 2);
    assert_eq!(raw.name, "Actor");
    assert_eq!(raw.type_label, "Class");
    assert_eq!(raw.full_name, "/Script/Engine.Actor");
    assert_eq!(raw.address, "0x100000040");
    assert_eq!(raw.class_ptr, format_address(CC));
    assert_eq!(raw.outer_ptr, format_address(P));
    assert_eq!(raw.member_ptr, format_address(X));
    assert_eq!(raw.prop_size, "0x0 (0)");
    assert_eq!(raw.bit_mask, "0x00");
    assert_eq!(analyze_fname(&img, &p, ID_PAWN), Ok("Pawn".to_string()));
    assert_eq!(analyze_fname(&img, &p, 2), Err(ErrorKind::InvalidNameLength));
}

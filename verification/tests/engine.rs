//! End-to-end checks of the resource patching engine on a synthetic
//! template image: one icon group, one string slot, one data blob slot.

use wayk_cse_patcher::patchset::ResourcePatchSet;
use wayk_cse_patcher::pe::{extract_rcdata, icon_group_images, read_string_resource, PeImage};
use wayk_cse_patcher::resbuild::build_section;
use wayk_cse_patcher::resource_patcher::{
    build_patch_set, patch_bytes, ResourcePatcher, PRODUCT_NAME_RESOURCE_ID,
    WAYK_BUNDLE_RESOURCE_ID,
};
use wayk_cse_patcher::restree::ResEntry;

const RSRC_VA: u32 = 0x1000;
const FILE_ALIGN: u32 = 0x200;
const SECT_ALIGN: u32 = 0x1000;

fn push_u16(v: &mut Vec<u8>, x: u16) {
    v.push((x % 256) as u8);
    v.push((x / 256) as u8);
}

fn push_u32(v: &mut Vec<u8>, x: u32) {
    v.push((x & 0xFF) as u8);
    v.push(((x >> 8) & 0xFF) as u8);
    v.push(((x >> 16) & 0xFF) as u8);
    v.push(((x >> 24) & 0xFF) as u8);
}

fn push_block_string(v: &mut Vec<u8>, s: &str) {
    push_u16(v, s.len() as u16);
    for c in s.chars() {
        push_u16(v, c as u16);
    }
}

fn string_block(idx: usize, text: &str) -> Vec<u8> {
    let mut v = Vec::new();
    for i in 0..16 {
        if i == idx {
            push_block_string(&mut v, text);
        } else {
            push_block_string(&mut v, "");
        }
    }
    v
}

fn group_icon_data(image_len: u32) -> Vec<u8> {
    let mut v = Vec::new();
    push_u16(&mut v, 0);
    push_u16(&mut v, 1);
    push_u16(&mut v, 1);
    v.push(32);
    v.push(32);
    v.push(0);
    v.push(0);
    push_u16(&mut v, 1);
    push_u16(&mut v, 32);
    push_u32(&mut v, image_len);
    push_u16(&mut v, 1);
    v
}

fn ico_file(images: &[Vec<u8>]) -> Vec<u8> {
    let mut v = Vec::new();
    push_u16(&mut v, 0);
    push_u16(&mut v, 1);
    push_u16(&mut v, images.len() as u16);
    let mut offset = 6 + 16 * images.len() as u32;
    for img in images {
        v.push(16);
        v.push(16);
        v.push(0);
        v.push(0);
        push_u16(&mut v, 1);
        push_u16(&mut v, 32);
        push_u32(&mut v, img.len() as u32);
        push_u32(&mut v, offset);
        offset += img.len() as u32;
    }
    for img in images {
        v.extend_from_slice(img);
    }
    v
}

fn entry(t: u32, n: u32, l: u32, data: Vec<u8>) -> ResEntry {
    ResEntry { type_id: t, name_id: n, lang_id: l, codepage: 0, data }
}

fn template_entries() -> Vec<ResEntry> {
    let image = vec![0xAAu8; 16];
    vec![
        entry(3, 1, 0x409, image),
        entry(6, 7, 0x409, string_block(7, "OldName")),
        entry(10, 102, 0x409, vec![0x55u8; 64]),
        entry(14, 1, 0x409, group_icon_data(16)),
    ]
}

fn build_template(entries: Vec<ResEntry>) -> Vec<u8> {
    build_template_with(entries, false)
}

fn build_template_with(entries: Vec<ResEntry>, pe32plus: bool) -> Vec<u8> {
    let section = build_section(&entries, RSRC_VA).expect("section build");
    let raw_size = section.len() as u32;
    let padded = raw_size.div_ceil(FILE_ALIGN) * FILE_ALIGN;
    let raw_ptr: u32 = 0x200;
    let opt_size: usize = if pe32plus { 240 } else { 224 };
    let dirs_at: usize = if pe32plus { 112 } else { 96 };

    let mut f = Vec::new();
    f.push(0x4D);
    f.push(0x5A);
    while f.len() < 0x3C {
        f.push(0);
    }
    push_u32(&mut f, 0x40);
    f.extend_from_slice(b"PE\0\0");
    push_u16(&mut f, if pe32plus { 0x8664 } else { 0x014C });
    push_u16(&mut f, 1);
    push_u32(&mut f, 0);
    push_u32(&mut f, 0);
    push_u32(&mut f, 0);
    push_u16(&mut f, opt_size as u16);
    push_u16(&mut f, 0x0102);
    let opt_start = f.len();
    push_u16(&mut f, if pe32plus { 0x20B } else { 0x10B });
    while f.len() < opt_start + 32 {
        f.push(0);
    }
    push_u32(&mut f, SECT_ALIGN);
    push_u32(&mut f, FILE_ALIGN);
    while f.len() < opt_start + 56 {
        f.push(0);
    }
    push_u32(&mut f, RSRC_VA + padded);
    while f.len() < opt_start + dirs_at - 4 {
        f.push(0);
    }
    push_u32(&mut f, 16);
    for i in 0..16 {
        if i == 2 {
            push_u32(&mut f, RSRC_VA);
            push_u32(&mut f, raw_size);
        } else {
            push_u32(&mut f, 0);
            push_u32(&mut f, 0);
        }
    }
    assert_eq!(f.len(), opt_start + opt_size);
    f.extend_from_slice(b".rsrc\0\0\0");
    push_u32(&mut f, raw_size);
    push_u32(&mut f, RSRC_VA);
    push_u32(&mut f, padded);
    push_u32(&mut f, raw_ptr);
    push_u32(&mut f, 0);
    push_u32(&mut f, 0);
    push_u16(&mut f, 0);
    push_u16(&mut f, 0);
    push_u32(&mut f, 0x40000040);
    while (f.len() as u32) < raw_ptr {
        f.push(0);
    }
    f.extend_from_slice(&section);
    while (f.len() as u32) < raw_ptr + padded {
        f.push(0);
    }
    f
}

fn ascii_units(s: &str) -> Vec<u16> {
    s.chars().map(|c| c as u16).collect()
}

#[test]
fn empty_patch_set_commits_byte_identical_copy() {
    let template = build_template(template_entries());
    let img = PeImage::load(template.clone()).expect("load");
    let ps = ResourcePatchSet::new();
    let out = img.commit(&ps).expect("commit");
    assert_eq!(out, template);
}

#[test]
fn template_resources_read_back_before_patching() {
    let template = build_template(template_entries());
    let blob = extract_rcdata(template.clone(), 102).expect("blob present");
    assert_eq!(blob, vec![0x55u8; 64]);
    let units = read_string_resource(template.clone(), 103).expect("string present");
    assert_eq!(units, ascii_units("OldName"));
    let images = icon_group_images(template).expect("icon group present");
    assert_eq!(images, vec![vec![0xAAu8; 16]]);
}

#[test]
fn rcdata_shrinks_in_place_and_reads_back() {
    let template = build_template(template_entries());
    let payload = vec![7u8; 10];
    let img = PeImage::load(template).expect("load");
    let mut ps = ResourcePatchSet::new();
    ps.set_rcdata(102, payload.clone());
    let out = img.commit(&ps).expect("commit");
    assert_eq!(extract_rcdata(out, 102).expect("blob"), payload);
}

#[test]
fn rcdata_grows_the_section_and_reads_back() {
    let template = build_template(template_entries());
    let payload: Vec<u8> = (0..10240).map(|i| (i % 251) as u8).collect();
    let img = PeImage::load(template.clone()).expect("load");
    let mut ps = ResourcePatchSet::new();
    ps.set_rcdata(102, payload.clone());
    let out = img.commit(&ps).expect("commit");
    assert!(out.len() > template.len());
    assert_eq!(extract_rcdata(out, 102).expect("blob"), payload);
}

#[test]
fn string_replacement_reencodes_its_slot_only() {
    let template = build_template(template_entries());
    let img = PeImage::load(template).expect("load");
    let mut ps = ResourcePatchSet::new();
    ps.set_string(103, String::from("Acme Agent"));
    let out = img.commit(&ps).expect("commit");
    assert_eq!(
        read_string_resource(out.clone(), 103).expect("string"),
        ascii_units("Acme Agent")
    );
    // The neighbouring slots of the block stay empty.
    assert_eq!(read_string_resource(out, 96).expect("string"), Vec::<u16>::new());
}

#[test]
fn icon_group_replacement_reads_back_as_payload() {
    let template = build_template(template_entries());
    let new_image = vec![0xBBu8; 20];
    let ico = ico_file(&[new_image.clone()]);
    let img = PeImage::load(template).expect("load");
    let mut ps = ResourcePatchSet::new();
    ps.set_icon(ico);
    let out = img.commit(&ps).expect("commit");
    assert_eq!(icon_group_images(out).expect("icon group"), vec![new_image]);
}

#[test]
fn end_to_end_bundle_and_product_name() {
    // A 64-byte slot, a 10 KB bundle, and the product name.
    let template = build_template(template_entries());
    let bundle: Vec<u8> = (0..10240).map(|i| (i % 17) as u8).collect();
    let ps = build_patch_set(None, Some(bundle.clone()), Some(String::from("Acme Agent")));
    let out = patch_bytes(template, &ps).expect("patch");
    assert_eq!(
        extract_rcdata(out.clone(), WAYK_BUNDLE_RESOURCE_ID).expect("bundle"),
        bundle
    );
    assert_eq!(
        read_string_resource(out, PRODUCT_NAME_RESOURCE_ID).expect("name"),
        ascii_units("Acme Agent")
    );
}

#[test]
fn missing_rcdata_identifier_is_refused() {
    let template = build_template(template_entries());
    let img = PeImage::load(template).expect("load");
    let mut ps = ResourcePatchSet::new();
    ps.set_rcdata(999, vec![1, 2, 3]);
    assert!(img.commit(&ps).is_err());
}

#[test]
fn malformed_icon_payload_is_refused() {
    let template = build_template(template_entries());
    let ps = build_patch_set(Some(vec![1, 2, 3]), None, None);
    assert!(patch_bytes(template, &ps).is_err());
}

#[test]
fn missing_string_block_is_refused() {
    let template = build_template(template_entries());
    let img = PeImage::load(template).expect("load");
    let mut ps = ResourcePatchSet::new();
    // String 900 would live in block 57, which the template lacks.
    ps.set_string(900, String::from("anything"));
    assert!(img.commit(&ps).is_err());
}

#[test]
fn overlong_string_is_refused() {
    let template = build_template(template_entries());
    let img = PeImage::load(template).expect("load");
    let mut ps = ResourcePatchSet::new();
    ps.set_string(103, "x".repeat(70000));
    assert!(img.commit(&ps).is_err());
}

#[test]
fn icon_variant_count_mismatch_is_refused() {
    let template = build_template(template_entries());
    let ico = ico_file(&[vec![1u8; 8], vec![2u8; 8]]);
    let img = PeImage::load(template).expect("load");
    let mut ps = ResourcePatchSet::new();
    ps.set_icon(ico);
    assert!(img.commit(&ps).is_err());
}

#[test]
fn group_referencing_absent_image_is_refused() {
    // The group's one entry points at image identifier 2; only image 1
    // exists.
    let mut group = group_icon_data(16);
    let last = group.len() - 2;
    group[last] = 2;
    let entries = vec![
        entry(3, 1, 0x409, vec![0xAAu8; 16]),
        entry(10, 102, 0x409, vec![0x55u8; 64]),
        entry(14, 1, 0x409, group),
    ];
    let template = build_template(entries);
    let ico = ico_file(&[vec![1u8; 8]]);
    let img = PeImage::load(template).expect("load");
    let mut ps = ResourcePatchSet::new();
    ps.set_icon(ico);
    assert!(img.commit(&ps).is_err());
}

#[test]
fn template_without_icon_group_rejects_icon_edit() {
    let entries = vec![entry(10, 102, 0x409, vec![0x55u8; 64])];
    let template = build_template(entries);
    let ico = ico_file(&[vec![1u8; 8]]);
    let img = PeImage::load(template).expect("load");
    let mut ps = ResourcePatchSet::new();
    ps.set_icon(ico);
    assert!(img.commit(&ps).is_err());
}

#[test]
fn garbage_template_is_refused() {
    let ps = ResourcePatchSet::new();
    assert!(patch_bytes(vec![0u8; 100], &ps).is_err());
}

#[test]
fn pe32plus_template_round_trips_too() {
    let template = build_template_with(template_entries(), true);
    let payload = vec![9u8; 200];
    let img = PeImage::load(template).expect("load");
    let mut ps = ResourcePatchSet::new();
    ps.set_rcdata(102, payload.clone());
    ps.set_string(103, String::from("Acme Agent"));
    let out = img.commit(&ps).expect("commit");
    assert_eq!(extract_rcdata(out.clone(), 102).expect("blob"), payload);
    assert_eq!(
        read_string_resource(out, 103).expect("string"),
        ascii_units("Acme Agent")
    );
}

#[test]
fn patcher_collects_paths() {
    let mut p = ResourcePatcher::new();
    p.set_original_binary_path("template.exe");
    p.set_icon_path("icon.ico");
    p.set_wayk_bundle_path("bundle.7z");
    p.set_product_name("Acme Agent");
    p.set_output_path("out.exe");
    assert_eq!(p.original_binary_path.as_deref(), Some("template.exe"));
    assert_eq!(p.icon_path.as_deref(), Some("icon.ico"));
    assert_eq!(p.wayk_bundle_path.as_deref(), Some("bundle.7z"));
    assert_eq!(p.product_name.as_deref(), Some("Acme Agent"));
    assert_eq!(p.output_path.as_deref(), Some("out.exe"));
}

//! Checks of the bundle composition model and the artifact reader, on
//! archives built in memory.

use std::io::Write;

use wayk_cse_patcher::artifacts_bundle::{ArtifactsBundle, Error as ArchiveError};
use wayk_cse_patcher::bundle::{
    final_layout, platform_binaries_files, required_members, Bitness, BundlePackageType,
    BundlePacker,
};
use wayk_cse_patcher::cse_options::{finalize_architectures, parse_architecture};

fn zip_bytes(members: &[(&str, &[u8])]) -> Vec<u8> {
    let cursor = std::io::Cursor::new(Vec::new());
    let mut writer = zip::ZipWriter::new(cursor);
    for (name, data) in members {
        writer
            .start_file(*name, zip::write::SimpleFileOptions::default())
            .expect("start member");
        writer.write_all(data).expect("write member");
    }
    writer.finish().expect("finish archive").into_inner()
}

#[test]
fn wayk_binary_extracts_successfully() {
    let bytes = zip_bytes(&[("WaykNow.exe", b"123")]);
    let mut bundle = ArtifactsBundle::open(bytes).unwrap();
    let binary = bundle.extract_wayk_now_binary().unwrap();
    assert_eq!(binary.len(), 3);
    let expected = b"123".to_vec();
    assert_eq!(binary, expected);
}

#[test]
fn missing_primary_binary_is_a_missing_file() {
    let bytes = zip_bytes(&[("other.txt", b"x")]);
    let mut bundle = ArtifactsBundle::open(bytes).unwrap();
    assert!(matches!(
        bundle.extract_wayk_now_binary(),
        Err(ArchiveError::MissingFile(_))
    ));
}

#[test]
fn garbage_archive_is_invalid() {
    assert!(matches!(
        ArtifactsBundle::open(vec![1, 2, 3, 4]),
        Err(ArchiveError::InvalidZipFile(_))
    ));
}

#[test]
fn unattended_requires_four_binaries() {
    assert_eq!(
        required_members(true),
        vec![
            "WaykNow.exe",
            "WaykNowService.exe",
            "WaykNowSession.exe",
            "WaykNowLauncher.exe",
        ]
    );
    assert_eq!(required_members(false), vec!["WaykNow.exe"]);
}

#[test]
fn unattended_with_missing_binary_fails_hard() {
    // Three of the four required members: composing must fail.
    let bytes = zip_bytes(&[
        ("WaykNow.exe", b"a".as_slice()),
        ("WaykNowService.exe", b"b".as_slice()),
        ("WaykNowSession.exe", b"c".as_slice()),
    ]);
    let mut bundle = ArtifactsBundle::open(bytes).unwrap();
    let r = platform_binaries_files(&mut bundle, Bitness::X64, true);
    assert!(matches!(r, Err(ArchiveError::MissingFile(_))));
}

#[test]
fn unattended_with_all_binaries_extracts_all_four() {
    let bytes = zip_bytes(&[
        ("WaykNow.exe", b"a".as_slice()),
        ("WaykNowService.exe", b"b".as_slice()),
        ("WaykNowSession.exe", b"c".as_slice()),
        ("WaykNowLauncher.exe", b"d".as_slice()),
    ]);
    let mut bundle = ArtifactsBundle::open(bytes).unwrap();
    let files = platform_binaries_files(&mut bundle, Bitness::X64, true).unwrap();
    assert_eq!(files.len(), 4);
    assert_eq!(files[0].0, "Wayk_x64/WaykNow.exe");
    assert_eq!(files[0].1, b"a".to_vec());
    assert_eq!(files[3].0, "Wayk_x64/WaykNowLauncher.exe");
    assert_eq!(files[3].1, b"d".to_vec());
}

#[test]
fn bundle_layout_names_every_destination() {
    let mut packer = BundlePacker::new();
    packer.add_bundle_package(BundlePackageType::BrandingZip, "in/branding.zip");
    packer.add_bundle_package(BundlePackageType::CustomInitializationScript, "in/setup.ps1");
    packer.add_bundle_package(
        BundlePackageType::WaykBinaries { bitness: Bitness::X64, unattended: false },
        "in/binaries.zip",
    );
    packer.add_bundle_package(BundlePackageType::CseOptions, "in/options.json");
    packer.add_bundle_package(
        BundlePackageType::InstallationMsi { bitness: Bitness::X86 },
        "in/installer.msi",
    );
    packer.add_bundle_package(
        BundlePackageType::InstallationMsi { bitness: Bitness::X64 },
        "in/installer.msi",
    );
    let steps = packer.planned_steps();
    let dests: Vec<&str> = steps.iter().map(|s| s.dest.as_str()).collect();
    assert_eq!(
        dests,
        vec![
            "branding.zip",
            "init.ps1",
            "Wayk_x64/WaykNow.exe",
            "options.json",
            "Installer_x86.msi",
            "Installer_x64.msi",
        ]
    );
}

#[test]
fn same_package_type_twice_keeps_the_later_source() {
    let mut packer = BundlePacker::new();
    packer.add_bundle_package(BundlePackageType::CseOptions, "first/options.json");
    packer.add_bundle_package(BundlePackageType::BrandingZip, "in/branding.zip");
    packer.add_bundle_package(BundlePackageType::CseOptions, "second/options.json");
    let steps = packer.planned_steps();
    let resolved = final_layout(&steps);
    let options: Vec<&str> = resolved
        .iter()
        .filter(|s| s.dest == "options.json")
        .map(|s| s.source_path.as_str())
        .collect();
    assert_eq!(options, vec!["second/options.json"]);
    assert_eq!(resolved.len(), 2);
}

#[test]
fn architecture_words_parse_and_default() {
    assert_eq!(parse_architecture("x86"), Some(Bitness::X86));
    assert_eq!(parse_architecture("x64"), Some(Bitness::X64));
    assert_eq!(parse_architecture("arm"), None);
    assert_eq!(
        finalize_architectures(Vec::new()),
        vec![Bitness::X86, Bitness::X64]
    );
    assert_eq!(finalize_architectures(vec![Bitness::X64]), vec![Bitness::X64]);
}

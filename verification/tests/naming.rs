//! Checks of the value-level helpers: version rendering, artifact URL
//! text, the advertised-version scanner, signing arguments, and the
//! build plan decisions.

use wayk_cse_patcher::bundle::Bitness;
use wayk_cse_patcher::cse_options::{
    BrandingOptions, CseOptionsData, InstallOptions, PostInstallScriptOptions, SigningOptions,
};
use wayk_cse_patcher::decimal::u32_to_dec;
use wayk_cse_patcher::download::{construct_msi_url, construct_zip_url, parse_wayk_version};
use wayk_cse_patcher::error::WaykCseError;
use wayk_cse_patcher::patcher::{product_name_or_default, WaykCsePatcher};
use wayk_cse_patcher::signing::{classify_signtool_exit, make_signtool_args, SigntoolDisposition};
use wayk_cse_patcher::version::NowVersion;

#[test]
fn decimal_rendering_is_exact() {
    assert_eq!(u32_to_dec(0), "0");
    assert_eq!(u32_to_dec(7), "7");
    assert_eq!(u32_to_dec(2021), "2021");
    assert_eq!(u32_to_dec(4294967295), "4294967295");
}

#[test]
fn version_renders_as_triple_and_quad() {
    let v = NowVersion::from_quad([2021, 1, 0, 5]);
    assert_eq!(v.as_triple(), "2021.1.0");
    assert_eq!(v.as_quad(), "2021.1.0.5");
}

#[test]
fn artifact_urls_are_exact() {
    let v = NowVersion::from_quad([3, 1, 2, 0]);
    assert_eq!(
        construct_msi_url(Bitness::X64, &v),
        "https://cdn.devolutions.net/download/Wayk/3.1.2.0/WaykAgent-x64-3.1.2.0.msi"
    );
    assert_eq!(
        construct_zip_url(Bitness::X86, &v),
        "https://cdn.devolutions.net/download/Wayk/3.1.2.0/WaykNow-x86-3.1.2.0.zip"
    );
}

#[test]
fn advertised_version_is_found_after_the_marker() {
    let body = b"<html>stuff Wayk.Version=3.1.2.0 more".to_vec();
    let v = parse_wayk_version(&body).expect("version");
    assert_eq!(v.as_quad(), "3.1.2.0");
}

#[test]
fn page_without_marker_has_no_version() {
    let body = b"<html>nothing here".to_vec();
    assert!(parse_wayk_version(&body).is_none());
    let broken = b"Wayk.Version=3.1.x".to_vec();
    assert!(parse_wayk_version(&broken).is_none());
}

#[test]
fn long_components_are_accepted_when_their_value_fits() {
    let body = b"Wayk.Version=1.1.1.1234567890".to_vec();
    let v = parse_wayk_version(&body).expect("version");
    assert_eq!(v.as_quad(), "1.1.1.1234567890");
    let zeros = b"Wayk.Version=0000000003.1.2.0".to_vec();
    let v = parse_wayk_version(&zeros).expect("version");
    assert_eq!(v.as_quad(), "3.1.2.0");
}

#[test]
fn overflowing_component_yields_no_version() {
    let body = b"Wayk.Version=1.1.1.99999999999".to_vec();
    assert!(parse_wayk_version(&body).is_none());
}

#[test]
fn signtool_arguments_are_exact() {
    let args = make_signtool_args("C:/out/agent.exe", "WaykTestCert");
    assert_eq!(
        args,
        vec![
            "sign",
            "/n",
            "WaykTestCert",
            "/fd",
            "sha256",
            "/tr",
            "http://timestamp.comodoca.com/?td=sha256",
            "/td",
            "sha256",
            "/v",
            "C:/out/agent.exe",
        ]
    );
}

#[test]
fn signtool_exit_status_classification() {
    assert_eq!(classify_signtool_exit(0), SigntoolDisposition::Success);
    assert_eq!(classify_signtool_exit(2), SigntoolDisposition::Warning);
    assert_eq!(classify_signtool_exit(1), SigntoolDisposition::Failure);
    assert_eq!(classify_signtool_exit(-1), SigntoolDisposition::Failure);
}

#[test]
fn build_plan_follows_the_configuration() {
    let options = CseOptionsData {
        branding: BrandingOptions { path: Some(String::from("branding.zip")) },
        signing: SigningOptions { cert_name: Some(String::from("myCert")) },
        post_install_script: PostInstallScriptOptions {
            path: Some(String::from("script.ps1")),
            import_wayk_now_module: Some(true),
        },
        install: InstallOptions {
            embed_msi: None,
            supported_architectures: vec![Bitness::X86, Bitness::X64],
        },
    };
    let plan = WaykCsePatcher::plan_build(&options);
    assert_eq!(plan.msi_bitnesses, vec![Bitness::X86, Bitness::X64]);
    assert_eq!(plan.init_script_path.as_deref(), Some("script.ps1"));
    assert_eq!(plan.branding_path.as_deref(), Some("branding.zip"));
    assert_eq!(plan.cert_name.as_deref(), Some("myCert"));
}

#[test]
fn disabled_embedding_plans_no_installers() {
    let options = CseOptionsData {
        branding: BrandingOptions { path: None },
        signing: SigningOptions { cert_name: None },
        post_install_script: PostInstallScriptOptions {
            path: None,
            import_wayk_now_module: None,
        },
        install: InstallOptions {
            embed_msi: Some(false),
            supported_architectures: vec![Bitness::X64],
        },
    };
    let plan = WaykCsePatcher::plan_build(&options);
    assert_eq!(plan.msi_bitnesses, Vec::<Bitness>::new());
    assert_eq!(plan.cert_name, None);
}

#[test]
fn default_product_name_fills_in() {
    assert_eq!(product_name_or_default(None), "Wayk Agent");
    assert_eq!(
        product_name_or_default(Some(String::from("Acme Agent"))),
        "Acme Agent"
    );
}

#[test]
fn error_messages_name_the_stage() {
    let e = WaykCseError::SigningFailed(String::from("boom"));
    assert_eq!(e.message(), "Signing failure: boom");
    let e = WaykCseError::BundleGenerationFailed(String::from("no 7z"));
    assert_eq!(e.message(), "Failed to generate bundle archive: no 7z");
}

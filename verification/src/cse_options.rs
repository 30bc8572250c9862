//! The configuration values the build pipeline decides on. Reading the
//! options document and writing the finalized one are the caller's
//! work; the rules that interpret the extracted values live here.

use vstd::prelude::*;

use crate::bundle::Bitness;

verus! {

/// Branding configuration: the path of the branding archive, if any.
#[derive(Default)]
pub struct BrandingOptions {
    pub path: Option<String>,
}

/// Signing configuration: the certificate to sign with, if any.
#[derive(Default)]
pub struct SigningOptions {
    pub cert_name: Option<String>,
}

/// Post-install script configuration.
#[derive(Default)]
pub struct PostInstallScriptOptions {
    pub path: Option<String>,
    pub import_wayk_now_module: Option<bool>,
}

/// Installation configuration: whether installer packages are embedded,
/// and for which architectures.
#[derive(Default)]
pub struct InstallOptions {
    pub embed_msi: Option<bool>,
    pub supported_architectures: Vec<Bitness>,
}

/// All interpreted configuration values of one build.
pub struct CseOptionsData {
    pub branding: BrandingOptions,
    pub signing: SigningOptions,
    pub post_install_script: PostInstallScriptOptions,
    pub install: InstallOptions,
}

/// The architecture a configuration word selects.
pub open spec fn arch_of(s: Seq<char>) -> Option<Bitness> {
    if s == "x86"@ {
        Some(Bitness::X86)
    } else if s == "x64"@ {
        Some(Bitness::X64)
    } else {
        None
    }
}

/// Interprets the configured architecture word; any other word selects
/// nothing.
pub fn parse_architecture(s: &str) -> (r: Option<Bitness>)
    ensures
        r == arch_of(s@),
{
    let owned = String::from_str(s);
    if owned == String::from_str("x86") {
        Some(Bitness::X86)
    } else if owned == String::from_str("x64") {
        Some(Bitness::X64)
    } else {
        None
    }
}

/// With no architecture configured, both are supported.
pub fn finalize_architectures(archs: Vec<Bitness>) -> (r: Vec<Bitness>)
    ensures
        archs@.len() == 0 ==> r@ == seq![Bitness::X86, Bitness::X64],
        archs@.len() > 0 ==> r@ == archs@,
{
    if archs.len() == 0 {
        let mut r: Vec<Bitness> = Vec::new();
        r.push(Bitness::X86);
        r.push(Bitness::X64);
        proof {
            assert(r@ =~= seq![Bitness::X86, Bitness::X64]);
        }
        r
    } else {
        archs
    }
}

} // verus!

//! The build pipeline's decisions: which packages a configuration asks
//! for, and which patches apply. Downloading, temporary files and
//! subprocesses stay with the caller; the plan computed here is what it
//! executes.

use vstd::prelude::*;

use crate::bundle::Bitness;
use crate::cse_options::CseOptionsData;

verus! {

/// Builds a customized installer executable out of a template and a
/// configuration.
pub struct WaykCsePatcher;

/// What one build does, decided from the configuration alone: which
/// installer packages are embedded, which script and branding archive
/// ride along, and whether the output is signed.
pub struct BuildPlan {
    pub msi_bitnesses: Vec<Bitness>,
    pub init_script_path: Option<String>,
    pub branding_path: Option<String>,
    pub cert_name: Option<String>,
}

/// The option's character content, if any.
pub open spec fn opt_str_view(o: Option<String>) -> Option<Seq<char>> {
    match o {
        Some(s) => Some(s@),
        None => None,
    }
}

impl WaykCsePatcher {
    pub fn new() -> (r: Self)
    {
        WaykCsePatcher
    }

    /// Decides the build from the configuration: installer packages are
    /// embedded for every supported architecture unless embedding is
    /// switched off; the script, the branding archive and the signing
    /// certificate ride along exactly when configured.
    pub fn plan_build(options: &CseOptionsData) -> (r: BuildPlan)
        ensures
            (options.install.embed_msi matches Some(false)) ==> r.msi_bitnesses@ == Seq::<
                Bitness,
            >::empty(),
            !(options.install.embed_msi matches Some(false)) ==> r.msi_bitnesses@
                == options.install.supported_architectures@,
            opt_str_view(r.init_script_path) == opt_str_view(options.post_install_script.path),
            opt_str_view(r.branding_path) == opt_str_view(options.branding.path),
            opt_str_view(r.cert_name) == opt_str_view(options.signing.cert_name),
    {
        let embed = match options.install.embed_msi {
            Some(b) => b,
            None => true,
        };
        let msi_bitnesses: Vec<Bitness> = if embed {
            options.install.supported_architectures.clone()
        } else {
            Vec::new()
        };
        proof {
            if embed {
                assert(msi_bitnesses@ =~= options.install.supported_architectures@);
            }
        }
        BuildPlan {
            msi_bitnesses,
            init_script_path: clone_opt_string(&options.post_install_script.path),
            branding_path: clone_opt_string(&options.branding.path),
            cert_name: clone_opt_string(&options.signing.cert_name),
        }
    }
}

impl Default for WaykCsePatcher {
    fn default() -> (r: Self)
    {
        Self::new()
    }
}

/// The product name patched in when branding provides none.
pub fn product_name_or_default(name: Option<String>) -> (r: String)
    ensures
        match name {
            Some(n) => r@ == n@,
            None => r@ == "Wayk Agent"@,
        },
{
    match name {
        Some(n) => n,
        None => String::from_str("Wayk Agent"),
    }
}

/// A fresh copy of an optional string.
fn clone_opt_string(o: &Option<String>) -> (r: Option<String>)
    ensures
        opt_str_view(r) == opt_str_view(*o),
{
    match o {
        Some(s) => Some(s.clone()),
        None => None,
    }
}

} // verus!

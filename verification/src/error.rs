//! Main error type of the patcher: one terminal error per build stage.

use vstd::prelude::*;

verus! {

/// Main WaykCse patcher error type.
#[derive(Debug)]
pub enum WaykCseError {
    PatchingError(String),
    BrandingIconExtractionFailed(String),
    ResourcePatchingFailed(String),
    PowerShellModuleDownloadFailed(String),
    InvalidEnvironment(String),
    SigningFailed(String),
    BundleGenerationFailed(String),
    DownloadFailed(String),
    ArtifactsBundleError(String),
    CseOptionsParsingFailed(String),
    Other(String),
}

/// The diagnostic prefix that introduces each error variant.
pub open spec fn wayk_cse_error_prefix(e: &WaykCseError) -> Seq<char> {
    match e {
        WaykCseError::PatchingError(_) => "Patching failed: "@,
        WaykCseError::BrandingIconExtractionFailed(_) => "Branding icon extraction failed: "@,
        WaykCseError::ResourcePatchingFailed(_) => "Resource patching failed: "@,
        WaykCseError::PowerShellModuleDownloadFailed(
            _,
        ) => "Failed to download the power shell module: "@,
        WaykCseError::InvalidEnvironment(_) => "Invalid environment: "@,
        WaykCseError::SigningFailed(_) => "Signing failure: "@,
        WaykCseError::BundleGenerationFailed(_) => "Failed to generate bundle archive: "@,
        WaykCseError::DownloadFailed(_) => "Failed to download package: "@,
        WaykCseError::ArtifactsBundleError(_) => "Artifacts bundle processing failed: "@,
        WaykCseError::CseOptionsParsingFailed(_) => "Cse options parsing failed: "@,
        WaykCseError::Other(_) => "Error: "@,
    }
}

/// The detail text carried by the variant.
pub open spec fn wayk_cse_error_detail(e: &WaykCseError) -> Seq<char> {
    match e {
        WaykCseError::PatchingError(s) => s@,
        WaykCseError::BrandingIconExtractionFailed(s) => s@,
        WaykCseError::ResourcePatchingFailed(s) => s@,
        WaykCseError::PowerShellModuleDownloadFailed(s) => s@,
        WaykCseError::InvalidEnvironment(s) => s@,
        WaykCseError::SigningFailed(s) => s@,
        WaykCseError::BundleGenerationFailed(s) => s@,
        WaykCseError::DownloadFailed(s) => s@,
        WaykCseError::ArtifactsBundleError(s) => s@,
        WaykCseError::CseOptionsParsingFailed(s) => s@,
        WaykCseError::Other(s) => s@,
    }
}

impl WaykCseError {
    /// The operator-facing message: the variant's prefix followed by its detail.
    pub fn message(&self) -> (r: String)
        ensures
            r@ == wayk_cse_error_prefix(self) + wayk_cse_error_detail(self),
    {
        let prefix: &str = match self {
            WaykCseError::PatchingError(_) => "Patching failed: ",
            WaykCseError::BrandingIconExtractionFailed(
                _,
            ) => "Branding icon extraction failed: ",
            WaykCseError::ResourcePatchingFailed(_) => "Resource patching failed: ",
            WaykCseError::PowerShellModuleDownloadFailed(
                _,
            ) => "Failed to download the power shell module: ",
            WaykCseError::InvalidEnvironment(_) => "Invalid environment: ",
            WaykCseError::SigningFailed(_) => "Signing failure: ",
            WaykCseError::BundleGenerationFailed(_) => "Failed to generate bundle archive: ",
            WaykCseError::DownloadFailed(_) => "Failed to download package: ",
            WaykCseError::ArtifactsBundleError(_) => "Artifacts bundle processing failed: ",
            WaykCseError::CseOptionsParsingFailed(_) => "Cse options parsing failed: ",
            WaykCseError::Other(_) => "Error: ",
        };
        let detail: &str = match self {
            WaykCseError::PatchingError(s) => s.as_str(),
            WaykCseError::BrandingIconExtractionFailed(s) => s.as_str(),
            WaykCseError::ResourcePatchingFailed(s) => s.as_str(),
            WaykCseError::PowerShellModuleDownloadFailed(s) => s.as_str(),
            WaykCseError::InvalidEnvironment(s) => s.as_str(),
            WaykCseError::SigningFailed(s) => s.as_str(),
            WaykCseError::BundleGenerationFailed(s) => s.as_str(),
            WaykCseError::DownloadFailed(s) => s.as_str(),
            WaykCseError::ArtifactsBundleError(s) => s.as_str(),
            WaykCseError::CseOptionsParsingFailed(s) => s.as_str(),
            WaykCseError::Other(s) => s.as_str(),
        };
        let mut r = String::from_str(prefix);
        r.append(detail);
        r
    }
}

} // verus!

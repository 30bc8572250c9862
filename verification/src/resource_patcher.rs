//! The public face of the resource patching engine: collect the paths
//! and values to patch, then rewrite a template image's resources in one
//! pass. File reading and writing stay with the caller; the engine works
//! on bytes and never touches the template file itself.

use vstd::prelude::*;

use crate::patchset::{patch_applied, patch_ok, patch_refused, CommitError, ResourcePatchSet};
use crate::pe::{file_entries, wf_file, PeImage};

verus! {

/// Resource identifier of the embedded bundle blob.
pub const WAYK_BUNDLE_RESOURCE_ID: u32 = 102;

/// String identifier of the product name.
pub const PRODUCT_NAME_RESOURCE_ID: u32 = 103;

/// Why patching failed: the template would not load, or one of the
/// recorded edits could not be applied.
#[derive(Debug)]
pub enum Error {
    ExecutableLoadFailed(String),
    ResourcePatchingFailed(String),
}

impl Error {
    /// The operator-facing message.
    pub fn message(&self) -> (r: String)
        ensures
            r@ == match self {
                Error::ExecutableLoadFailed(s) => "Failed to load executable ("@ + s@ + ")"@,
                Error::ResourcePatchingFailed(s) => "Failed to patch resource ("@ + s@ + ")"@,
            },
    {
        let (prefix, detail): (&str, &String) = match self {
            Error::ExecutableLoadFailed(s) => ("Failed to load executable (", s),
            Error::ResourcePatchingFailed(s) => ("Failed to patch resource (", s),
        };
        let mut r = String::from_str(prefix);
        r.append(detail.as_str());
        r.append(")");
        r
    }
}

/// Collects what to patch into a template binary: the paths are opaque
/// to the engine and are resolved to bytes by the caller.
pub struct ResourcePatcher {
    pub original_binary_path: Option<String>,
    pub icon_path: Option<String>,
    pub wayk_bundle_path: Option<String>,
    pub product_name: Option<String>,
    pub output_path: Option<String>,
}

impl ResourcePatcher {
    pub fn new() -> (r: Self)
        ensures
            r.original_binary_path is None,
            r.icon_path is None,
            r.wayk_bundle_path is None,
            r.product_name is None,
            r.output_path is None,
    {
        ResourcePatcher {
            original_binary_path: None,
            icon_path: None,
            wayk_bundle_path: None,
            product_name: None,
            output_path: None,
        }
    }

    pub fn set_original_binary_path(&mut self, path: &str)
        ensures
            final(self).original_binary_path matches Some(p) && p@ == path@,
            final(self).icon_path == old(self).icon_path,
            final(self).wayk_bundle_path == old(self).wayk_bundle_path,
            final(self).product_name == old(self).product_name,
            final(self).output_path == old(self).output_path,
    {
        self.original_binary_path = Some(String::from_str(path));
    }

    pub fn set_icon_path(&mut self, path: &str)
        ensures
            final(self).icon_path matches Some(p) && p@ == path@,
            final(self).original_binary_path == old(self).original_binary_path,
            final(self).wayk_bundle_path == old(self).wayk_bundle_path,
            final(self).product_name == old(self).product_name,
            final(self).output_path == old(self).output_path,
    {
        self.icon_path = Some(String::from_str(path));
    }

    pub fn set_wayk_bundle_path(&mut self, path: &str)
        ensures
            final(self).wayk_bundle_path matches Some(p) && p@ == path@,
            final(self).original_binary_path == old(self).original_binary_path,
            final(self).icon_path == old(self).icon_path,
            final(self).product_name == old(self).product_name,
            final(self).output_path == old(self).output_path,
    {
        self.wayk_bundle_path = Some(String::from_str(path));
    }

    pub fn set_product_name(&mut self, name: &str)
        ensures
            final(self).product_name matches Some(p) && p@ == name@,
            final(self).original_binary_path == old(self).original_binary_path,
            final(self).icon_path == old(self).icon_path,
            final(self).wayk_bundle_path == old(self).wayk_bundle_path,
            final(self).output_path == old(self).output_path,
    {
        self.product_name = Some(String::from_str(name));
    }

    pub fn set_output_path(&mut self, path: &str)
        ensures
            final(self).output_path matches Some(p) && p@ == path@,
            final(self).original_binary_path == old(self).original_binary_path,
            final(self).icon_path == old(self).icon_path,
            final(self).wayk_bundle_path == old(self).wayk_bundle_path,
            final(self).product_name == old(self).product_name,
    {
        self.output_path = Some(String::from_str(path));
    }
}

impl Default for ResourcePatcher {
    fn default() -> (r: Self)
        ensures
            r.original_binary_path is None,
            r.icon_path is None,
            r.wayk_bundle_path is None,
            r.product_name is None,
            r.output_path is None,
    {
        Self::new()
    }
}

/// Builds the patch set that the collected values stand for: the icon
/// bytes, the bundle blob under its fixed identifier, and the product
/// name under its fixed string identifier.
pub fn build_patch_set(
    icon: Option<Vec<u8>>,
    bundle: Option<Vec<u8>>,
    product_name: Option<String>,
) -> (r: ResourcePatchSet)
    ensures
        r.icon_view() == match icon {
            Some(b) => Some(b@),
            None => None,
        },
        r.rcdata_view() == match bundle {
            Some(b) => Some((WAYK_BUNDLE_RESOURCE_ID, b@)),
            None => None,
        },
        r.strings_view() == match product_name {
            Some(n) => Seq::<(u32, Seq<char>)>::empty().push((PRODUCT_NAME_RESOURCE_ID, n@)),
            None => Seq::<(u32, Seq<char>)>::empty(),
        },
{
    let mut ps = ResourcePatchSet::new();
    match icon {
        Some(b) => ps.set_icon(b),
        None => (),
    }
    match bundle {
        Some(b) => ps.set_rcdata(WAYK_BUNDLE_RESOURCE_ID, b),
        None => (),
    }
    match product_name {
        Some(n) => ps.set_string(PRODUCT_NAME_RESOURCE_ID, n),
        None => (),
    }
    ps
}

/// The diagnostic text each refusal carries.
pub open spec fn commit_error_message(e: CommitError) -> Seq<char> {
    match e {
        CommitError::IconFailed(_) => "icon replacement failed"@,
        CommitError::RcdataMissing(_) => "data blob identifier not in template"@,
        CommitError::StringFailed(_, _) => "string table replacement failed"@,
        CommitError::RebuildFailed => "image rebuild failed"@,
    }
}

/// Loads the template bytes, applies the patch set, and returns the
/// rebuilt image bytes. The template is never modified; a failure
/// produces no output at all, and its message names the edit that
/// failed.
pub fn patch_bytes(template: Vec<u8>, ps: &ResourcePatchSet) -> (r: Result<Vec<u8>, Error>)
    ensures
        r matches Ok(out) ==> {
            &&& wf_file(template@)
            &&& wf_file(out@)
            &&& ps.spec_is_empty() ==> out@ == template@
            &&& patch_applied(
                file_entries(template@),
                ps.icon_view(),
                ps.rcdata_view(),
                ps.strings_view(),
                file_entries(out@),
            )
        },
        r matches Err(Error::ExecutableLoadFailed(_)) <==> !wf_file(template@),
        r matches Err(Error::ResourcePatchingFailed(m)) ==> exists|ce: CommitError|
            patch_refused(
                file_entries(template@),
                ps.icon_view(),
                ps.rcdata_view(),
                ps.strings_view(),
                ce,
            ) && m@ == commit_error_message(ce),
        wf_file(template@) && patch_ok(
            file_entries(template@),
            ps.icon_view(),
            ps.rcdata_view(),
            ps.strings_view(),
        ) ==> (r matches Err(Error::ResourcePatchingFailed(m)) ==> m@ == commit_error_message(
            CommitError::RebuildFailed,
        )),
        wf_file(template@) && ps.spec_is_empty() ==> r is Ok,
{
    let img = match PeImage::load(template) {
        Ok(img) => img,
        Err(()) => {
            return Err(
                Error::ExecutableLoadFailed(
                    String::from_str("not a well-formed executable image"),
                ),
            );
        },
    };
    match img.commit(ps) {
        Ok(out) => Ok(out),
        Err(e) => {
            let ghost ce = e;
            let msg: &str = match &e {
                CommitError::IconFailed(_) => "icon replacement failed",
                CommitError::RcdataMissing(_) => "data blob identifier not in template",
                CommitError::StringFailed(_, _) => "string table replacement failed",
                CommitError::RebuildFailed => "image rebuild failed",
            };
            proof {
                assert(msg@ == commit_error_message(ce));
            }
            Err(Error::ResourcePatchingFailed(String::from_str(msg)))
        },
    }
}

} // verus!

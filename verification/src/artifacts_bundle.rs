//! The artifact reader: opens a compressed archive held in memory and
//! extracts single named members by logical role. The archive container
//! comes from an outside crate and stands behind trusted declarations;
//! everything a caller learns goes through their contracts.
//!
//! Archives and members are held in memory whole: the verified core
//! works on byte values, a deliberate trade against streaming members
//! to a sink block by block.

use std::io::Read;

use vstd::prelude::*;

verus! {

#[verifier::external_type_specification]
#[verifier::external_body]
#[verifier::reject_recursive_types(R)]
pub struct ExZipArchive<R>(zip::ZipArchive<R>);

#[verifier::external_type_specification]
#[verifier::external_body]
#[verifier::reject_recursive_types(T)]
pub struct ExCursor<T>(std::io::Cursor<T>);

/// Whether `zip::ZipArchive::new` accepts these bytes as an archive: its
/// central directory parses.
pub uninterp spec fn zip_open_ok(bytes: Seq<u8>) -> bool;

/// The members the archive formed from these bytes holds: decompressed
/// content by name.
pub uninterp spec fn zip_members_of(bytes: Seq<u8>) -> Map<Seq<char>, Seq<u8>>;

/// The members an opened archive holds: decompressed content by name.
pub uninterp spec fn zip_members(a: zip::ZipArchive<std::io::Cursor<Vec<u8>>>) -> Map<
    Seq<char>,
    Seq<u8>,
>;

/// Whether reading the named member out of this archive value succeeds:
/// the archive holds its full bytes, so the outcome depends on the
/// archive value and the name alone.
pub uninterp spec fn zip_member_readable(
    a: zip::ZipArchive<std::io::Cursor<Vec<u8>>>,
    name: Seq<char>,
) -> bool;

/// Relies on zip::ZipArchive::new: reading the central directory
/// succeeds exactly when the bytes form a parseable archive, and the
/// handle's members are a function of the bytes alone.
#[verifier::external_body]
fn open_zip_archive(bytes: Vec<u8>) -> (r: Result<zip::ZipArchive<std::io::Cursor<Vec<u8>>>, ()>)
    ensures
        r is Ok <==> zip_open_ok(bytes@),
        r matches Ok(a) ==> zip_members(a) == zip_members_of(bytes@),
{
    match zip::ZipArchive::new(std::io::Cursor::new(bytes)) {
        Ok(a) => Ok(a),
        Err(_) => Err(()),
    }
}

/// A member read that failed.
#[derive(Debug)]
pub enum MemberReadError {
    /// The named entry is absent from the archive's directory.
    Missing,
    /// The entry exists but its content could not be decompressed.
    Decompression,
}

/// Relies on zip::ZipArchive::by_name and std::io::Read::read_to_end:
/// a missing name fails with zip's file-not-found error and nothing
/// else does; reading a present, decompressible member succeeds with
/// its content; the archive's directory, content and decompressibility
/// are independent of the reader position the call moves.
#[verifier::external_body]
fn read_member(a: &mut zip::ZipArchive<std::io::Cursor<Vec<u8>>>, name: &str) -> (r: Result<
    Vec<u8>,
    MemberReadError,
>)
    ensures
        zip_members(*final(a)) == zip_members(*old(a)),
        forall|n: Seq<char>|
            #[trigger] zip_member_readable(*final(a), n) == zip_member_readable(*old(a), n),
        r is Ok <==> zip_members(*old(a)).contains_key(name@) && zip_member_readable(
            *old(a),
            name@,
        ),
        r matches Ok(d) ==> d@ == zip_members(*old(a))[name@],
        r matches Err(MemberReadError::Missing) <==> !zip_members(*old(a)).contains_key(name@),
{
    match a.by_name(name) {
        Ok(mut member) => {
            let mut data = Vec::new();
            match member.read_to_end(&mut data) {
                Ok(_) => Ok(data),
                Err(_) => Err(MemberReadError::Decompression),
            }
        },
        Err(zip::result::ZipError::FileNotFound) => Err(MemberReadError::Missing),
        Err(_) => Err(MemberReadError::Decompression),
    }
}

/// What went wrong with an artifacts archive.
#[derive(Debug)]
pub enum Error {
    /// The container could not be read or a member failed to decompress.
    IoError(String),
    /// The bytes are not a parseable archive.
    InvalidZipFile(String),
    /// The named member is absent: a recoverable condition, distinct
    /// from an unreadable archive.
    MissingFile(String),
}

impl Error {
    /// The operator-facing message.
    pub fn message(&self) -> (r: String)
        ensures
            r@ == match self {
                Error::IoError(
                    s,
                ) => "IO error detected during artifacts bundle processing ("@ + s@ + ")"@,
                Error::InvalidZipFile(s) => "Failed to parse zip file ("@ + s@ + ")"@,
                Error::MissingFile(s) => "File "@ + s@ + " is missing inside artifacts bundle zip"@,
            },
    {
        match self {
            Error::IoError(s) => {
                let mut r = String::from_str("IO error detected during artifacts bundle processing (");
                r.append(s.as_str());
                r.append(")");
                r
            },
            Error::InvalidZipFile(s) => {
                let mut r = String::from_str("Failed to parse zip file (");
                r.append(s.as_str());
                r.append(")");
                r
            },
            Error::MissingFile(s) => {
                let mut r = String::from_str("File ");
                r.append(s.as_str());
                r.append(" is missing inside artifacts bundle zip");
                r
            },
        }
    }
}

/// An opened artifacts archive.
pub struct ArtifactsBundle {
    pub archive: zip::ZipArchive<std::io::Cursor<Vec<u8>>>,
}

impl ArtifactsBundle {
    /// The archive's members, by name.
    pub open spec fn members(&self) -> Map<Seq<char>, Seq<u8>> {
        zip_members(self.archive)
    }

    /// Whether the named member's content can be read out.
    pub open spec fn member_readable(&self, name: Seq<char>) -> bool {
        zip_member_readable(self.archive, name)
    }

    /// Opens an archive held in memory.
    ///
    /// Fails exactly when the container's central directory cannot be
    /// parsed; the opened archive holds the members of these bytes.
    pub fn open(bytes: Vec<u8>) -> (r: Result<Self, Error>)
        ensures
            r is Ok <==> zip_open_ok(bytes@),
            r matches Ok(b) ==> b.members() == zip_members_of(bytes@),
            r is Err ==> r matches Err(Error::InvalidZipFile(_)),
    {
        match open_zip_archive(bytes) {
            Ok(archive) => Ok(ArtifactsBundle { archive }),
            Err(()) => Err(
                Error::InvalidZipFile(String::from_str("central directory did not parse")),
            ),
        }
    }

    /// Extracts one named member.
    ///
    /// Succeeds, with exactly the member's content, whenever the member
    /// is present and readable. A missing member is reported as
    /// `MissingFile`, exactly when the name is absent; any other failure
    /// is an `IoError`.
    pub fn extract_member(&mut self, name: &str) -> (r: Result<Vec<u8>, Error>)
        ensures
            final(self).members() == old(self).members(),
            forall|n: Seq<char>|
                #[trigger] final(self).member_readable(n) == old(self).member_readable(n),
            r is Ok <==> old(self).members().contains_key(name@) && old(self).member_readable(
                name@,
            ),
            r matches Ok(d) ==> d@ == old(self).members()[name@],
            r matches Err(Error::MissingFile(_)) <==> !old(self).members().contains_key(name@),
            r matches Err(e) ==> !(e matches Error::InvalidZipFile(_)),
    {
        match read_member(&mut self.archive, name) {
            Ok(d) => Ok(d),
            Err(MemberReadError::Missing) => Err(Error::MissingFile(String::from_str(name))),
            Err(MemberReadError::Decompression) => Err(
                Error::IoError(String::from_str("member content could not be read")),
            ),
        }
    }

    /// Extracts the primary platform binary.
    pub fn extract_wayk_now_binary(&mut self) -> (r: Result<Vec<u8>, Error>)
        ensures
            final(self).members() == old(self).members(),
            forall|n: Seq<char>|
                #[trigger] final(self).member_readable(n) == old(self).member_readable(n),
            r is Ok <==> old(self).members().contains_key("WaykNow.exe"@) && old(
                self,
            ).member_readable("WaykNow.exe"@),
            r matches Ok(d) ==> d@ == old(self).members()["WaykNow.exe"@],
            r matches Err(Error::MissingFile(_)) <==> !old(self).members().contains_key(
                "WaykNow.exe"@,
            ),
    {
        self.extract_member("WaykNow.exe")
    }
}

} // verus!

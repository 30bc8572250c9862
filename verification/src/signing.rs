//! Code signing support: the exact argument list handed to the signing
//! tool, and the meaning of its exit status. Invoking the tool is the
//! caller's work.

use vstd::prelude::*;

verus! {

/// Why signing failed.
#[derive(Debug)]
pub enum Error {
    SigntoolFailed(String),
    SigntoolNotFound,
}

impl Error {
    /// The operator-facing message.
    pub fn message(&self) -> (r: String)
        ensures
            r@ == match self {
                Error::SigntoolFailed(s) => "Signtool execution failed: ("@ + s@ + ")"@,
                Error::SigntoolNotFound => "Signtool was not found"@,
            },
    {
        match self {
            Error::SigntoolFailed(s) => {
                let mut r = String::from_str("Signtool execution failed: (");
                r.append(s.as_str());
                r.append(")");
                r
            },
            Error::SigntoolNotFound => String::from_str("Signtool was not found"),
        }
    }
}

/// What a signing tool exit status means.
#[derive(PartialEq, Eq, Structural, Debug)]
pub enum SigntoolDisposition {
    /// The binary was signed.
    Success,
    /// The binary was signed, with a warning to surface.
    Warning,
    /// Signing failed.
    Failure,
}

/// The meaning of an exit status.
pub open spec fn disposition_of(code: int) -> SigntoolDisposition {
    if code == 0 {
        SigntoolDisposition::Success
    } else if code == 2 {
        SigntoolDisposition::Warning
    } else {
        SigntoolDisposition::Failure
    }
}

/// Classifies the signing tool's exit status: zero succeeded, two warns,
/// anything else failed.
pub fn classify_signtool_exit(code: i32) -> (r: SigntoolDisposition)
    ensures
        r == disposition_of(code as int),
{
    if code == 0 {
        SigntoolDisposition::Success
    } else if code == 2 {
        SigntoolDisposition::Warning
    } else {
        SigntoolDisposition::Failure
    }
}

/// The fixed signing argument list for one file and certificate.
pub open spec fn signtool_args(file_path: Seq<char>, cert_name: Seq<char>) -> Seq<Seq<char>> {
    seq![
        "sign"@,
        "/n"@,
        cert_name,
        "/fd"@,
        "sha256"@,
        "/tr"@,
        "http://timestamp.comodoca.com/?td=sha256"@,
        "/td"@,
        "sha256"@,
        "/v"@,
        file_path,
    ]
}

/// The views of an argument vector.
pub open spec fn args_view(s: Seq<String>) -> Seq<Seq<char>> {
    s.map_values(|a: String| a@)
}

/// Builds the signing tool's argument list: sign with the named
/// certificate, digest and timestamp with the fixed algorithm and
/// service, verbosely, over the named file.
pub fn make_signtool_args(file_path: &str, cert_name: &str) -> (r: Vec<String>)
    ensures
        args_view(r@) == signtool_args(file_path@, cert_name@),
{
    let mut args: Vec<String> = Vec::new();
    args.push(String::from_str("sign"));
    args.push(String::from_str("/n"));
    args.push(String::from_str(cert_name));
    args.push(String::from_str("/fd"));
    args.push(String::from_str("sha256"));
    args.push(String::from_str("/tr"));
    args.push(String::from_str("http://timestamp.comodoca.com/?td=sha256"));
    args.push(String::from_str("/td"));
    args.push(String::from_str("sha256"));
    args.push(String::from_str("/v"));
    args.push(String::from_str(file_path));
    proof {
        assert(args_view(args@) =~= signtool_args(file_path@, cert_name@));
    }
    args
}

} // verus!

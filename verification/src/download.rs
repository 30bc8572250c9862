//! Naming and recognising download artifacts: the exact URLs installer
//! packages live at, and reading the advertised product version out of
//! a fetched page. The fetching itself is the caller's work.

use vstd::prelude::*;

use crate::bundle::{bitness_name, Bitness};
use crate::version::{quad_str, NowVersion};

verus! {

/// Why naming or recognising an artifact failed.
#[derive(Debug)]
pub enum Error {
    /// A constructed download location was not a valid URL.
    InvalidUrl(String),
    /// The advertised version could not be found or read.
    RemoteVersionNotDetected(String),
}

impl Error {
    /// The operator-facing message.
    pub fn message(&self) -> (r: String)
        ensures
            r@ == match self {
                Error::InvalidUrl(s) => "Download url is invalid ("@ + s@ + ")"@,
                Error::RemoteVersionNotDetected(_) => "Failed to detect remote version"@,
            },
    {
        match self {
            Error::InvalidUrl(s) => {
                let mut r = String::from_str("Download url is invalid (");
                r.append(s.as_str());
                r.append(")");
                r
            },
            Error::RemoteVersionNotDetected(_) => String::from_str(
                "Failed to detect remote version",
            ),
        }
    }
}

/// The URL of the installer package for one version and architecture.
pub open spec fn msi_url_str(b: Bitness, quad: Seq<u32>) -> Seq<char> {
    "https://cdn.devolutions.net/download/Wayk/"@ + quad_str(quad) + "/WaykAgent-"@ + bitness_name(
        b,
    ) + "-"@ + quad_str(quad) + ".msi"@
}

/// The URL of the platform binaries archive for one version and
/// architecture.
pub open spec fn zip_url_str(b: Bitness, quad: Seq<u32>) -> Seq<char> {
    "https://cdn.devolutions.net/download/Wayk/"@ + quad_str(quad) + "/WaykNow-"@ + bitness_name(
        b,
    ) + "-"@ + quad_str(quad) + ".zip"@
}

/// Builds the exact text of the installer package URL.
pub fn construct_msi_url(bitness: Bitness, version: &NowVersion) -> (r: String)
    ensures
        r@ == msi_url_str(bitness, version.spec_quad()),
{
    let quad = version.as_quad();
    let mut r = String::from_str("https://cdn.devolutions.net/download/Wayk/");
    r.append(quad.as_str());
    r.append("/WaykAgent-");
    r.append(bitness.name());
    r.append("-");
    r.append(quad.as_str());
    r.append(".msi");
    proof {
        assert(r@ =~= msi_url_str(bitness, version.spec_quad()));
    }
    r
}

/// Builds the exact text of the platform binaries archive URL.
pub fn construct_zip_url(bitness: Bitness, version: &NowVersion) -> (r: String)
    ensures
        r@ == zip_url_str(bitness, version.spec_quad()),
{
    let quad = version.as_quad();
    let mut r = String::from_str("https://cdn.devolutions.net/download/Wayk/");
    r.append(quad.as_str());
    r.append("/WaykNow-");
    r.append(bitness.name());
    r.append("-");
    r.append(quad.as_str());
    r.append(".zip");
    proof {
        assert(r@ =~= zip_url_str(bitness, version.spec_quad()));
    }
    r
}

/// The marker that precedes the advertised version.
pub open spec fn wayk_marker() -> Seq<u8> {
    seq![87u8, 97u8, 121u8, 107u8, 46u8, 86u8, 101u8, 114u8, 115u8, 105u8, 111u8, 110u8, 61u8]
}

/// The marker starts at position `p`.
pub open spec fn marker_at(s: Seq<u8>, p: int) -> bool {
    0 <= p && p + 13 <= s.len() && s.subrange(p, p + 13) == wayk_marker()
}

pub open spec fn has_marker(s: Seq<u8>) -> bool {
    exists|p: int| marker_at(s, p)
}

/// `p` is the first marker position.
pub open spec fn is_first_marker(s: Seq<u8>, p: int) -> bool {
    marker_at(s, p) && forall|q: int| 0 <= q < p ==> !marker_at(s, q)
}

/// An ASCII decimal digit.
pub open spec fn is_dig(b: u8) -> bool {
    48 <= b <= 57
}

/// The end of the digit run starting at `p`.
pub open spec fn run_end(s: Seq<u8>, p: int) -> int
    decreases s.len() - p,
{
    if 0 <= p < s.len() && is_dig(s[p]) {
        run_end(s, p + 1)
    } else {
        p
    }
}

/// The decimal value of the digits in `[p, q)`.
pub open spec fn run_val(s: Seq<u8>, p: int, q: int) -> int
    decreases q - p,
{
    if q <= p {
        0
    } else {
        run_val(s, p, q - 1) * 10 + (s[q - 1] - 48)
    }
}

/// One version component at `p`: a non-empty digit run whose decimal
/// value fits a `u32`, however many digits spell it.
pub open spec fn comp_ok(s: Seq<u8>, p: int) -> bool {
    &&& run_end(s, p) > p
    &&& run_val(s, p, run_end(s, p)) <= u32::MAX
}

/// The version quad spelled out after the marker: four digit runs
/// separated by dots.
pub open spec fn version_after(s: Seq<u8>, p0: int) -> Option<Seq<u32>> {
    let e0 = run_end(s, p0);
    let p1 = e0 + 1;
    let e1 = run_end(s, p1);
    let p2 = e1 + 1;
    let e2 = run_end(s, p2);
    let p3 = e2 + 1;
    let e3 = run_end(s, p3);
    if comp_ok(s, p0) && e0 < s.len() && s[e0] == 46 && comp_ok(s, p1) && e1 < s.len() && s[e1]
        == 46 && comp_ok(s, p2) && e2 < s.len() && s[e2] == 46 && comp_ok(s, p3) {
        Some(
            seq![
                run_val(s, p0, e0) as u32,
                run_val(s, p1, e1) as u32,
                run_val(s, p2, e2) as u32,
                run_val(s, p3, e3) as u32,
            ],
        )
    } else {
        None
    }
}

/// The version the page advertises: the quad after the first marker
/// occurrence, when one follows it.
pub open spec fn spec_parse_version(s: Seq<u8>) -> Option<Seq<u32>> {
    if has_marker(s) {
        version_after(s, (choose|p: int| is_first_marker(s, p)) + 13)
    } else {
        None
    }
}

/// Below any marker there is a first marker.
proof fn lemma_first_marker_below(s: Seq<u8>, p: int)
    requires
        marker_at(s, p),
    ensures
        exists|q: int| is_first_marker(s, q),
    decreases p,
{
    if forall|q: int| 0 <= q < p ==> !marker_at(s, q) {
        assert(is_first_marker(s, p));
    } else {
        let q = choose|q: int| 0 <= q < p && marker_at(s, q);
        lemma_first_marker_below(s, q);
    }
}

/// The first marker is the one the `choose` picks.
proof fn lemma_first_marker_choose(s: Seq<u8>, p: int)
    requires
        is_first_marker(s, p),
    ensures
        (choose|q: int| is_first_marker(s, q)) == p,
{
    let w = choose|q: int| is_first_marker(s, q);
    assert(is_first_marker(s, w));
    if w < p {
        assert(!marker_at(s, w));
    } else if p < w {
        assert(!marker_at(s, p));
    }
}

/// The marker bytes.
fn marker_bytes() -> (r: Vec<u8>)
    ensures
        r@ == wayk_marker(),
{
    let mut r: Vec<u8> = Vec::new();
    r.push(87u8);
    r.push(97u8);
    r.push(121u8);
    r.push(107u8);
    r.push(46u8);
    r.push(86u8);
    r.push(101u8);
    r.push(114u8);
    r.push(115u8);
    r.push(105u8);
    r.push(111u8);
    r.push(110u8);
    r.push(61u8);
    proof {
        assert(r@ =~= wayk_marker());
    }
    r
}

/// Whether the marker starts at `p`.
#[verifier::loop_isolation(false)]
fn marker_matches(s: &Vec<u8>, p: usize) -> (r: bool)
    requires
        p + 13 <= s@.len(),
    ensures
        r <==> marker_at(s@, p as int),
{
    let n = s.len();
    proof {
        assert(p + 13 <= n);
    }
    let m = marker_bytes();
    let mut k: usize = 0;
    while k < 13
        invariant
            k <= 13,
            forall|x: int| 0 <= x < k ==> s@[p + x] == wayk_marker()[x],
        decreases 13 - k,
    {
        if s[p + k] != m[k] {
            proof {
                assert(s@.subrange(p as int, p + 13)[k as int] != wayk_marker()[k as int]);
            }
            return false;
        }
        k = k + 1;
    }
    proof {
        assert(s@.subrange(p as int, p + 13) =~= wayk_marker());
    }
    true
}

/// A digit run stays inside the text and holds digits only.
proof fn lemma_run_end_props(s: Seq<u8>, p: int)
    requires
        0 <= p <= s.len(),
    ensures
        p <= run_end(s, p) <= s.len(),
        forall|x: int| p <= x < run_end(s, p) ==> is_dig(#[trigger] s[x]),
    decreases s.len() - p,
{
    if p < s.len() && is_dig(s[p]) {
        lemma_run_end_props(s, p + 1);
        assert forall|x: int| p <= x < run_end(s, p) implies is_dig(#[trigger] s[x]) by {
            if x > p {
                assert(p + 1 <= x < run_end(s, p + 1));
            }
        }
    }
}

/// Reads the digit run starting at `p`: its end and, when its decimal
/// value fits a `u32`, that value.
#[verifier::loop_isolation(false)]
fn read_run(s: &Vec<u8>, p: usize) -> (r: (usize, Option<u32>))
    requires
        p <= s@.len(),
    ensures
        r.0 == run_end(s@, p as int),
        p <= r.0 <= s@.len(),
        match r.1 {
            Some(v) => run_val(s@, p as int, r.0 as int) <= u32::MAX && v == run_val(
                s@,
                p as int,
                r.0 as int,
            ),
            None => run_val(s@, p as int, r.0 as int) > u32::MAX,
        },
{
    let n = s.len();
    proof {
        lemma_run_end_props(s@, p as int);
    }
    let mut q: usize = p;
    let mut val: u64 = 0;
    let mut over: bool = false;
    while q < n && s[q] >= 48 && s[q] <= 57
        invariant
            p <= q <= n,
            run_end(s@, p as int) == run_end(s@, q as int),
            forall|x: int| p <= x < q ==> is_dig(#[trigger] s@[x]),
            !over ==> val == run_val(s@, p as int, q as int) && val <= 0xFFFF_FFFFu64,
            over ==> run_val(s@, p as int, q as int) > 0xFFFF_FFFFu64,
            0 <= run_val(s@, p as int, q as int),
        decreases n - q,
    {
        proof {
            assert(run_val(s@, p as int, q + 1) == run_val(s@, p as int, q as int) * 10 + (s@[
                q as int
            ] - 48));
        }
        if !over {
            val = val * 10 + ((s[q] - 48) as u64);
            if val > 0xFFFF_FFFFu64 {
                over = true;
            }
        }
        q = q + 1;
    }
    proof {
        assert(run_end(s@, q as int) == q);
    }
    if over {
        (q, None)
    } else {
        (q, Some(val as u32))
    }
}

/// Reads the version the page advertises, as the original quad: four
/// dot-separated components, each a digit run whose value fits a
/// `u32`, right after the first occurrence of the version marker.
pub fn parse_wayk_version(body: &Vec<u8>) -> (r: Option<NowVersion>)
    ensures
        match r {
            Some(v) => spec_parse_version(body@) == Some(v.spec_quad()),
            None => spec_parse_version(body@) is None,
        },
{
    let n = body.len();
    let mut p: usize = 0;
    let mut found: Option<usize> = None;
    while n - p >= 13
        invariant_except_break
            found is None,
        invariant
            p <= n,
            n == body@.len(),
            forall|q: int| 0 <= q < p ==> !marker_at(body@, q),
        ensures
            match found {
                Some(f) => is_first_marker(body@, f as int) && f as int + 13 <= n,
                None => (p as int) + 13 > n as int,
            },
        decreases n - p,
    {
        if marker_matches(body, p) {
            proof {
                assert(is_first_marker(body@, p as int));
            }
            found = Some(p);
            break;
        }
        p = p + 1;
    }
    let f = match found {
        Some(f) => f,
        None => {
            proof {
                if has_marker(body@) {
                    let q = choose|q: int| marker_at(body@, q);
                    assert(q + 13 <= body@.len());
                    assert(!marker_at(body@, q));
                }
            }
            return None;
        },
    };
    proof {
        lemma_first_marker_choose(body@, f as int);
    }
    let p0 = f + 13;
    let (e0, r0) = read_run(body, p0);
    let v0 = match r0 {
        Some(v) => v,
        None => {
            return None;
        },
    };
    if e0 == p0 || e0 >= n || body[e0] != 46 {
        return None;
    }
    let p1 = e0 + 1;
    let (e1, r1) = read_run(body, p1);
    let v1 = match r1 {
        Some(v) => v,
        None => {
            return None;
        },
    };
    if e1 == p1 || e1 >= n || body[e1] != 46 {
        return None;
    }
    let p2 = e1 + 1;
    let (e2, r2) = read_run(body, p2);
    let v2 = match r2 {
        Some(v) => v,
        None => {
            return None;
        },
    };
    if e2 == p2 || e2 >= n || body[e2] != 46 {
        return None;
    }
    let p3 = e2 + 1;
    let (e3, r3) = read_run(body, p3);
    let v3 = match r3 {
        Some(v) => v,
        None => {
            return None;
        },
    };
    if e3 == p3 {
        return None;
    }
    let version = NowVersion::from_quad([v0, v1, v2, v3]);
    proof {
        assert(version.spec_quad() =~= version_after(body@, p0 as int)->Some_0);
    }
    Some(version)
}

} // verus!

//! The bundle composition model: a typed, ordered list of artifacts
//! becomes a fixed directory layout, keyed by package type alone. Order
//! never changes the layout; it only decides which of two writes to the
//! same destination wins. Materialising the files and compressing the
//! tree is the caller's work; the plan computed here says exactly what
//! goes where.

use vstd::prelude::*;

use crate::artifacts_bundle::{ArtifactsBundle, Error as ArchiveError};
use crate::signing::args_view;

verus! {

/// Target processor word width of a platform artifact.
#[derive(Clone, Copy, PartialEq, Eq, Structural, Debug)]
pub enum Bitness {
    X86,
    X64,
}

/// The short name a bitness contributes to file names.
pub open spec fn bitness_name(b: Bitness) -> Seq<char> {
    match b {
        Bitness::X86 => "x86"@,
        Bitness::X64 => "x64"@,
    }
}

impl Bitness {
    /// The short name used in file names.
    pub fn name(&self) -> (r: &'static str)
        ensures
            r@ == bitness_name(*self),
    {
        match self {
            Bitness::X86 => "x86",
            Bitness::X64 => "x64",
        }
    }
}

/// What an artifact represents inside a bundle; each variant carries
/// just enough to decide its destination inside the composed tree.
#[derive(Clone, Copy, PartialEq, Eq, Structural, Debug)]
pub enum BundlePackageType {
    WaykBinaries { bitness: Bitness, unattended: bool },
    InstallationMsi { bitness: Bitness },
    BrandingZip,
    CustomInitializationScript,
    CseOptions,
}

/// The members a platform binaries archive must provide: the primary
/// binary alone, or with the three auxiliary service binaries when the
/// package is unattended.
pub open spec fn required_member_names(unattended: bool) -> Seq<Seq<char>> {
    if unattended {
        seq![
            "WaykNow.exe"@,
            "WaykNowService.exe"@,
            "WaykNowSession.exe"@,
            "WaykNowLauncher.exe"@,
        ]
    } else {
        seq!["WaykNow.exe"@]
    }
}

/// The per-bitness subdirectory platform binaries land in.
pub open spec fn binaries_dir(b: Bitness) -> Seq<char> {
    "Wayk_"@ + bitness_name(b)
}

/// The members a platform binaries archive must provide.
pub fn required_members(unattended: bool) -> (r: Vec<&'static str>)
    ensures
        r@.map_values(|s: &'static str| s@) == required_member_names(unattended),
{
    let mut r: Vec<&'static str> = Vec::new();
    r.push("WaykNow.exe");
    if unattended {
        r.push("WaykNowService.exe");
        r.push("WaykNowSession.exe");
        r.push("WaykNowLauncher.exe");
    }
    proof {
        assert(r@.map_values(|s: &'static str| s@) =~= required_member_names(unattended));
    }
    r
}

/// One planned file of the composed tree: where it goes, where it comes
/// from, and — for archive members — which member.
pub struct BundleStep {
    pub dest: String,
    pub source_path: String,
    pub member: Option<String>,
}

/// The mathematical image of a [`BundleStep`].
pub struct BundleStepV {
    pub dest: Seq<char>,
    pub source_path: Seq<char>,
    pub member: Option<Seq<char>>,
}

impl View for BundleStep {
    type V = BundleStepV;

    open spec fn view(&self) -> BundleStepV {
        BundleStepV {
            dest: self.dest@,
            source_path: self.source_path@,
            member: match self.member {
                Some(ref m) => Some(m@),
                None => None,
            },
        }
    }
}

/// The views of a step list.
pub open spec fn svs(s: Seq<BundleStep>) -> Seq<BundleStepV> {
    s.map_values(|e: BundleStep| e@)
}

/// The planned files of one package: platform binaries become one file
/// per required member under the per-bitness subdirectory; everything
/// else is one verbatim copy under its fixed name.
pub open spec fn pkg_steps(pt: BundlePackageType, path: Seq<char>) -> Seq<BundleStepV> {
    match pt {
        BundlePackageType::WaykBinaries { bitness, unattended } => Seq::new(
            required_member_names(unattended).len(),
            |k: int|
                BundleStepV {
                    dest: binaries_dir(bitness) + "/"@ + required_member_names(unattended)[k],
                    source_path: path,
                    member: Some(required_member_names(unattended)[k]),
                },
        ),
        BundlePackageType::InstallationMsi { bitness } => seq![
            BundleStepV {
                dest: "Installer_"@ + bitness_name(bitness) + ".msi"@,
                source_path: path,
                member: None,
            },
        ],
        BundlePackageType::BrandingZip => seq![
            BundleStepV { dest: "branding.zip"@, source_path: path, member: None },
        ],
        BundlePackageType::CustomInitializationScript => seq![
            BundleStepV { dest: "init.ps1"@, source_path: path, member: None },
        ],
        BundlePackageType::CseOptions => seq![
            BundleStepV { dest: "options.json"@, source_path: path, member: None },
        ],
    }
}

/// The planned files of the first `i` packages, in order.
pub open spec fn steps_upto(pkgs: Seq<(BundlePackageType, Seq<char>)>, i: int) -> Seq<BundleStepV>
    decreases i,
{
    if i <= 0 {
        Seq::empty()
    } else {
        steps_upto(pkgs, i - 1) + pkg_steps(pkgs[i - 1].0, pkgs[i - 1].1)
    }
}

/// The planned files of a package list.
pub open spec fn spec_steps(pkgs: Seq<(BundlePackageType, Seq<char>)>) -> Seq<BundleStepV> {
    steps_upto(pkgs, pkgs.len() as int)
}

/// Step `j` is the last write to its destination.
pub open spec fn is_last_for_dest(steps: Seq<BundleStepV>, j: int) -> bool {
    &&& 0 <= j < steps.len()
    &&& forall|k: int| j < k < steps.len() ==> (#[trigger] steps[k]).dest != steps[j].dest
}

/// An ordered sequence of (package type, source path) pairs accumulated
/// before composition.
pub struct BundlePacker {
    pub packages: Vec<(BundlePackageType, String)>,
}

/// The views of the accumulated packages.
pub open spec fn pvs(s: Seq<(BundlePackageType, String)>) -> Seq<(BundlePackageType, Seq<char>)> {
    s.map_values(|p: (BundlePackageType, String)| (p.0, p.1@))
}

impl BundlePacker {
    pub fn new() -> (r: Self)
        ensures
            r.packages@.len() == 0,
    {
        BundlePacker { packages: Vec::new() }
    }

    /// Accumulates one package; insertion order decides overwrites only.
    pub fn add_bundle_package(&mut self, package_type: BundlePackageType, path: &str)
        ensures
            pvs(final(self).packages@) == pvs(old(self).packages@).push((package_type, path@)),
    {
        self.packages.push((package_type, String::from_str(path)));
        proof {
            assert(pvs(self.packages@) =~= pvs(old(self).packages@).push((package_type, path@)));
        }
    }

    /// The planned files of the accumulated packages, in package order:
    /// the layout is keyed by package type alone.
    pub fn planned_steps(&self) -> (r: Vec<BundleStep>)
        ensures
            svs(r@) == spec_steps(pvs(self.packages@)),
    {
        let ghost pkgs = pvs(self.packages@);
        let mut out: Vec<BundleStep> = Vec::new();
        let mut i: usize = 0;
        while i < self.packages.len()
            invariant
                i <= self.packages@.len(),
                pkgs == pvs(self.packages@),
                svs(out@) == steps_upto(pkgs, i as int),
            decreases self.packages@.len() - i,
        {
            let ghost before = svs(out@);
            let (pt, path) = &self.packages[i];
            match pt {
                BundlePackageType::WaykBinaries { bitness, unattended } => {
                    let names = required_members(*unattended);
                    let mut k: usize = 0;
                    while k < names.len()
                        invariant
                            k <= names@.len(),
                            names@.map_values(|s: &'static str| s@) == required_member_names(
                                *unattended,
                            ),
                            svs(out@) == before + pkg_steps(pkgs[i as int].0, pkgs[i as int].1)
                                .subrange(0, k as int),
                            pkgs[i as int].0 == (BundlePackageType::WaykBinaries {
                                bitness: *bitness,
                                unattended: *unattended,
                            }),
                            pkgs[i as int].1 == path@,
                            i < self.packages@.len(),
                            pkgs == pvs(self.packages@),
                        decreases names@.len() - k,
                    {
                        let mut dest = String::from_str("Wayk_");
                        dest.append(bitness.name());
                        dest.append("/");
                        dest.append(names[k]);
                        let step = BundleStep {
                            dest,
                            source_path: path.clone(),
                            member: Some(String::from_str(names[k])),
                        };
                        proof {
                            assert(step@ == pkg_steps(pkgs[i as int].0, pkgs[i as int].1)[
                                k as int
                            ]);
                        }
                        let ghost prev = out@;
                        out.push(step);
                        proof {
                            lemma_svs_push(prev, step);
                            assert(svs(out@) =~= before + pkg_steps(
                                pkgs[i as int].0,
                                pkgs[i as int].1,
                            ).subrange(0, k + 1));
                        }
                        k = k + 1;
                    }
                    proof {
                        assert(pkg_steps(pkgs[i as int].0, pkgs[i as int].1).subrange(
                            0,
                            required_member_names(*unattended).len() as int,
                        ) =~= pkg_steps(pkgs[i as int].0, pkgs[i as int].1));
                    }
                },
                BundlePackageType::InstallationMsi { bitness } => {
                    let mut dest = String::from_str("Installer_");
                    dest.append(bitness.name());
                    dest.append(".msi");
                    let step = BundleStep { dest, source_path: path.clone(), member: None };
                    let ghost prev = out@;
                    out.push(step);
                    proof {
                        lemma_svs_push(prev, step);
                        assert(svs(out@) =~= before + pkg_steps(
                            pkgs[i as int].0,
                            pkgs[i as int].1,
                        ));
                    }
                },
                BundlePackageType::BrandingZip => {
                    let step = BundleStep {
                        dest: String::from_str("branding.zip"),
                        source_path: path.clone(),
                        member: None,
                    };
                    let ghost prev = out@;
                    out.push(step);
                    proof {
                        lemma_svs_push(prev, step);
                        assert(svs(out@) =~= before + pkg_steps(
                            pkgs[i as int].0,
                            pkgs[i as int].1,
                        ));
                    }
                },
                BundlePackageType::CustomInitializationScript => {
                    let step = BundleStep {
                        dest: String::from_str("init.ps1"),
                        source_path: path.clone(),
                        member: None,
                    };
                    let ghost prev = out@;
                    out.push(step);
                    proof {
                        lemma_svs_push(prev, step);
                        assert(svs(out@) =~= before + pkg_steps(
                            pkgs[i as int].0,
                            pkgs[i as int].1,
                        ));
                    }
                },
                BundlePackageType::CseOptions => {
                    let step = BundleStep {
                        dest: String::from_str("options.json"),
                        source_path: path.clone(),
                        member: None,
                    };
                    let ghost prev = out@;
                    out.push(step);
                    proof {
                        lemma_svs_push(prev, step);
                        assert(svs(out@) =~= before + pkg_steps(
                            pkgs[i as int].0,
                            pkgs[i as int].1,
                        ));
                    }
                },
            }
            i = i + 1;
        }
        out
    }
}

impl Default for BundlePacker {
    fn default() -> (r: Self)
        ensures
            r.packages@.len() == 0,
    {
        Self::new()
    }
}

proof fn lemma_svs_push(s: Seq<BundleStep>, e: BundleStep)
    ensures
        svs(s.push(e)) == svs(s).push(e@),
{
    assert(svs(s.push(e)) =~= svs(s).push(e@));
}

/// A fresh copy of one step.
fn dup_step(s: &BundleStep) -> (r: BundleStep)
    ensures
        r@ == s@,
{
    BundleStep {
        dest: s.dest.clone(),
        source_path: s.source_path.clone(),
        member: match &s.member {
            Some(m) => Some(m.clone()),
            None => None,
        },
    }
}

/// `v` is one of the last-writes of `steps`.
pub open spec fn step_from_last(steps: Seq<BundleStepV>, v: BundleStepV) -> bool {
    exists|j: int| #[trigger] is_last_for_dest(steps, j) && v == steps[j]
}

/// Everything in `rv` is a last-write of `steps`.
pub open spec fn all_from_last(steps: Seq<BundleStepV>, rv: Seq<BundleStepV>) -> bool {
    forall|i: int| 0 <= i < rv.len() ==> step_from_last(steps, #[trigger] rv[i])
}

/// Every last-write among the first `upto` steps appears in `rv`.
pub open spec fn lasts_covered(steps: Seq<BundleStepV>, rv: Seq<BundleStepV>, upto: int) -> bool {
    forall|j: int|
        0 <= j < upto && #[trigger] is_last_for_dest(steps, j) ==> exists|i: int|
            0 <= i < rv.len() && steps[j] == #[trigger] rv[i]
}

/// `v` is one of the last-writes among the first `upto` steps.
pub open spec fn step_from_last_before(steps: Seq<BundleStepV>, v: BundleStepV, upto: int) -> bool {
    exists|j: int| 0 <= j < upto && #[trigger] is_last_for_dest(steps, j) && v == steps[j]
}

/// Everything in `rv` is one of the last-writes among the first `upto`
/// steps.
pub open spec fn from_earlier_lasts(
    steps: Seq<BundleStepV>,
    rv: Seq<BundleStepV>,
    upto: int,
) -> bool {
    forall|i: int| 0 <= i < rv.len() ==> step_from_last_before(steps, #[trigger] rv[i], upto)
}

/// Resolves overwrites: of all steps writing one destination, only the
/// last survives. Every surviving step is the last write to its
/// destination, and every destination written keeps exactly one step.
pub fn final_layout(steps: &Vec<BundleStep>) -> (r: Vec<BundleStep>)
    ensures
        all_from_last(svs(steps@), svs(r@)),
        lasts_covered(svs(steps@), svs(r@), steps@.len() as int),
        forall|i1: int, i2: int|
            0 <= i1 < i2 < r@.len() ==> (#[trigger] r@[i1])@.dest != (#[trigger] r@[i2])@.dest,
{
    let n = steps.len();
    let mut r: Vec<BundleStep> = Vec::new();
    let mut j: usize = 0;
    while j < n
        invariant
            j <= n,
            n == steps@.len(),
            all_from_last(svs(steps@), svs(r@)),
            lasts_covered(svs(steps@), svs(r@), j as int),
            from_earlier_lasts(svs(steps@), svs(r@), j as int),
            forall|i1: int, i2: int|
                0 <= i1 < i2 < r@.len() ==> (#[trigger] r@[i1])@.dest != (#[trigger] r@[i2])@.dest,
        decreases n - j,
    {
        let mut later: bool = false;
        let mut k: usize = j + 1;
        while k < n
            invariant
                j < k <= n,
                n == steps@.len(),
                later <==> exists|k2: int|
                    j < k2 < k && (#[trigger] svs(steps@)[k2]).dest == svs(steps@)[j as int].dest,
            decreases n - k,
        {
            let eq = steps[k].dest == steps[j].dest;
            proof {
                assert(svs(steps@)[k as int] == steps@[k as int]@);
                assert(svs(steps@)[j as int] == steps@[j as int]@);
                assert(eq <==> svs(steps@)[k as int].dest == svs(steps@)[j as int].dest);
            }
            if eq {
                later = true;
            }
            k = k + 1;
        }
        if !later {
            proof {
                assert(is_last_for_dest(svs(steps@), j as int));
            }
            let d = dup_step(&steps[j]);
            let ghost prev = r@;
            r.push(d);
            proof {
                lemma_svs_push(prev, d);
                assert(svs(r@)[svs(r@).len() - 1] == svs(steps@)[j as int]);
                assert(step_from_last(svs(steps@), svs(r@)[svs(r@).len() - 1]));
                // Each surviving entry came from a last-write before the
                // cursor.
                assert(from_earlier_lasts(svs(steps@), svs(r@), j + 1)) by {
                    assert forall|i: int| 0 <= i < svs(r@).len() implies step_from_last_before(
                        svs(steps@),
                        #[trigger] svs(r@)[i],
                        j + 1,
                    ) by {
                        if i < svs(prev).len() {
                            assert(from_earlier_lasts(svs(steps@), svs(prev), j as int));
                            assert(svs(r@)[i] == svs(prev)[i]);
                            assert(step_from_last_before(svs(steps@), svs(prev)[i], j as int));
                            let j2 = choose|j2: int|
                                0 <= j2 < j && #[trigger] is_last_for_dest(svs(steps@), j2) && (
                            svs(prev)[i]) == svs(steps@)[j2];
                            assert(0 <= j2 < j + 1 && is_last_for_dest(svs(steps@), j2) && svs(
                                r@,
                            )[i] == svs(steps@)[j2]);
                        } else {
                            assert(0 <= (j as int) < j + 1 && is_last_for_dest(
                                svs(steps@),
                                j as int,
                            ) && svs(r@)[i] == svs(steps@)[j as int]);
                        }
                    }
                }
                // The new entry's destination is fresh: an earlier entry
                // with it came from an earlier last-write, which the
                // current write would contradict.
                assert forall|i1: int, i2: int|
                    0 <= i1 < i2 < r@.len() implies (#[trigger] r@[i1])@.dest != (
                #[trigger] r@[i2])@.dest by {
                    if i2 == r@.len() - 1 {
                        assert(from_earlier_lasts(svs(steps@), svs(prev), j as int));
                        assert(svs(prev)[i1] == r@[i1]@);
                        assert(step_from_last_before(svs(steps@), svs(prev)[i1], j as int));
                        let j2 = choose|j2: int|
                            0 <= j2 < j && #[trigger] is_last_for_dest(svs(steps@), j2) && (
                        svs(prev)[i1]) == svs(steps@)[j2];
                        if svs(steps@)[j2].dest == svs(steps@)[j as int].dest {
                            assert(!is_last_for_dest(svs(steps@), j2));
                        }
                    } else {
                        assert(r@[i1]@ == prev[i1]@ && r@[i2]@ == prev[i2]@);
                    }
                }
                assert(all_from_last(svs(steps@), svs(r@))) by {
                    assert forall|i: int| 0 <= i < svs(r@).len() implies step_from_last(
                        svs(steps@),
                        #[trigger] svs(r@)[i],
                    ) by {
                        if i < svs(prev).len() {
                            assert(svs(r@)[i] == svs(prev)[i]);
                        }
                    }
                }
                assert(lasts_covered(svs(steps@), svs(r@), j + 1)) by {
                    assert forall|j2: int|
                        0 <= j2 < j + 1 && #[trigger] is_last_for_dest(svs(steps@), j2)
                        implies exists|i: int|
                        0 <= i < svs(r@).len() && svs(steps@)[j2] == #[trigger] svs(r@)[i] by {
                        if j2 < j {
                            let i = choose|i: int|
                                0 <= i < svs(prev).len() && svs(steps@)[j2] == #[trigger] svs(
                                    prev,
                                )[i];
                            assert(svs(r@)[i] == svs(prev)[i]);
                            assert(0 <= i < svs(r@).len() && svs(steps@)[j2] == svs(r@)[i]);
                        } else {
                            assert(svs(steps@)[j2] == svs(r@)[svs(r@).len() - 1]);
                        }
                    }
                }
            }
        } else {
            proof {
                assert(!is_last_for_dest(svs(steps@), j as int));
                assert(from_earlier_lasts(svs(steps@), svs(r@), j + 1)) by {
                    assert forall|i: int| 0 <= i < svs(r@).len() implies step_from_last_before(
                        svs(steps@),
                        #[trigger] svs(r@)[i],
                        j + 1,
                    ) by {
                        assert(from_earlier_lasts(svs(steps@), svs(r@), j as int));
                        assert(step_from_last_before(svs(steps@), svs(r@)[i], j as int));
                        let j2 = choose|j2: int|
                            0 <= j2 < j && #[trigger] is_last_for_dest(svs(steps@), j2) && (
                        svs(r@)[i]) == svs(steps@)[j2];
                        assert(0 <= j2 < j + 1 && is_last_for_dest(svs(steps@), j2) && svs(r@)[i]
                            == svs(steps@)[j2]);
                    }
                }
                assert(lasts_covered(svs(steps@), svs(r@), j + 1)) by {
                    assert forall|j2: int|
                        0 <= j2 < j + 1 && #[trigger] is_last_for_dest(svs(steps@), j2)
                        implies exists|i: int|
                        0 <= i < svs(r@).len() && svs(steps@)[j2] == #[trigger] svs(r@)[i] by {
                        assert(j2 < j);
                    }
                }
            }
        }
        j = j + 1;
    }
    r
}

/// The fixed argument list of the external compressor: create an
/// archive at the output path out of everything the input glob names.
pub open spec fn archiver_args(output: Seq<char>, input_glob: Seq<char>) -> Seq<Seq<char>> {
    seq!["a"@, output, input_glob]
}

/// Builds the external compressor's argument list.
pub fn make_archiver_args(output_path: &str, input_glob: &str) -> (r: Vec<String>)
    ensures
        args_view(r@) == archiver_args(output_path@, input_glob@),
{
    let mut args: Vec<String> = Vec::new();
    args.push(String::from_str("a"));
    args.push(String::from_str(output_path));
    args.push(String::from_str(input_glob));
    proof {
        assert(args_view(args@) =~= archiver_args(output_path@, input_glob@));
    }
    args
}

/// Two last-writes to one destination are the same write: a resolved
/// layout carries at most one file per destination, so composing the
/// same package type twice keeps only the later call's content there.
pub proof fn lemma_last_write_wins(
    steps: Seq<BundleStepV>,
    rv: Seq<BundleStepV>,
    i1: int,
    i2: int,
)
    requires
        all_from_last(steps, rv),
        0 <= i1 < rv.len(),
        0 <= i2 < rv.len(),
        rv[i1].dest == rv[i2].dest,
    ensures
        rv[i1] == rv[i2],
{
    let j1 = choose|j: int| #[trigger] is_last_for_dest(steps, j) && rv[i1] == steps[j];
    let j2 = choose|j: int| #[trigger] is_last_for_dest(steps, j) && rv[i2] == steps[j];
    if j1 < j2 {
        assert(steps[j2].dest != steps[j1].dest);
    } else if j2 < j1 {
        assert(steps[j1].dest != steps[j2].dest);
    }
}

/// What survives at a destination is the step list's last write to it.
pub proof fn lemma_layout_entry_is_last(
    steps: Seq<BundleStepV>,
    rv: Seq<BundleStepV>,
    i: int,
)
    requires
        all_from_last(steps, rv),
        0 <= i < rv.len(),
    ensures
        exists|j: int|
            #[trigger] is_last_for_dest(steps, j) && steps[j].dest == rv[i].dest && rv[i]
                == steps[j],
{
    let j = choose|j: int| #[trigger] is_last_for_dest(steps, j) && rv[i] == steps[j];
    assert(is_last_for_dest(steps, j) && steps[j].dest == rv[i].dest && rv[i] == steps[j]);
}

/// Extracts the platform binaries a package requires, each under its
/// destination inside the per-bitness subdirectory.
///
/// Succeeds whenever every required member is present and readable; a
/// missing required member is a hard failure, never a partial bundle.
#[verifier::loop_isolation(false)]
pub fn platform_binaries_files(
    archive: &mut ArtifactsBundle,
    bitness: Bitness,
    unattended: bool,
) -> (r: Result<Vec<(String, Vec<u8>)>, ArchiveError>)
    ensures
        final(archive).members() == old(archive).members(),
        forall|n: Seq<char>|
            #[trigger] final(archive).member_readable(n) == old(archive).member_readable(n),
        (forall|k: int|
            0 <= k < required_member_names(unattended).len() ==> old(
                archive,
            ).members().contains_key(#[trigger] required_member_names(unattended)[k]) && old(
                archive,
            ).member_readable(required_member_names(unattended)[k])) ==> r is Ok,
        r matches Ok(files) ==> {
            let names = required_member_names(unattended);
            &&& files@.len() == names.len()
            &&& forall|k: int|
                0 <= k < names.len() ==> old(archive).members().contains_key(#[trigger] names[k])
            &&& forall|k: int|
                0 <= k < names.len() ==> (#[trigger] files@[k]).0@ == binaries_dir(bitness) + "/"@
                    + names[k] && files@[k].1@ == old(archive).members()[names[k]]
        },
        (exists|k: int|
            0 <= k < required_member_names(unattended).len() && !old(
                archive,
            ).members().contains_key(#[trigger] required_member_names(unattended)[k])) ==> r
            is Err,
        r matches Err(ArchiveError::MissingFile(_)) ==> exists|k: int|
            0 <= k < required_member_names(unattended).len() && !old(
                archive,
            ).members().contains_key(#[trigger] required_member_names(unattended)[k]),
{
    let ghost names = required_member_names(unattended);
    let members = required_members(unattended);
    let mut files: Vec<(String, Vec<u8>)> = Vec::new();
    let mut k: usize = 0;
    while k < members.len()
        invariant
            k <= members@.len(),
            files@.len() == k,
            forall|x: int|
                0 <= x < k ==> old(archive).members().contains_key(#[trigger] names[x]),
            forall|x: int|
                0 <= x < k ==> (#[trigger] files@[x]).0@ == binaries_dir(bitness) + "/"@ + names[x]
                    && files@[x].1@ == old(archive).members()[names[x]],
            archive.members() == old(archive).members(),
            forall|n: Seq<char>|
                #[trigger] archive.member_readable(n) == old(archive).member_readable(n),
        decreases members@.len() - k,
    {
        let name = members[k];
        proof {
            assert(names[k as int] == members@[k as int]@);
        }
        let data = match archive.extract_member(name) {
            Ok(d) => d,
            Err(e) => {
                proof {
                    assert(!(old(archive).members().contains_key(names[k as int]) && old(
                        archive,
                    ).member_readable(names[k as int])));
                }
                return Err(e);
            },
        };
        let mut dest = String::from_str("Wayk_");
        dest.append(bitness.name());
        dest.append("/");
        dest.append(name);
        files.push((dest, data));
        k = k + 1;
    }
    Ok(files)
}

} // verus!

//! What the engine says of itself.
use vstd::prelude::*;

verus! {

/// What the engine says of itself.
#[derive(Debug)]
pub struct EngineManifest {
    pub engine_name: String,
    pub engine_version: String,
    pub engine_commit: String,
    pub build_flags: Vec<String>,
    pub fcr_spec_commit: String,
}

/// What is known of how the engine was built.
#[derive(Debug)]
pub struct BuildInfo {
    /// How the version control describes the source.
    pub git_describe: Option<String>,
    /// The version that the version control gives the source.
    pub git_semver: Option<String>,
    /// The version of the package.
    pub package_version: String,
    pub git_sha: Option<String>,
    /// Whether signatures are accepted unchecked.
    pub fake_crypto: bool,
}

/// The version of the engine: the description of its source, or else the version of its source,
/// or else that of the package.
pub open spec fn version_text(info: BuildInfo) -> Seq<char> {
    if info.git_describe is Some {
        info.git_describe->0@
    } else if info.git_semver is Some {
        info.git_semver->0@
    } else {
        info.package_version@
    }
}

/// The version of the engine.
pub fn engine_version(info: &BuildInfo) -> (res: String)
    ensures
        res@ == version_text(*info),
{
    match &info.git_describe {
        Some(text) => text.clone(),
        None => match &info.git_semver {
            Some(text) => text.clone(),
            None => info.package_version.clone(),
        },
    }
}

/// The flags that the engine was built with.
pub fn build_flags(fake_crypto: bool) -> (res: Vec<String>)
    ensures
        fake_crypto ==> res@.len() == 1 && res@[0]@ == "fake_crypto"@,
        !fake_crypto ==> res@.len() == 0,
{
    let mut flags: Vec<String> = Vec::new();
    if fake_crypto {
        flags.push("fake_crypto".to_owned());
    }
    flags
}

/// The commit that the engine was built from; no text where it is not known.
pub open spec fn commit_text(info: BuildInfo) -> Seq<char> {
    if info.git_sha is Some {
        info.git_sha->0@
    } else {
        ""@
    }
}

/// The manifest of an engine.
pub fn engine_manifest(info: &BuildInfo) -> (res: EngineManifest)
    ensures
        res.engine_name@ == "lighthouse"@,
        res.engine_version@ == version_text(*info),
        res.engine_commit@ == commit_text(*info),
        info.fake_crypto ==> res.build_flags@.len() == 1 && res.build_flags@[0]@ == "fake_crypto"@,
        !info.fake_crypto ==> res.build_flags@.len() == 0,
        res.fcr_spec_commit@ == ""@,
{
    EngineManifest {
        engine_name: "lighthouse".to_owned(),
        engine_version: engine_version(info),
        engine_commit: match &info.git_sha {
            Some(sha) => sha.clone(),
            None => "".to_owned(),
        },
        build_flags: build_flags(info.fake_crypto),
        fcr_spec_commit: "".to_owned(),
    }
}

/// How the program ended.
#[derive(Clone, Copy, Debug, PartialEq, Eq, Structural)]
pub enum Outcome {
    /// The help or the version was asked for and printed.
    InfoShown,
    /// The command line cannot be read.
    BadArguments,
    /// The command line asks for a run that cannot be started.
    BadConfig,
    ManifestPrinted,
    ManifestFailed,
    /// The run could not be prepared.
    BootstrapFailed,
    /// The run was broken off.
    SimulationFailed,
    Complete,
}

/// The exit code of the program: 0 where it did what it was asked to do, 1 where it was asked
/// wrongly, 2 where a run could not be prepared and 3 where it was broken off.
pub open spec fn exit_status(outcome: Outcome) -> u8 {
    match outcome {
        Outcome::InfoShown => 0u8,
        Outcome::ManifestPrinted => 0u8,
        Outcome::Complete => 0u8,
        Outcome::BadArguments => 1u8,
        Outcome::BadConfig => 1u8,
        Outcome::ManifestFailed => 1u8,
        Outcome::BootstrapFailed => 2u8,
        Outcome::SimulationFailed => 3u8,
    }
}

/// The exit code of the program.
pub fn exit_code(outcome: Outcome) -> (res: u8)
    ensures
        res == exit_status(outcome),
{
    match outcome {
        Outcome::InfoShown | Outcome::ManifestPrinted | Outcome::Complete => 0,
        Outcome::BadArguments | Outcome::BadConfig | Outcome::ManifestFailed => 1,
        Outcome::BootstrapFailed => 2,
        Outcome::SimulationFailed => 3,
    }
}

/// The exit code is zero just where the program did what it was asked to do, and a run that could
/// not be prepared and one that was broken off are told apart from each other and from what was
/// asked wrongly.
pub proof fn exit_codes_tell_outcomes_apart(outcome: Outcome)
    ensures
        exit_status(outcome) == 0 <==> outcome is InfoShown || outcome is ManifestPrinted
            || outcome is Complete,
        exit_status(outcome) == 2 <==> outcome is BootstrapFailed,
        exit_status(outcome) == 3 <==> outcome is SimulationFailed,
        exit_status(outcome) <= 3,
{
}

/// The version is the description of the source where there is one, whatever else is known; else
/// the version of the source where there is one; and else that of the package.
pub proof fn the_best_version_is_given(info: BuildInfo, other: BuildInfo)
    ensures
        info.git_describe matches Some(text) ==> version_text(info) == text@,
        info.git_describe is None ==> (info.git_semver matches Some(text) ==> version_text(info)
            == text@),
        info.git_describe is None && info.git_semver is None ==> version_text(info)
            == info.package_version@,
        info.git_sha matches Some(sha) ==> commit_text(info) == sha@,
        info.git_sha is None ==> commit_text(info).len() == 0,
{
    reveal_strlit("");
}

} // verus!

//! The exchange with the host program before a book is made: the question whether a
//! renderer is supported, and the check of the host's version.

use semver::{Version, VersionReq};
use vstd::prelude::*;
use crate::config::PREPROCESSOR_NAME;
use crate::names::same_name;
use crate::tree::{text_view, texts_view};

verus! {

/// The argument with which the host asks whether a renderer is supported.
pub const SUPPORTS_COMMAND: &'static str = "supports";

/// The one renderer that is not supported.
pub const UNSUPPORTED_RENDERER: &'static str = "not-supported";

/// The warning of a version mismatch, up to the name of the preprocessor.
pub const WARNING_HEAD: &'static str = "Warning: The ";

/// The warning of a version mismatch, from the name of the preprocessor to the version it
/// was built for.
pub const WARNING_BUILT: &'static str = " plugin was built against version ";

/// The warning of a version mismatch, from the version it was built for to the host's.
pub const WARNING_HOST: &'static str = " of mdbook, but we're being called from version ";

/// Which of the two texts of a version check could not be read.
#[derive(Clone, Copy, Debug, PartialEq, Eq, Structural)]
pub enum VersionFault {
    /// The version that the host gives of itself is no version.
    HostVersion,
    /// The version that the preprocessor was built for is no version requirement.
    BuiltVersion,
}

/// Whether `text` is a version to `semver::Version::parse`.
pub uninterp spec fn is_version(text: Seq<char>) -> bool;

/// Whether `text` is a version requirement to `semver::VersionReq::parse`.
pub uninterp spec fn is_requirement(text: Seq<char>) -> bool;

/// Whether the requirement that `requirement` is to `semver` matches the version that
/// `version` is to it, as `semver::VersionReq::matches` decides.
pub uninterp spec fn requirement_matches(requirement: Seq<char>, version: Seq<char>) -> bool;

/// The outcome of the version check: whether the host's version meets the requirement,
/// or the first of the two texts that cannot be read, the host's version before the
/// requirement.
pub open spec fn version_check(requirement: Seq<char>, version: Seq<char>) -> Result<
    bool,
    VersionFault,
> {
    if !is_version(version) {
        Err(VersionFault::HostVersion)
    } else if !is_requirement(requirement) {
        Err(VersionFault::BuiltVersion)
    } else {
        Ok(requirement_matches(requirement, version))
    }
}

/// Parses `version` with `semver::Version::parse` and `requirement` with
/// `semver::VersionReq::parse`, and asks `semver::VersionReq::matches` whether the one meets
/// the other. All three depend on the texts alone; the contract gives their answers names
/// and claims nothing of what they are.
#[verifier::external_body]
fn matches_requirement(requirement: &str, version: &str) -> (outcome: Result<bool, VersionFault>)
    ensures
        !is_version(version@) ==> outcome is Err && outcome->Err_0 == VersionFault::HostVersion,
        is_version(version@) && !is_requirement(requirement@) ==> outcome is Err && outcome->Err_0
            == VersionFault::BuiltVersion,
        is_version(version@) && is_requirement(requirement@) ==> outcome is Ok && outcome->Ok_0
            == requirement_matches(requirement@, version@),
{
    match Version::parse(version) {
        Err(_) => Err(VersionFault::HostVersion),
        Ok(parsed) => match VersionReq::parse(requirement) {
            Err(_) => Err(VersionFault::BuiltVersion),
            Ok(wanted) => Ok(wanted.matches(&parsed)),
        },
    }
}

/// What the arguments of the program ask for. `Some` where they are the host's question
/// whether a renderer is supported, with the answer; `None` where a book is to be made.
pub open spec fn supports_answer(args: Seq<Seq<char>>) -> Option<bool> {
    if args.len() == 3 && args[1] == SUPPORTS_COMMAND@ {
        Some(args[2] != UNSUPPORTED_RENDERER@)
    } else {
        None
    }
}

/// Reads the arguments of the program, its own name first: the answer to the host's
/// question whether a renderer is supported, or `None` where that is not what they ask.
pub fn check_args(args: &Vec<String>) -> (answer: Option<bool>)
    ensures
        answer == supports_answer(texts_view(args@)),
{
    if args.len() == 3 && same_name(args[1].as_str(), SUPPORTS_COMMAND) {
        Some(!same_name(args[2].as_str(), UNSUPPORTED_RENDERER))
    } else {
        None
    }
}

/// The warning that is due where the host's version does not meet the requirement.
pub open spec fn version_warning(admitted: bool, built_for: Seq<char>, host: Seq<char>) -> Option<
    Seq<char>,
> {
    if admitted {
        None
    } else {
        Some(
            WARNING_HEAD@ + PREPROCESSOR_NAME@ + WARNING_BUILT@ + built_for + WARNING_HOST@ + host,
        )
    }
}

/// Words the warning for the outcome of a version check: none where the host's version
/// was admitted.
pub fn warning_for(admitted: bool, built_for: &str, host: &str) -> (warning: Option<String>)
    ensures
        text_view(warning) == version_warning(admitted, built_for@, host@),
{
    if admitted {
        return None;
    }
    let mut text = WARNING_HEAD.to_owned();
    text.append(PREPROCESSOR_NAME);
    text.append(WARNING_BUILT);
    text.append(built_for);
    text.append(WARNING_HOST);
    text.append(host);
    Some(text)
}

/// Checks the host's version `host` against `built_for`, the version that the preprocessor
/// was built for, read as a requirement. A text that cannot be read is a fault; a version
/// that does not meet the requirement is worth a warning and no more.
pub fn check_version(built_for: &str, host: &str) -> (result: Result<Option<String>, VersionFault>)
    ensures
        match version_check(built_for@, host@) {
            Ok(admitted) => result is Ok && text_view(result->Ok_0) == version_warning(
                admitted,
                built_for@,
                host@,
            ),
            Err(fault) => result == Err::<Option<String>, VersionFault>(fault),
        },
{
    match matches_requirement(built_for, host) {
        Ok(admitted) => Ok(warning_for(admitted, built_for, host)),
        Err(fault) => Err(fault),
    }
}

} // verus!

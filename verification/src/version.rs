use vstd::prelude::*;

verus! {

/// `semver::Version`, a parsed version. The library carries such a value
/// from the parser to the comparison and never looks into it.
#[verifier::external_type_specification]
#[verifier::external_body]
pub struct ExVersion(semver::Version);

/// `semver::VersionReq`, a parsed version requirement, carried in the same
/// way.
#[verifier::external_type_specification]
#[verifier::external_body]
pub struct ExVersionReq(semver::VersionReq);

/// `semver::Error`, the reason a text is no version or no requirement. The
/// library only sees that there is one.
#[verifier::external_type_specification]
#[verifier::external_body]
pub struct ExVersionError(semver::Error);

/// What `semver::Version::parse` makes of a text. Nothing is said of which
/// texts are versions: that is the parser's business.
pub uninterp spec fn parsed_version(text: Seq<char>) -> Result<semver::Version, semver::Error>;

/// What `semver::VersionReq::parse` makes of a text. Nothing is said of
/// which texts are requirements.
pub uninterp spec fn parsed_requirement(text: Seq<char>) -> Result<semver::VersionReq, semver::Error>;

/// What `semver::VersionReq::matches` says of a requirement and a version.
/// Nothing is said of which versions a requirement admits.
pub uninterp spec fn requirement_admits(requirement: semver::VersionReq, version: semver::Version) -> bool;

/// `semver::Version::parse` reads a version such as `1.2.3-alpha+build`.
/// Assumed of it: it returns for every text, and what it returns depends on
/// the text alone.
pub assume_specification[ semver::Version::parse ](text: &str) -> (parsed: Result<
    semver::Version,
    semver::Error,
>)
    ensures
        parsed == parsed_version(text@),
;

/// `semver::VersionReq::parse` reads a requirement such as `>=1.2, <2`.
/// Assumed of it: it returns for every text, and what it returns depends on
/// the text alone.
pub assume_specification[ semver::VersionReq::parse ](text: &str) -> (parsed: Result<
    semver::VersionReq,
    semver::Error,
>)
    ensures
        parsed == parsed_requirement(text@),
;

/// `semver::VersionReq::matches` tells whether a version meets a
/// requirement. Assumed of it: it returns for every pair, and what it
/// returns depends on the two values alone.
pub assume_specification[ semver::VersionReq::matches ](
    requirement: &semver::VersionReq,
    version: &semver::Version,
) -> (admitted: bool)
    ensures
        admitted == requirement_admits(*requirement, *version),
;

/// How a version text stands to a requirement text.
#[derive(Clone, Copy, Debug, PartialEq, Eq)]
pub enum Compatibility {
    /// The version meets the requirement.
    Satisfied,
    /// Both texts are well formed, and the version does not meet the
    /// requirement.
    Unsatisfied,
    /// The requirement text is no requirement.
    BadRequirement,
    /// The requirement is one, and the version text is no version.
    BadVersion,
}

/// The verdict on what the two parsers returned: the requirement is looked
/// at first, then the version, then whether the one admits the other.
pub open spec fn verdict(
    requirement: Result<semver::VersionReq, semver::Error>,
    version: Result<semver::Version, semver::Error>,
) -> Compatibility {
    match requirement {
        Err(_) => Compatibility::BadRequirement,
        Ok(wanted) => match version {
            Err(_) => Compatibility::BadVersion,
            Ok(given) => if requirement_admits(wanted, given) {
                Compatibility::Satisfied
            } else {
                Compatibility::Unsatisfied
            },
        },
    }
}

/// How the version text `version` stands to the requirement text
/// `requirement`.
pub open spec fn compatibility(version: Seq<char>, requirement: Seq<char>) -> Compatibility {
    verdict(parsed_requirement(requirement), parsed_version(version))
}

/// The verdict on what the two parsers returned.
pub fn judge(
    requirement: Result<semver::VersionReq, semver::Error>,
    version: Result<semver::Version, semver::Error>,
) -> (found: Compatibility)
    ensures
        found == verdict(requirement, version),
{
    match requirement {
        Err(_) => Compatibility::BadRequirement,
        Ok(wanted) => match version {
            Err(_) => Compatibility::BadVersion,
            Ok(given) => if wanted.matches(&given) {
                Compatibility::Satisfied
            } else {
                Compatibility::Unsatisfied
            },
        },
    }
}

/// Compares a version text with a requirement text.
pub fn check_compatibility(version: &str, requirement: &str) -> (found: Compatibility)
    ensures
        found == compatibility(version@, requirement@),
{
    let wanted = semver::VersionReq::parse(requirement);
    let given = semver::Version::parse(version);
    judge(wanted, given)
}

} // verus!

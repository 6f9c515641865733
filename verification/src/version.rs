//! Checking package versions against the version constraints of dependencies.

use vstd::prelude::*;
use crate::dependency::{Dependency, opt_view};

verus! {

#[verifier::external_type_specification]
#[verifier::external_body]
pub struct ExSemverVersion(semver::Version);

#[verifier::external_type_specification]
#[verifier::external_body]
pub struct ExSemverVersionReq(semver::VersionReq);

/// Whether `semver::Version::parse` accepts `text`.
pub uninterp spec fn semver_version_parses(text: Seq<char>) -> bool;

/// Whether `semver::VersionReq::parse` accepts `text`.
pub uninterp spec fn semver_req_parses(text: Seq<char>) -> bool;

/// Whether the requirement parsed from `req` matches the version parsed from `version`
/// (`semver::VersionReq::matches`).
pub uninterp spec fn semver_req_matches(req: Seq<char>, version: Seq<char>) -> bool;

/// A semantic version together with the text it was parsed from.
pub struct ParsedVersion {
    text: String,
    inner: semver::Version,
}

impl View for ParsedVersion {
    type V = Seq<char>;

    closed spec fn view(&self) -> Seq<char> {
        self.text@
    }
}

/// A version requirement together with the text it was parsed from.
pub struct ParsedVersionReq {
    text: String,
    inner: semver::VersionReq,
}

impl View for ParsedVersionReq {
    type V = Seq<char>;

    closed spec fn view(&self) -> Seq<char> {
        self.text@
    }
}

/// Calls `semver::Version::parse`. It succeeds exactly when the text is a version,
/// and the result remembers the text.
#[verifier::external_body]
fn parse_version(text: &str) -> (r: Option<ParsedVersion>)
    ensures
        r is Some <==> semver_version_parses(text@),
        r matches Some(v) ==> v@ == text@,
{
    match semver::Version::parse(text) {
        Ok(inner) => Some(ParsedVersion { text: text.to_owned(), inner }),
        Err(_) => None,
    }
}

/// Calls `semver::VersionReq::parse`. It succeeds exactly when the text is a version
/// requirement, and the result remembers the text.
#[verifier::external_body]
fn parse_version_req(text: &str) -> (r: Option<ParsedVersionReq>)
    ensures
        r is Some <==> semver_req_parses(text@),
        r matches Some(v) ==> v@ == text@,
{
    match semver::VersionReq::parse(text) {
        Ok(inner) => Some(ParsedVersionReq { text: text.to_owned(), inner }),
        Err(_) => None,
    }
}

/// Calls `semver::VersionReq::matches`; its answer depends on the two parsed texts alone.
#[verifier::external_body]
fn req_matches(req: &ParsedVersionReq, version: &ParsedVersion) -> (r: bool)
    ensures
        r == semver_req_matches(req@, version@),
{
    req.inner.matches(&version.inner)
}

/// Whether `version` satisfies the constraint `constraint`: `Ok(true)` without a constraint;
/// an error message when either text does not parse (the version is checked first).
pub open spec fn spec_version_matches(version: Seq<char>, constraint: Option<Seq<char>>) -> Result<bool, Seq<char>> {
    match constraint {
        None => Ok(true),
        Some(c) => if !semver_version_parses(version) {
            Err("Failed to parse version: "@ + version + "."@)
        } else if !semver_req_parses(c) {
            Err("Failed to parse version."@)
        } else {
            Ok(semver_req_matches(c, version))
        },
    }
}

/// The view of a result whose error is a message.
pub open spec fn result_view(r: &Result<bool, String>) -> Result<bool, Seq<char>> {
    match r {
        Ok(b) => Ok(*b),
        Err(e) => Err(e@),
    }
}

/// Checks whether a package at `version` satisfies the version constraint of `dependency`.
pub fn matches(version: &str, dependency: &Dependency) -> (r: Result<bool, String>)
    ensures
        result_view(&r) == spec_version_matches(version@, opt_view(&dependency.version)),
{
    let constraint = match &dependency.version {
        None => return Ok(true),
        Some(c) => c,
    };
    let parsed_version = match parse_version(version) {
        Some(v) => v,
        None => {
            let message = String::from_str("Failed to parse version: ").concat(version).concat(".");
            return Err(message);
        },
    };
    let parsed_req = match parse_version_req(constraint.as_str()) {
        Some(r) => r,
        None => return Err(String::from_str("Failed to parse version.")),
    };
    Ok(req_matches(&parsed_req, &parsed_version))
}

/// Whether `version` satisfies `constraint` without error.
pub open spec fn spec_accepts(version: Seq<char>, constraint: Option<Seq<char>>) -> bool {
    spec_version_matches(version, constraint) == Ok::<bool, Seq<char>>(true)
}

} // verus!

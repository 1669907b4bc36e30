//! What this library takes on trust from the `semver` crate: its value types,
//! which verified code reads field by field, and the few operations whose
//! results are named rather than restated (parsing, matching, display).
use vstd::prelude::*;

verus! {

#[verifier::external_type_specification]
pub struct ExOp(semver::Op);

#[verifier::external_type_specification]
#[verifier::external_body]
pub struct ExPrerelease(semver::Prerelease);

#[verifier::external_type_specification]
#[verifier::external_body]
pub struct ExBuildMetadata(semver::BuildMetadata);

#[verifier::external_type_specification]
pub struct ExComparator(semver::Comparator);

#[verifier::external_type_specification]
pub struct ExVersionReq(semver::VersionReq);

#[verifier::external_type_specification]
pub struct ExVersion(semver::Version);

#[verifier::external_type_specification]
#[verifier::external_body]
pub struct ExError(semver::Error);

/// The requirement that `semver` parses from a text, `None` where it rejects it.
pub uninterp spec fn parsed_req(text: Seq<char>) -> Option<semver::VersionReq>;

/// The version that `semver` parses from a text, `None` where it rejects it.
pub uninterp spec fn parsed_version(text: Seq<char>) -> Option<semver::Version>;

/// Whether `semver` evaluates a requirement as satisfied by a version.
pub uninterp spec fn req_matches(req: semver::VersionReq, version: semver::Version) -> bool;

/// The text of a pre-release identifier, as `Prerelease::as_str` gives it.
pub uninterp spec fn pre_text(pre: semver::Prerelease) -> Seq<char>;

/// The text of a build-metadata value, as `BuildMetadata::as_str` gives it.
pub uninterp spec fn build_text(build: semver::BuildMetadata) -> Seq<char>;

/// The character of a decimal digit.
pub open spec fn digit_char(d: int) -> char {
    if d == 0 {
        '0'
    } else if d == 1 {
        '1'
    } else if d == 2 {
        '2'
    } else if d == 3 {
        '3'
    } else if d == 4 {
        '4'
    } else if d == 5 {
        '5'
    } else if d == 6 {
        '6'
    } else if d == 7 {
        '7'
    } else if d == 8 {
        '8'
    } else {
        '9'
    }
}

/// A number in decimal, without leading zeros.
pub open spec fn decimal(n: nat) -> Seq<char>
    decreases n,
{
    if n < 10 {
        seq![digit_char(n as int)]
    } else {
        decimal(n / 10).push(digit_char((n % 10) as int))
    }
}

/// The prefix that a comparator's operator displays as.
pub open spec fn op_text(op: semver::Op) -> Seq<char> {
    match op {
        semver::Op::Exact => seq!['='],
        semver::Op::Greater => seq!['>'],
        semver::Op::GreaterEq => seq!['>', '='],
        semver::Op::Less => seq!['<'],
        semver::Op::LessEq => seq!['<', '='],
        semver::Op::Tilde => seq!['~'],
        semver::Op::Caret => seq!['^'],
        _ => Seq::empty(),
    }
}

/// How a comparator displays, given the text of its pre-release: operator,
/// major, then `.minor`, `.patch` and `-pre` as far as they are present; a
/// wildcard that stops early ends in `.*`.
pub open spec fn comparator_text(c: semver::Comparator, pre: Seq<char>) -> Seq<char> {
    let star = if c.op == semver::Op::Wildcard {
        seq!['.', '*']
    } else {
        Seq::empty()
    };
    op_text(c.op) + decimal(c.major as nat) + match c.minor {
        Some(minor) => seq!['.'] + decimal(minor as nat) + match c.patch {
            Some(patch) => seq!['.'] + decimal(patch as nat) + if pre.len() > 0 {
                seq!['-'] + pre
            } else {
                Seq::empty()
            },
            None => star,
        },
        None => star,
    }
}

/// The comparators displayed one after the other, separated by `, `.
pub open spec fn joined_text(cs: Seq<(semver::Comparator, Seq<char>)>) -> Seq<char>
    decreases cs.len(),
{
    if cs.len() <= 1 {
        if cs.len() == 1 {
            comparator_text(cs[0].0, cs[0].1)
        } else {
            Seq::empty()
        }
    } else {
        joined_text(cs.drop_last()) + seq![',', ' '] + comparator_text(cs.last().0, cs.last().1)
    }
}

/// How a requirement displays: `*` where it has no comparator.
pub open spec fn req_text(cs: Seq<(semver::Comparator, Seq<char>)>) -> Seq<char> {
    if cs.len() == 0 {
        seq!['*']
    } else {
        joined_text(cs)
    }
}

/// The comparators, each with the text of its pre-release.
pub open spec fn with_pre_texts(cs: Seq<semver::Comparator>) -> Seq<(semver::Comparator, Seq<char>)> {
    cs.map_values(|c: semver::Comparator| (c, pre_text(c.pre)))
}

/// The text that `semver` displays for a requirement made of these comparators.
pub open spec fn req_display(cs: Seq<semver::Comparator>) -> Seq<char> {
    req_text(with_pre_texts(cs))
}

/// How a version displays, given the texts of its pre-release and its build
/// metadata: `major.minor.patch`, then `-pre` and `+build` where not empty.
pub open spec fn version_text(v: semver::Version, pre: Seq<char>, build: Seq<char>) -> Seq<char> {
    decimal(v.major as nat) + seq!['.'] + decimal(v.minor as nat) + seq!['.'] + decimal(
        v.patch as nat,
    ) + (if pre.len() > 0 {
        seq!['-'] + pre
    } else {
        Seq::empty()
    }) + (if build.len() > 0 {
        seq!['+'] + build
    } else {
        Seq::empty()
    })
}

/// The text that `semver` displays for a version.
pub open spec fn version_display(v: semver::Version) -> Seq<char> {
    version_text(v, pre_text(v.pre), build_text(v.build))
}

/// Relies on `semver::VersionReq::parse`: `Ok` exactly on the texts it accepts.
pub assume_specification[ semver::VersionReq::parse ](text: &str) -> (r: Result<
    semver::VersionReq,
    semver::Error,
>)
    ensures
        match r {
            Ok(req) => parsed_req(text@) == Some(req),
            Err(_) => parsed_req(text@) is None,
        },
;

/// Relies on `semver::Version::parse`: `Ok` exactly on the texts it accepts.
pub assume_specification[ semver::Version::parse ](text: &str) -> (r: Result<
    semver::Version,
    semver::Error,
>)
    ensures
        match r {
            Ok(v) => parsed_version(text@) == Some(v),
            Err(_) => parsed_version(text@) is None,
        },
;

/// Relies on `semver::VersionReq::matches`, a function of its two arguments.
pub assume_specification[ semver::VersionReq::matches ](
    req: &semver::VersionReq,
    version: &semver::Version,
) -> (r: bool)
    ensures
        r == req_matches(*req, *version),
;

/// Relies on the derived `Clone` of `semver::Prerelease`, which copies the identifier.
pub assume_specification[ <semver::Prerelease as Clone>::clone ](
    pre: &semver::Prerelease,
) -> (r: semver::Prerelease)
    ensures
        r == *pre,
;

/// Relies on the derived `Default` of `semver::BuildMetadata`: the empty identifier.
pub assume_specification[ <semver::BuildMetadata as Default>::default ]() -> (r:
    semver::BuildMetadata)
    ensures
        build_text(r).len() == 0,
;

/// Relies on `Display for semver::VersionReq`, through `to_string`.
#[verifier::external_body]
pub(crate) fn display_req(req: &semver::VersionReq) -> (r: String)
    ensures
        r@ == req_text(req.comparators@.map_values(|c: semver::Comparator| (c, pre_text(c.pre)))),
{
    req.to_string()
}

/// Relies on `Display for semver::Version`, through `to_string`.
#[verifier::external_body]
pub(crate) fn display_version(version: &semver::Version) -> (r: String)
    ensures
        r@ == version_text(*version, pre_text(version.pre), build_text(version.build)),
{
    version.to_string()
}

} // verus!

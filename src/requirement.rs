//! Reasoning about version-requirement texts: whether one is pinned, whether
//! it already admits a version, which locked version it selects, and the
//! smallest rewrite that moves it to a new version.
use vstd::prelude::*;
use vstd::string::StrSliceExecFns;
use vstd::string::StringExecFns;
use crate::semver_specs::{
    build_text, display_req, display_version, parsed_req, parsed_version, req_display,
    req_matches, version_display,
};

verus! {

/// Operators that keep a requirement from following newer releases.
pub open spec fn is_pinning_op(op: semver::Op) -> bool {
    match op {
        semver::Op::Exact | semver::Op::Less | semver::Op::LessEq | semver::Op::Wildcard => true,
        _ => false,
    }
}

/// A requirement is pinned when it parses and one of its comparators pins.
pub open spec fn is_pinned_spec(text: Seq<char>) -> bool {
    match parsed_req(text) {
        Some(req) => exists|i: int|
            0 <= i < req.comparators@.len() && is_pinning_op(#[trigger] req.comparators@[i].op),
        None => false,
    }
}

/// Whether the requirement text admits the version text; false where either fails to parse.
pub open spec fn compatible_spec(req: Seq<char>, version: Seq<char>) -> bool {
    match (parsed_req(req), parsed_version(version)) {
        (Some(q), Some(v)) => req_matches(q, v),
        _ => false,
    }
}

/// Text equality of two string slices.
pub fn same_text(a: &str, b: &str) -> (r: bool)
    ensures
        r == (a@ == b@),
{
    let n = a.unicode_len();
    if n != b.unicode_len() {
        return false;
    }
    let mut i: usize = 0;
    while i < n
        invariant
            n == a@.len(),
            n == b@.len(),
            i <= n,
            forall|j: int| 0 <= j < i ==> a@[j] == b@[j],
        decreases n - i,
    {
        if a.get_char(i) != b.get_char(i) {
            return false;
        }
        i = i + 1;
    }
    assert(a@ =~= b@);
    true
}

/// Whether the text is non-empty and starts with `c`.
pub open spec fn starts_with_char(text: Seq<char>, c: char) -> bool {
    text.len() > 0 && text[0] == c
}

fn first_char_is(text: &str, c: char) -> (r: bool)
    ensures
        r == starts_with_char(text@, c),
{
    text.unicode_len() > 0 && text.get_char(0) == c
}

fn op_pins(op: semver::Op) -> (r: bool)
    ensures
        r == is_pinning_op(op),
{
    match op {
        semver::Op::Exact | semver::Op::Less | semver::Op::LessEq | semver::Op::Wildcard => true,
        _ => false,
    }
}

/// Whether a requirement is pinned: exact, upper-bounded, or a minor wildcard
/// such as `3.*`. A text that does not parse counts as not pinned.
pub fn is_pinned_req(old_version_req: &str) -> (r: bool)
    ensures
        r == is_pinned_spec(old_version_req@),
{
    match semver::VersionReq::parse(old_version_req) {
        Ok(req) => {
            let n = req.comparators.len();
            let mut i: usize = 0;
            while i < n
                invariant
                    n == req.comparators@.len(),
                    i <= n,
                    parsed_req(old_version_req@) == Some(req),
                    forall|j: int| 0 <= j < i ==> !is_pinning_op(#[trigger] req.comparators@[j].op),
                decreases n - i,
            {
                if op_pins(req.comparators[i].op) {
                    assert(is_pinning_op(req.comparators@[i as int].op));
                    return true;
                }
                i = i + 1;
            }
            false
        },
        Err(_) => false,
    }
}

/// Whether the old requirement already admits the new version. False where
/// either text fails to parse, partial versions such as `1.2` included.
pub fn old_version_compatible(old_version_req: &str, new_version: &str) -> (r: bool)
    ensures
        r == compatible_spec(old_version_req@, new_version@),
{
    let req = match semver::VersionReq::parse(old_version_req) {
        Ok(req) => req,
        Err(_) => return false,
    };
    let version = match semver::Version::parse(new_version) {
        Ok(version) => version,
        Err(_) => return false,
    };
    req.matches(&version)
}

/// One resolved package of a lockfile.
pub struct LockedPackage {
    pub name: String,
    pub version: semver::Version,
}

/// The package is the named one and its version satisfies the requirement.
pub open spec fn locked_hit(name: Seq<char>, req: semver::VersionReq, p: LockedPackage) -> bool {
    p.name@ == name && req_matches(req, p.version)
}

/// The version with its build metadata replaced.
pub open spec fn with_build(v: semver::Version, build: semver::BuildMetadata) -> semver::Version {
    semver::Version { major: v.major, minor: v.minor, patch: v.patch, pre: v.pre, build }
}

/// Displays the version without its build metadata.
pub open spec fn is_bare_display(text: Seq<char>, v: semver::Version) -> bool {
    exists|b: semver::BuildMetadata|
        build_text(b).len() == 0 && text == version_display(#[trigger] with_build(v, b))
}

/// `r` is what a lookup of the dependency's locked version gives: the first
/// locked package with that name whose version satisfies the requirement,
/// displayed without build metadata; `None` where there is none or the
/// requirement does not parse.
pub open spec fn is_locked_version_of(
    r: Option<Seq<char>>,
    dep_name: Seq<char>,
    old_version: Seq<char>,
    locked: Seq<LockedPackage>,
) -> bool {
    match parsed_req(old_version) {
        None => r is None,
        Some(req) => match r {
            None => forall|i: int| 0 <= i < locked.len() ==> !locked_hit(dep_name, req, #[trigger] locked[i]),
            Some(text) => exists|i: int|
                0 <= i < locked.len() && locked_hit(dep_name, req, #[trigger] locked[i])
                    && (forall|j: int| 0 <= j < i ==> !locked_hit(dep_name, req, #[trigger] locked[j]))
                    && is_bare_display(text, locked[i].version),
        },
    }
}

/// The text of an optional string.
pub open spec fn opt_text(o: Option<String>) -> Option<Seq<char>> {
    match o {
        Some(s) => Some(s@),
        None => None,
    }
}

/// The version of the first locked package that has the dependency's name and
/// satisfies its requirement, displayed without build metadata.
pub fn find_locked_version(dep_name: &str, old_version: &str, locked: &[LockedPackage]) -> (r:
    Option<String>)
    ensures
        is_locked_version_of(opt_text(r), dep_name@, old_version@, locked@),
{
    let req = match semver::VersionReq::parse(old_version) {
        Ok(req) => req,
        Err(_) => return None,
    };
    let n = locked.len();
    let mut i: usize = 0;
    while i < n
        invariant
            n == locked@.len(),
            i <= n,
            parsed_req(old_version@) == Some(req),
            forall|j: int| 0 <= j < i ==> !locked_hit(dep_name@, req, #[trigger] locked@[j]),
        decreases n - i,
    {
        let p = &locked[i];
        if same_text(dep_name, p.name.as_str()) && req.matches(&p.version) {
            let v = semver::Version {
                major: p.version.major,
                minor: p.version.minor,
                patch: p.version.patch,
                pre: p.version.pre.clone(),
                build: semver::BuildMetadata::default(),
            };
            let text = display_version(&v);
            assert(locked_hit(dep_name@, req, locked@[i as int]));
            assert(with_build(p.version, v.build) == v);
            return Some(text);
        }
        i = i + 1;
    }
    None
}

/// Why a requirement could not be rewritten.
#[derive(PartialEq, Eq, Structural, Clone, Copy, Debug)]
pub enum RequirementError {
    /// The requirement text does not parse.
    Unparsable,
    /// A comparator uses an operator that has no rewrite (`>`, `>=`, `<`, `<=`).
    Unsupported,
}

/// Operators whose comparator can be moved to a new version.
pub open spec fn is_movable_op(op: semver::Op) -> bool {
    match op {
        semver::Op::Exact | semver::Op::Tilde | semver::Op::Caret | semver::Op::Wildcard => true,
        _ => false,
    }
}

/// The comparator moved to `v`, keeping its operator and its precision. A
/// wildcard keeps its pre-release; the others take the version's.
pub open spec fn moved_comparator(c: semver::Comparator, v: semver::Version) -> semver::Comparator {
    semver::Comparator {
        op: c.op,
        major: v.major,
        minor: if c.minor is Some { Some(v.minor) } else { None },
        patch: if c.patch is Some { Some(v.patch) } else { None },
        pre: if c.op == semver::Op::Wildcard { c.pre } else { v.pre },
    }
}

/// Every comparator moved to `v`.
pub open spec fn moved_comparators(cs: Seq<semver::Comparator>, v: semver::Version) -> Seq<
    semver::Comparator,
> {
    cs.map_values(|c: semver::Comparator| moved_comparator(c, v))
}

/// The new text, with the caret that display adds removed where the old text had none.
pub open spec fn without_added_caret(new: Seq<char>, old: Seq<char>) -> Seq<char> {
    if starts_with_char(new, '^') && !starts_with_char(old, '^') {
        new.drop_first()
    } else {
        new
    }
}

/// The smallest rewrite of the requirement text `old` that moves it to `v`:
/// `Ok(None)` where the text would stay as it is.
pub open spec fn upgrade_spec(old: Seq<char>, v: semver::Version) -> Result<
    Option<Seq<char>>,
    RequirementError,
> {
    match parsed_req(old) {
        None => Err(RequirementError::Unparsable),
        Some(req) => if req.comparators@.len() == 0 {
            Ok(None)
        } else if exists|i: int|
            0 <= i < req.comparators@.len() && !is_movable_op(#[trigger] req.comparators@[i].op) {
            Err(RequirementError::Unsupported)
        } else {
            let text = without_added_caret(
                req_display(moved_comparators(req.comparators@, v)),
                old,
            );
            if text == old {
                Ok(None)
            } else {
                Ok(Some(text))
            }
        },
    }
}

/// Result of a rewrite agrees with its statement over texts.
pub open spec fn upgrade_result_is(
    r: Result<Option<String>, RequirementError>,
    s: Result<Option<Seq<char>>, RequirementError>,
) -> bool {
    match (r, s) {
        (Ok(None), Ok(None)) => true,
        (Ok(Some(a)), Ok(Some(b))) => a@ == b,
        (Err(e), Err(f)) => e == f,
        _ => false,
    }
}

fn op_moves(op: semver::Op) -> (r: bool)
    ensures
        r == is_movable_op(op),
{
    match op {
        semver::Op::Exact | semver::Op::Tilde | semver::Op::Caret | semver::Op::Wildcard => true,
        _ => false,
    }
}

fn move_comparator(c: &semver::Comparator, v: &semver::Version) -> (r: semver::Comparator)
    ensures
        r == moved_comparator(*c, *v),
{
    let minor = match c.minor {
        Some(_) => Some(v.minor),
        None => None,
    };
    let patch = match c.patch {
        Some(_) => Some(v.patch),
        None => None,
    };
    let pre = match c.op {
        semver::Op::Wildcard => c.pre.clone(),
        _ => v.pre.clone(),
    };
    semver::Comparator { op: c.op, major: v.major, minor, patch, pre }
}

/// Rewrites a requirement so that it moves to `version` while keeping its
/// operators and its precision (`1.2` becomes `1.5`, `1` stays `1`).
pub fn upgrade_requirement(req: &str, version: &semver::Version) -> (r: Result<
    Option<String>,
    RequirementError,
>)
    ensures
        upgrade_result_is(r, upgrade_spec(req@, *version)),
{
    let parsed = match semver::VersionReq::parse(req) {
        Ok(parsed) => parsed,
        Err(_) => return Err(RequirementError::Unparsable),
    };
    let n = parsed.comparators.len();
    if n == 0 {
        return Ok(None);
    }
    let mut moved: Vec<semver::Comparator> = Vec::new();
    let mut i: usize = 0;
    while i < n
        invariant
            n == parsed.comparators@.len(),
            i <= n,
            parsed_req(req@) == Some(parsed),
            moved@ == moved_comparators(parsed.comparators@.take(i as int), *version),
            forall|j: int| 0 <= j < i ==> is_movable_op(#[trigger] parsed.comparators@[j].op),
        decreases n - i,
    {
        if !op_moves(parsed.comparators[i].op) {
            assert(!is_movable_op(parsed.comparators@[i as int].op));
            return Err(RequirementError::Unsupported);
        }
        let c = move_comparator(&parsed.comparators[i], version);
        moved.push(c);
        proof {
            assert(parsed.comparators@.take(i + 1) =~= parsed.comparators@.take(i as int).push(
                parsed.comparators@[i as int],
            ));
            assert(moved@ =~= moved_comparators(parsed.comparators@.take(i + 1), *version));
        }
        i = i + 1;
    }
    assert(parsed.comparators@.take(n as int) =~= parsed.comparators@);
    let new_req = semver::VersionReq { comparators: moved };
    let text = display_req(&new_req);
    let text = if first_char_is(text.as_str(), '^') && !first_char_is(req, '^') {
        let len = text.as_str().unicode_len();
        let rest = text.as_str().substring_char(1, len);
        assert(rest@ =~= text@.drop_first());
        String::from_str(rest)
    } else {
        text
    };
    if same_text(text.as_str(), req) {
        Ok(None)
    } else {
        Ok(Some(text))
    }
}

/// Moving a requirement's comparators to a version a second time changes
/// nothing: the rewrite is idempotent on the parsed comparators.
pub proof fn lemma_moving_comparators_is_idempotent(
    cs: Seq<semver::Comparator>,
    v: semver::Version,
)
    ensures
        moved_comparators(moved_comparators(cs, v), v) == moved_comparators(cs, v),
{
    assert(moved_comparators(moved_comparators(cs, v), v) =~= moved_comparators(cs, v));
}

} // verus!

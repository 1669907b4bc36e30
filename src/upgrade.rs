//! Upgrading dependency requirements: the options of a run, the per-dependency
//! decision, the records it leaves, and the run over every package.
use vstd::prelude::*;
use vstd::string::StrSliceExecFns;
use vstd::string::StringExecFns;
use crate::requirement::{
    same_text, compatible_spec, find_locked_version, is_locked_version_of, is_pinned_req, is_pinned_spec,
    old_version_compatible, opt_text, upgrade_requirement, upgrade_spec, LockedPackage,
};
use crate::semver_specs::{parsed_req, parsed_version, req_matches};

verus! {

/// Options of an upgrade run.
pub struct UpgradeArgs {
    /// Dependencies to upgrade, each `name` or `name@requirement`; all when empty.
    pub dependency: Vec<String>,
    /// Path to the manifest to upgrade.
    pub manifest_path: Option<String>,
    /// Packages to upgrade.
    pub pkgid: Vec<String>,
    /// Deprecated spelling of `workspace`.
    pub all: bool,
    /// Upgrade every package of the workspace.
    pub workspace: bool,
    /// Decide and report, but write nothing.
    pub dry_run: bool,
    /// Upgrade pinned requirements too.
    pub pinned: bool,
    /// Do not use the network.
    pub offline: bool,
    /// Move requirements to the locked versions instead of the latest ones.
    pub to_lockfile: bool,
    /// Dependencies to leave alone.
    pub exclude: Vec<String>,
    /// Fail where a manifest would have to change.
    pub locked: bool,
    /// Show every dependency in the report.
    pub verbose: bool,
}

impl UpgradeArgs {
    /// Whether the run covers the whole workspace.
    pub fn workspace(&self) -> (r: bool)
        ensures
            r == (self.all || self.workspace),
    {
        self.all || self.workspace
    }
}

/// Why a requirement was left as it was.
#[derive(Copy, Clone, PartialEq, Eq, Structural, PartialOrd, Ord, Hash, Debug)]
pub enum Reason {
    Unchanged,
    Compatible,
    Pinned,
}

pub open spec fn short_text(r: Reason) -> Seq<char> {
    match r {
        Reason::Unchanged => ""@,
        Reason::Compatible => "compatible"@,
        Reason::Pinned => "pinned"@,
    }
}

pub open spec fn long_text(r: Reason) -> Seq<char> {
    match r {
        Reason::Unchanged => "unchanged"@,
        Reason::Compatible => "compatible"@,
        Reason::Pinned => "pinned"@,
    }
}

impl Reason {
    /// The tag shown in the report's table.
    pub fn as_short(&self) -> (r: &'static str)
        ensures
            r@ == short_text(*self),
    {
        match self {
            Self::Unchanged => "",
            Self::Compatible => "compatible",
            Self::Pinned => "pinned",
        }
    }

    /// The word that heads a group of the report's summary.
    pub fn as_long(&self) -> (r: &'static str)
        ensures
            r@ == long_text(*self),
    {
        match self {
            Self::Unchanged => "unchanged",
            Self::Compatible => "compatible",
            Self::Pinned => "pinned",
        }
    }
}

/// The decision taken for one dependency.
pub struct Dep {
    pub name: String,
    pub old_version_req: String,
    pub locked_version: Option<String>,
    pub latest_version: Option<String>,
    pub new_version_req: String,
    pub reason: Option<Reason>,
}

/// How a cell of the report is highlighted.
#[derive(Copy, Clone, PartialEq, Eq, Structural, Debug)]
pub enum CellStyle {
    Plain,
    Yellow,
    Green,
}

/// The text of an optional value, or `-` where there is none.
pub open spec fn or_dash(o: Option<String>) -> Seq<char> {
    match o {
        Some(s) => s@,
        None => "-"@,
    }
}

/// Whether the requirement admits the version; true where there is no version
/// or either text fails to parse.
pub open spec fn req_admits_latest(req: Seq<char>, latest: Option<String>) -> bool {
    match latest {
        Some(l) => match (parsed_version(l@), parsed_req(req)) {
            (Some(v), Some(q)) => req_matches(q, v),
            _ => true,
        },
        None => true,
    }
}

impl Dep {
    pub open spec fn changed(&self) -> bool {
        self.new_version_req@ != self.old_version_req@
    }

    pub open spec fn locked_is_latest(&self) -> bool {
        match (self.locked_version, self.latest_version) {
            (Some(a), Some(b)) => a@ == b@,
            _ => true,
        }
    }

    pub open spec fn interesting(&self) -> bool {
        self.reason is None || self.changed() || !req_admits_latest(
            self.old_version_req@,
            self.latest_version,
        )
    }

    fn req_matches_latest(&self, req: &str) -> (r: bool)
        ensures
            r == req_admits_latest(req@, self.latest_version),
    {
        match &self.latest_version {
            Some(latest) => match semver::Version::parse(latest.as_str()) {
                Ok(version) => match semver::VersionReq::parse(req) {
                    Ok(q) => q.matches(&version),
                    Err(_) => true,
                },
                Err(_) => true,
            },
            None => true,
        }
    }

    /// Whether the old requirement admits the latest version.
    pub fn old_req_matches_latest(&self) -> (r: bool)
        ensures
            r == req_admits_latest(self.old_version_req@, self.latest_version),
    {
        self.req_matches_latest(self.old_version_req.as_str())
    }

    /// The locked version, or `-`.
    pub fn locked_version(&self) -> (r: &str)
        ensures
            r@ == or_dash(self.locked_version),
    {
        match &self.locked_version {
            Some(v) => v.as_str(),
            None => "-",
        }
    }

    /// The latest version, or `-`.
    pub fn latest_version(&self) -> (r: &str)
        ensures
            r@ == or_dash(self.latest_version),
    {
        match &self.latest_version {
            Some(v) => v.as_str(),
            None => "-",
        }
    }

    /// Whether the locked version is the latest one; true where either is unknown.
    pub fn is_locked_latest(&self) -> (r: bool)
        ensures
            r == self.locked_is_latest(),
    {
        match (&self.locked_version, &self.latest_version) {
            (Some(a), Some(b)) => *a == *b,
            _ => true,
        }
    }

    /// Whether the requirement was rewritten.
    pub fn req_changed(&self) -> (r: bool)
        ensures
            r == self.changed(),
    {
        !(self.new_version_req == self.old_version_req)
    }

    /// The reason's tag, empty where there is none.
    pub fn short_reason(&self) -> (r: &'static str)
        ensures
            r@ == match self.reason {
                Some(x) => short_text(x),
                None => ""@,
            },
    {
        match self.reason {
            Some(x) => x.as_short(),
            None => "",
        }
    }

    /// The reason's summary word, empty where there is none.
    pub fn long_reason(&self) -> (r: &'static str)
        ensures
            r@ == match self.reason {
                Some(x) => long_text(x),
                None => ""@,
            },
    {
        match self.reason {
            Some(x) => x.as_long(),
            None => "",
        }
    }

    /// A record goes in the report's table when it has no reason, when its
    /// requirement changed, or when its old requirement misses the latest version.
    pub fn is_interesting(&self) -> (r: bool)
        ensures
            r == self.interesting(),
    {
        if self.reason.is_none() {
            return true;
        }
        if self.req_changed() {
            return true;
        }
        if !self.old_req_matches_latest() {
            return true;
        }
        false
    }

    /// Old requirements that miss the latest version are highlighted.
    pub fn old_version_req_spec(&self) -> (r: CellStyle)
        ensures
            r == if req_admits_latest(self.old_version_req@, self.latest_version) {
                CellStyle::Plain
            } else {
                CellStyle::Yellow
            },
    {
        if self.old_req_matches_latest() {
            CellStyle::Plain
        } else {
            CellStyle::Yellow
        }
    }

    /// Locked versions behind the latest one are highlighted.
    pub fn locked_version_spec(&self) -> (r: CellStyle)
        ensures
            r == if self.locked_is_latest() {
                CellStyle::Plain
            } else {
                CellStyle::Yellow
            },
    {
        if self.is_locked_latest() {
            CellStyle::Plain
        } else {
            CellStyle::Yellow
        }
    }

    /// A rewritten requirement is green, or yellow where a reason stands or the
    /// new requirement misses the latest version.
    pub fn new_version_req_spec(&self) -> (r: CellStyle)
        ensures
            r == if !self.changed() {
                CellStyle::Plain
            } else if self.reason is Some || !req_admits_latest(
                self.new_version_req@,
                self.latest_version,
            ) {
                CellStyle::Yellow
            } else {
                CellStyle::Green
            },
    {
        if !self.req_changed() {
            CellStyle::Plain
        } else if self.reason.is_some() {
            CellStyle::Yellow
        } else if self.req_matches_latest(self.new_version_req.as_str()) {
            CellStyle::Green
        } else {
            CellStyle::Yellow
        }
    }

    /// A reason is highlighted.
    pub fn reason_spec(&self) -> (r: CellStyle)
        ensures
            r == if self.reason is Some {
                CellStyle::Yellow
            } else {
                CellStyle::Plain
            },
    {
        if self.reason.is_some() {
            CellStyle::Yellow
        } else {
            CellStyle::Plain
        }
    }
}

/// One entry of a dependency table, as the upgrade reads it.
pub struct DepEntry {
    /// The key under which the entry stands.
    pub toml_key: String,
    /// The package's real name.
    pub name: String,
    /// Whether the key differs from the package's name.
    pub renamed: bool,
    /// The requirement; none for path, git and workspace sources.
    pub version_req: Option<String>,
    /// The latest version that the registry offers, where it was looked up.
    pub latest_version: Option<String>,
}

/// Why an upgrade run failed.
#[derive(PartialEq, Eq, Debug)]
pub enum UpgradeError {
    /// A locked or latest version text does not parse.
    UnparsableVersion(String),
    /// A manifest would have to change, but the run must change none.
    LockedViolation,
    /// Dependencies named for the run that no table holds.
    DependencyNotFound(Vec<String>),
    /// A dependency named for the run as `name@requirement` whose requirement does not parse.
    InvalidRequirement(String),
}

/// The requirement moved to the target version text: the rewrite where there
/// is one, the old text where none is needed, and the bare target where the
/// rewrite fails. `None` where the target does not parse.
pub open spec fn moved_text(old: Seq<char>, target: Seq<char>) -> Option<Seq<char>> {
    match parsed_version(target) {
        None => None,
        Some(v) => Some(
            match upgrade_spec(old, v) {
                Ok(Some(t)) => t,
                Ok(None) => old,
                Err(_) => target,
            },
        ),
    }
}

/// The new requirement and the reason, before `Unchanged` is filled in;
/// `None` where a version text that is needed fails to parse.
pub open spec fn raw_decision(
    old: Seq<char>,
    renamed: bool,
    chosen: Option<Seq<char>>,
    locked: Option<Seq<char>>,
    latest: Option<Seq<char>>,
    pinned: bool,
    to_lockfile: bool,
) -> Option<(Seq<char>, Option<Reason>)> {
    if !pinned && (renamed || is_pinned_spec(old)) {
        Some((old, Some(Reason::Pinned)))
    } else if chosen is Some {
        Some((chosen.unwrap(), None))
    } else if to_lockfile {
        match locked {
            None => Some((old, None)),
            Some(l) => match moved_text(old, l) {
                None => None,
                Some(t) => Some((t, None)),
            },
        }
    } else {
        match latest {
            None => Some((old, None)),
            Some(l) => match moved_text(old, l) {
                None => None,
                Some(t) => if t == old && compatible_spec(old, l) {
                    Some((old, Some(Reason::Compatible)))
                } else {
                    Some((t, None))
                },
            },
        }
    }
}

/// The new requirement and the reason for one dependency.
pub open spec fn decision_spec(
    old: Seq<char>,
    renamed: bool,
    chosen: Option<Seq<char>>,
    locked: Option<Seq<char>>,
    latest: Option<Seq<char>>,
    pinned: bool,
    to_lockfile: bool,
) -> Option<(Seq<char>, Option<Reason>)> {
    match raw_decision(old, renamed, chosen, locked, latest, pinned, to_lockfile) {
        None => None,
        Some((t, reason)) => Some(
            (t, if t == old && reason is None { Some(Reason::Unchanged) } else { reason }),
        ),
    }
}

/// The text of the requirement chosen on the command line, if any.
pub open spec fn chosen_text(chosen: Option<&String>) -> Option<Seq<char>> {
    match chosen {
        Some(s) => Some(s@),
        None => None,
    }
}

fn move_to(old: &String, target: &String) -> (r: Result<String, UpgradeError>)
    ensures
        match r {
            Ok(t) => moved_text(old@, target@) == Some(t@),
            Err(e) => moved_text(old@, target@) is None && e == UpgradeError::UnparsableVersion(
                *target,
            ),
        },
{
    let version = match semver::Version::parse(target.as_str()) {
        Ok(version) => version,
        Err(_) => return Err(UpgradeError::UnparsableVersion(target.clone())),
    };
    match upgrade_requirement(old.as_str(), &version) {
        Ok(Some(t)) => Ok(t),
        Ok(None) => Ok(old.clone()),
        Err(_) => Ok(target.clone()),
    }
}

/// Decides the new requirement of one dependency whose old requirement is
/// `old`. `chosen` is the requirement given for it on the command line, if
/// any; the locked version is looked up in `locked`.
pub fn decide_upgrade(
    entry: &DepEntry,
    old: &String,
    chosen: Option<&String>,
    locked: &[LockedPackage],
    pinned: bool,
    to_lockfile: bool,
) -> (r: Result<Dep, UpgradeError>)
    ensures
        match r {
            Ok(d) => {
                &&& is_locked_version_of(opt_text(d.locked_version), entry.name@, old@, locked@)
                &&& d.name@ == entry.toml_key@
                &&& d.old_version_req@ == old@
                &&& opt_text(d.latest_version) == opt_text(entry.latest_version)
                &&& decision_spec(
                    old@,
                    entry.renamed,
                    chosen_text(chosen),
                    opt_text(d.locked_version),
                    opt_text(entry.latest_version),
                    pinned,
                    to_lockfile,
                ) == Some((d.new_version_req@, d.reason))
            },
            Err(e) => exists|l: Option<String>|
                is_locked_version_of(opt_text(l), entry.name@, old@, locked@) && decision_spec(
                    old@,
                    entry.renamed,
                    chosen_text(chosen),
                    opt_text(l),
                    opt_text(entry.latest_version),
                    pinned,
                    to_lockfile,
                ) is None && e is UnparsableVersion,
        },
{
    let locked_version = find_locked_version(entry.name.as_str(), old.as_str(), locked);
    let ghost lv = opt_text(locked_version);
    let mut reason: Option<Reason> = None;
    let new_version_req: String;
    if !pinned && (entry.renamed || is_pinned_req(old.as_str())) {
        reason = Some(Reason::Pinned);
        new_version_req = old.clone();
    } else if let Some(c) = chosen {
        new_version_req = c.clone();
    } else if to_lockfile {
        match &locked_version {
            Some(l) => {
                new_version_req = match move_to(old, l) {
                    Ok(t) => t,
                    Err(e) => return Err(e),
                };
            },
            None => {
                new_version_req = old.clone();
            },
        }
    } else {
        match &entry.latest_version {
            Some(l) => {
                let t = match move_to(old, l) {
                    Ok(t) => t,
                    Err(e) => return Err(e),
                };
                if t == *old && old_version_compatible(old.as_str(), l.as_str()) {
                    reason = Some(Reason::Compatible);
                    new_version_req = old.clone();
                } else {
                    new_version_req = t;
                }
            },
            None => {
                new_version_req = old.clone();
            },
        }
    }
    if new_version_req == *old && reason.is_none() {
        reason = Some(Reason::Unchanged);
    }
    let latest_version = match &entry.latest_version {
        Some(l) => Some(l.clone()),
        None => None,
    };
    Ok(
        Dep {
            name: entry.toml_key.clone(),
            old_version_req: old.clone(),
            locked_version,
            latest_version,
            new_version_req,
            reason,
        },
    )
}

/// A dependency named for the run, with the requirement given for it, if any.
pub struct Selection {
    pub name: String,
    pub version_req: Option<String>,
}

/// The requirement given for the last selection with this name: a later
/// mention of a dependency overrides an earlier one.
pub open spec fn chosen_req(selected: Seq<Selection>, key: Seq<char>) -> Option<Seq<char>>
    decreases selected.len(),
{
    if selected.len() == 0 {
        None
    } else if selected.last().name@ == key {
        opt_text(selected.last().version_req)
    } else {
        chosen_req(selected.drop_last(), key)
    }
}

pub open spec fn names_key(selected: Seq<Selection>, key: Seq<char>) -> bool {
    exists|k: int| 0 <= k < selected.len() && (#[trigger] selected[k]).name@ == key
}

pub open spec fn excludes(exclude: Seq<String>, key: Seq<char>) -> bool {
    exists|k: int| 0 <= k < exclude.len() && (#[trigger] exclude[k])@ == key
}

/// An entry is decided on when the run selects it (or selects nothing), does
/// not exclude it, and it has a requirement.
pub open spec fn considered(e: DepEntry, args: UpgradeArgs, selected: Seq<Selection>) -> bool {
    &&& (selected.len() == 0 || names_key(selected, e.toml_key@))
    &&& !excludes(args.exclude@, e.toml_key@)
    &&& e.version_req is Some
}

/// `d` is the decision for the considered entry `e`.
pub open spec fn record_is(
    d: Dep,
    e: DepEntry,
    args: UpgradeArgs,
    selected: Seq<Selection>,
    locked: Seq<LockedPackage>,
) -> bool {
    let old = e.version_req.unwrap()@;
    &&& is_locked_version_of(opt_text(d.locked_version), e.name@, old, locked)
    &&& d.name@ == e.toml_key@
    &&& d.old_version_req@ == old
    &&& opt_text(d.latest_version) == opt_text(e.latest_version)
    &&& decision_spec(
        old,
        e.renamed,
        chosen_req(selected, e.toml_key@),
        opt_text(d.locked_version),
        opt_text(e.latest_version),
        args.pinned,
        args.to_lockfile,
    ) == Some((d.new_version_req@, d.reason))
}

/// No decision can be taken for the entry: a version text that it needs does not parse.
pub open spec fn decision_fails(
    e: DepEntry,
    args: UpgradeArgs,
    selected: Seq<Selection>,
    locked: Seq<LockedPackage>,
) -> bool {
    let old = e.version_req.unwrap()@;
    exists|l: Option<Seq<char>>|
        is_locked_version_of(l, e.name@, old, locked) && #[trigger] decision_spec(
            old,
            e.renamed,
            chosen_req(selected, e.toml_key@),
            l,
            opt_text(e.latest_version),
            args.pinned,
            args.to_lockfile,
        ) is None
}

fn find_chosen<'a>(selected: &'a Vec<Selection>, key: &str) -> (r: Option<&'a String>)
    ensures
        chosen_text(r) == chosen_req(selected@, key@),
{
    let mut i: usize = selected.len();
    assert(selected@.take(i as int) =~= selected@);
    while i > 0
        invariant
            i <= selected@.len(),
            chosen_req(selected@, key@) == chosen_req(selected@.take(i as int), key@),
        decreases i,
    {
        assert(selected@.take(i as int).last() == selected@[i - 1]);
        if same_text(selected[i - 1].name.as_str(), key) {
            return match &selected[i - 1].version_req {
                Some(v) => Some(v),
                None => None,
            };
        }
        assert(selected@.take(i as int).drop_last() =~= selected@.take(i - 1));
        i = i - 1;
    }
    None
}

fn is_named(selected: &Vec<Selection>, key: &str) -> (r: bool)
    ensures
        r == names_key(selected@, key@),
{
    let n = selected.len();
    let mut i: usize = 0;
    while i < n
        invariant
            n == selected@.len(),
            i <= n,
            forall|k: int| 0 <= k < i ==> (#[trigger] selected@[k]).name@ != key@,
        decreases n - i,
    {
        if same_text(selected[i].name.as_str(), key) {
            assert(selected@[i as int].name@ == key@);
            return true;
        }
        i = i + 1;
    }
    false
}

fn is_excluded(exclude: &Vec<String>, key: &str) -> (r: bool)
    ensures
        r == excludes(exclude@, key@),
{
    let n = exclude.len();
    let mut i: usize = 0;
    while i < n
        invariant
            n == exclude@.len(),
            i <= n,
            forall|k: int| 0 <= k < i ==> (#[trigger] exclude@[k])@ != key@,
        decreases n - i,
    {
        if same_text(exclude[i].as_str(), key) {
            assert(exclude@[i as int]@ == key@);
            return true;
        }
        i = i + 1;
    }
    false
}

/// Whether the run decides on the entry.
pub fn is_considered(e: &DepEntry, args: &UpgradeArgs, selected: &Vec<Selection>) -> (r: bool)
    ensures
        r == considered(*e, *args, selected@),
{
    if selected.len() != 0 && !is_named(selected, e.toml_key.as_str()) {
        return false;
    }
    if is_excluded(&args.exclude, e.toml_key.as_str()) {
        return false;
    }
    e.version_req.is_some()
}

/// Decides on every entry of one package, in order: `None` for the entries
/// that the run leaves out.
pub fn plan_package(
    entries: &Vec<DepEntry>,
    args: &UpgradeArgs,
    selected: &Vec<Selection>,
    locked: &[LockedPackage],
) -> (r: Result<Vec<Option<Dep>>, UpgradeError>)
    ensures
        match r {
            Ok(records) => {
                &&& records@.len() == entries@.len()
                &&& forall|i: int|
                    0 <= i < entries@.len() ==> match #[trigger] records@[i] {
                        None => !considered(entries@[i], *args, selected@),
                        Some(d) => considered(entries@[i], *args, selected@) && record_is(
                            d,
                            entries@[i],
                            *args,
                            selected@,
                            locked@,
                        ),
                    }
            },
            Err(e) => e is UnparsableVersion && exists|i: int|
                0 <= i < entries@.len() && considered(#[trigger] entries@[i], *args, selected@)
                    && decision_fails(entries@[i], *args, selected@, locked@),
        },
{
    let mut records: Vec<Option<Dep>> = Vec::new();
    let n = entries.len();
    let mut i: usize = 0;
    while i < n
        invariant
            n == entries@.len(),
            i <= n,
            records@.len() == i,
            forall|j: int|
                0 <= j < i ==> match #[trigger] records@[j] {
                    None => !considered(entries@[j], *args, selected@),
                    Some(d) => considered(entries@[j], *args, selected@) && record_is(
                        d,
                        entries@[j],
                        *args,
                        selected@,
                        locked@,
                    ),
                },
        decreases n - i,
    {
        let e = &entries[i];
        if !is_considered(e, args, selected) {
            records.push(None);
        } else {
            let old = e.version_req.as_ref().unwrap();
            let chosen = find_chosen(selected, e.toml_key.as_str());
            match decide_upgrade(e, old, chosen, locked, args.pinned, args.to_lockfile) {
                Ok(d) => {
                    records.push(Some(d));
                },
                Err(err) => {
                    assert(decision_fails(entries@[i as int], *args, selected@, locked@));
                    return Err(err);
                },
            }
        }
        i = i + 1;
    }
    Ok(records)
}

pub open spec fn record_changed(o: Option<Dep>) -> bool {
    o is Some && o.unwrap().changed()
}

pub open spec fn record_has_reason(o: Option<Dep>, reason: Reason) -> bool {
    o is Some && o.unwrap().reason == Some(reason)
}

/// Some record of the package changes a requirement.
pub open spec fn any_changed(records: Seq<Option<Dep>>) -> bool {
    exists|i: int| 0 <= i < records.len() && record_changed(#[trigger] records[i])
}

/// Some record of the package has this reason.
pub open spec fn any_reason(records: Seq<Option<Dep>>, reason: Reason) -> bool {
    exists|i: int| 0 <= i < records.len() && record_has_reason(#[trigger] records[i], reason)
}

/// The records of one package hold the decisions for its entries.
pub open spec fn package_records_are(
    records: Seq<Option<Dep>>,
    entries: Seq<DepEntry>,
    args: UpgradeArgs,
    selected: Seq<Selection>,
    locked: Seq<LockedPackage>,
) -> bool {
    &&& records.len() == entries.len()
    &&& forall|i: int|
        0 <= i < entries.len() ==> match #[trigger] records[i] {
            None => !considered(entries[i], args, selected),
            Some(d) => considered(entries[i], args, selected) && record_is(
                d,
                entries[i],
                args,
                selected,
                locked,
            ),
        }
}

/// Some entry of some package has this key.
pub open spec fn key_in_packages(packages: Seq<Vec<DepEntry>>, key: Seq<char>) -> bool {
    exists|p: int, i: int|
        0 <= p < packages.len() && 0 <= i < packages[p]@.len() && (#[trigger] packages[p]@[i]).toml_key@
            == key
}

/// The outcome of an upgrade run: per package, one slot per entry.
pub struct UpgradePlan {
    pub records: Vec<Vec<Option<Dep>>>,
    /// Per package, whether its manifest changes.
    pub modified: Vec<bool>,
    pub any_modified: bool,
    pub pinned_present: bool,
    pub compatible_present: bool,
}

/// Which of the package's records change a requirement, are pinned, are compatible.
pub fn summarize(records: &Vec<Option<Dep>>) -> (r: (bool, bool, bool))
    ensures
        r.0 == any_changed(records@),
        r.1 == any_reason(records@, Reason::Pinned),
        r.2 == any_reason(records@, Reason::Compatible),
{
    let mut changed = false;
    let mut pinned = false;
    let mut compatible = false;
    let n = records.len();
    let mut i: usize = 0;
    while i < n
        invariant
            n == records@.len(),
            i <= n,
            changed == exists|j: int| 0 <= j < i && record_changed(#[trigger] records@[j]),
            pinned == exists|j: int|
                0 <= j < i && record_has_reason(#[trigger] records@[j], Reason::Pinned),
            compatible == exists|j: int|
                0 <= j < i && record_has_reason(#[trigger] records@[j], Reason::Compatible),
        decreases n - i,
    {
        match &records[i] {
            Some(d) => {
                if d.req_changed() {
                    changed = true;
                }
                if d.reason == Some(Reason::Pinned) {
                    pinned = true;
                }
                if d.reason == Some(Reason::Compatible) {
                    compatible = true;
                }
            },
            None => {},
        }
        proof {
            if record_changed(records@[i as int]) {
                assert(changed);
            }
            if record_has_reason(records@[i as int], Reason::Pinned) {
                assert(pinned);
            }
            if record_has_reason(records@[i as int], Reason::Compatible) {
                assert(compatible);
            }
        }
        i = i + 1;
    }
    (changed, pinned, compatible)
}

fn key_present(packages: &Vec<Vec<DepEntry>>, key: &str) -> (r: bool)
    ensures
        r == key_in_packages(packages@, key@),
{
    let n = packages.len();
    let mut p: usize = 0;
    while p < n
        invariant
            n == packages@.len(),
            p <= n,
            forall|q: int, i: int|
                0 <= q < p && 0 <= i < packages@[q]@.len() ==> (#[trigger] packages@[q]@[i]).toml_key@
                    != key@,
        decreases n - p,
    {
        let entries = &packages[p];
        let m = entries.len();
        let mut i: usize = 0;
        while i < m
            invariant
                n == packages@.len(),
                p < n,
                entries == packages@[p as int],
                m == entries@.len(),
                i <= m,
                forall|q: int, j: int|
                    0 <= q < p && 0 <= j < packages@[q]@.len() ==> (#[trigger] packages@[q]@[j]).toml_key@
                        != key@,
                forall|j: int| 0 <= j < i ==> (#[trigger] entries@[j]).toml_key@ != key@,
            decreases m - i,
        {
            if same_text(entries[i].toml_key.as_str(), key) {
                assert(packages@[p as int]@[i as int].toml_key@ == key@);
                return true;
            }
            i = i + 1;
        }
        p = p + 1;
    }
    false
}

/// The texts of a list of strings.
pub open spec fn names_of(v: Seq<String>) -> Seq<Seq<char>> {
    v.map_values(|s: String| s@)
}

/// The selected names that no package holds, in the order they were first
/// given, each once.
pub open spec fn absent_names(selected: Seq<Selection>, packages: Seq<Vec<DepEntry>>) -> Seq<
    Seq<char>,
>
    decreases selected.len(),
{
    if selected.len() == 0 {
        Seq::empty()
    } else {
        let earlier = absent_names(selected.drop_last(), packages);
        let name = selected.last().name@;
        if !key_in_packages(packages, name) && !earlier.contains(name) {
            earlier.push(name)
        } else {
            earlier
        }
    }
}

/// Where no selected name is absent, every selected name is held by some package.
pub proof fn lemma_no_absent_names(selected: Seq<Selection>, packages: Seq<Vec<DepEntry>>)
    requires
        absent_names(selected, packages).len() == 0,
    ensures
        forall|k: int|
            0 <= k < selected.len() ==> key_in_packages(packages, #[trigger] selected[k].name@),
    decreases selected.len(),
{
    if selected.len() > 0 {
        let earlier = absent_names(selected.drop_last(), packages);
        assert(earlier.len() == 0);
        lemma_no_absent_names(selected.drop_last(), packages);
        assert forall|k: int|
            0 <= k < selected.len() implies key_in_packages(packages, #[trigger] selected[k].name@) by {
            if k < selected.len() - 1 {
                assert(selected[k] == selected.drop_last()[k]);
            } else {
                assert(!earlier.contains(selected.last().name@));
            }
        }
    }
}

fn contains_name(names: &Vec<String>, name: &str) -> (r: bool)
    ensures
        r == names_of(names@).contains(name@),
{
    let n = names.len();
    let mut i: usize = 0;
    while i < n
        invariant
            n == names@.len(),
            i <= n,
            forall|j: int| 0 <= j < i ==> (#[trigger] names@[j])@ != name@,
        decreases n - i,
    {
        if same_text(names[i].as_str(), name) {
            assert(names_of(names@)[i as int] == name@);
            return true;
        }
        i = i + 1;
    }
    proof {
        if names_of(names@).contains(name@) {
            let j = choose|j: int| 0 <= j < names_of(names@).len() && names_of(names@)[j] == name@;
            assert(names@[j]@ == name@);
        }
    }
    false
}

/// The selected names that no package holds, in the order they were first
/// given, each once.
pub fn missing_selections(selected: &Vec<Selection>, packages: &Vec<Vec<DepEntry>>) -> (r: Vec<
    String,
>)
    ensures
        names_of(r@) == absent_names(selected@, packages@),
{
    let mut missing: Vec<String> = Vec::new();
    let n = selected.len();
    let mut k: usize = 0;
    assert(selected@.take(0) =~= Seq::<Selection>::empty());
    assert(names_of(missing@) =~= Seq::<Seq<char>>::empty());
    while k < n
        invariant
            n == selected@.len(),
            k <= n,
            names_of(missing@) == absent_names(selected@.take(k as int), packages@),
        decreases n - k,
    {
        assert(selected@.take(k + 1).drop_last() =~= selected@.take(k as int));
        assert(selected@.take(k + 1).last() == selected@[k as int]);
        if !key_present(packages, selected[k].name.as_str()) && !contains_name(
            &missing,
            selected[k].name.as_str(),
        ) {
            let name = selected[k].name.clone();
            missing.push(name);
        }
        assert(names_of(missing@) =~= absent_names(selected@.take(k + 1), packages@));
        k = k + 1;
    }
    assert(selected@.take(n as int) =~= selected@);
    missing
}

/// Decides on every dependency of every package, in order. Fails where a
/// needed version text does not parse, then where the run must change nothing
/// and some requirement changes, then where a selected dependency is in no package.
pub fn plan_upgrade(
    args: &UpgradeArgs,
    selected: &Vec<Selection>,
    packages: &Vec<Vec<DepEntry>>,
    locked: &[LockedPackage],
) -> (r: Result<UpgradePlan, UpgradeError>)
    ensures
        match r {
            Ok(plan) => {
                &&& plan.records@.len() == packages@.len()
                &&& plan.modified@.len() == packages@.len()
                &&& forall|p: int|
                    0 <= p < packages@.len() ==> package_records_are(
                        #[trigger] plan.records@[p]@,
                        packages@[p]@,
                        *args,
                        selected@,
                        locked@,
                    )
                &&& forall|p: int|
                    0 <= p < packages@.len() ==> #[trigger] plan.modified@[p] == any_changed(
                        plan.records@[p]@,
                    )
                &&& plan.any_modified == exists|p: int|
                    0 <= p < packages@.len() && #[trigger] plan.modified@[p]
                &&& plan.pinned_present == exists|p: int|
                    0 <= p < packages@.len() && any_reason(
                        #[trigger] plan.records@[p]@,
                        Reason::Pinned,
                    )
                &&& plan.compatible_present == exists|p: int|
                    0 <= p < packages@.len() && any_reason(
                        #[trigger] plan.records@[p]@,
                        Reason::Compatible,
                    )
                &&& !(args.locked && plan.any_modified)
                &&& forall|k: int|
                    0 <= k < selected@.len() ==> key_in_packages(
                        packages@,
                        #[trigger] selected@[k].name@,
                    )
            },
            Err(UpgradeError::UnparsableVersion(_)) => exists|p: int, i: int|
                0 <= p < packages@.len() && 0 <= i < packages@[p]@.len() && considered(
                    #[trigger] packages@[p]@[i],
                    *args,
                    selected@,
                ) && decision_fails(packages@[p]@[i], *args, selected@, locked@),
            Err(UpgradeError::LockedViolation) => args.locked && exists|p: int, i: int, d: Dep|
                0 <= p < packages@.len() && 0 <= i < packages@[p]@.len() && considered(
                    packages@[p]@[i],
                    *args,
                    selected@,
                ) && #[trigger] record_is(d, packages@[p]@[i], *args, selected@, locked@)
                    && d.changed(),
            Err(UpgradeError::DependencyNotFound(names)) => {
                &&& names@.len() > 0
                &&& names_of(names@) == absent_names(selected@, packages@)
            },
            Err(UpgradeError::InvalidRequirement(_)) => false,
        },
{
    let mut records: Vec<Vec<Option<Dep>>> = Vec::new();
    let mut modified: Vec<bool> = Vec::new();
    let mut any_modified = false;
    let mut pinned_present = false;
    let mut compatible_present = false;
    let n = packages.len();
    let mut p: usize = 0;
    while p < n
        invariant
            n == packages@.len(),
            p <= n,
            records@.len() == p,
            modified@.len() == p,
            forall|q: int|
                0 <= q < p ==> package_records_are(
                    #[trigger] records@[q]@,
                    packages@[q]@,
                    *args,
                    selected@,
                    locked@,
                ),
            forall|q: int| 0 <= q < p ==> #[trigger] modified@[q] == any_changed(records@[q]@),
            any_modified == exists|q: int| 0 <= q < p && #[trigger] modified@[q],
            pinned_present == exists|q: int|
                0 <= q < p && any_reason(#[trigger] records@[q]@, Reason::Pinned),
            compatible_present == exists|q: int|
                0 <= q < p && any_reason(#[trigger] records@[q]@, Reason::Compatible),
        decreases n - p,
    {
        let package = match plan_package(&packages[p], args, selected, locked) {
            Ok(package) => package,
            Err(e) => return Err(e),
        };
        let (changed, pinned, compatible) = summarize(&package);
        let ghost before = records@;
        let ghost modified_before = modified@;
        let ghost old_any = any_modified;
        let ghost old_pinned = pinned_present;
        let ghost old_compatible = compatible_present;
        records.push(package);
        modified.push(changed);
        any_modified = any_modified || changed;
        pinned_present = pinned_present || pinned;
        compatible_present = compatible_present || compatible;
        proof {
            assert(records@[p as int] == package);
            assert forall|q: int| 0 <= q < p implies #[trigger] records@[q] == before[q] by {}
            assert forall|q: int| 0 <= q < p implies #[trigger] modified@[q]
                == modified_before[q] by {}
            if exists|q: int| 0 <= q < p + 1 && #[trigger] modified@[q] {
                let q = choose|q: int| 0 <= q < p + 1 && #[trigger] modified@[q];
                if q < p {
                    assert(modified_before[q]);
                }
            }
            if changed {
                assert(modified@[p as int]);
            }
            if old_any {
                let q = choose|q: int| 0 <= q < p && #[trigger] modified_before[q];
                assert(modified@[q]);
            }
            if old_pinned {
                let q = choose|q: int| 0 <= q < p && any_reason(#[trigger] before[q]@, Reason::Pinned);
                assert(any_reason(records@[q]@, Reason::Pinned));
            }
            if old_compatible {
                let q = choose|q: int|
                    0 <= q < p && any_reason(#[trigger] before[q]@, Reason::Compatible);
                assert(any_reason(records@[q]@, Reason::Compatible));
            }
            if exists|q: int| 0 <= q < p + 1 && any_reason(#[trigger] records@[q]@, Reason::Pinned) {
                let q = choose|q: int|
                    0 <= q < p + 1 && any_reason(#[trigger] records@[q]@, Reason::Pinned);
                if q < p {
                    assert(any_reason(before[q]@, Reason::Pinned));
                }
            }
            if pinned {
                assert(any_reason(records@[p as int]@, Reason::Pinned));
            }
            if exists|q: int|
                0 <= q < p + 1 && any_reason(#[trigger] records@[q]@, Reason::Compatible) {
                let q = choose|q: int|
                    0 <= q < p + 1 && any_reason(#[trigger] records@[q]@, Reason::Compatible);
                if q < p {
                    assert(any_reason(before[q]@, Reason::Compatible));
                }
            }
            if compatible {
                assert(any_reason(records@[p as int]@, Reason::Compatible));
            }
        }
        p = p + 1;
    }
    if any_modified && args.locked {
        proof {
            let q = choose|q: int| 0 <= q < n && #[trigger] modified@[q];
            let i = choose|i: int|
                0 <= i < records@[q]@.len() && record_changed(#[trigger] records@[q]@[i]);
            let d = records@[q]@[i].unwrap();
            assert(considered(packages@[q]@[i], *args, selected@));
            assert(record_is(d, packages@[q]@[i], *args, selected@, locked@));
        }
        return Err(UpgradeError::LockedViolation);
    }
    let missing = missing_selections(selected, packages);
    if missing.len() > 0 {
        let r = Err(UpgradeError::DependencyNotFound(missing));
        assert(r matches Err(UpgradeError::DependencyNotFound(names)) && names == missing);
        return r;
    }
    proof {
        lemma_no_absent_names(selected@, packages@);
    }
    let plan = UpgradePlan { records, modified, any_modified, pinned_present, compatible_present };
    assert(plan.records@ == records@ && plan.modified@ == modified@);
    Ok(plan)
}

/// `i` is the position of the first `@` of the text.
pub open spec fn is_first_at(text: Seq<char>, i: int) -> bool {
    &&& 0 <= i < text.len()
    &&& text[i] == '@'
    &&& forall|j: int| 0 <= j < i ==> text[j] != '@'
}

/// Reads a dependency named for the run: `name`, or `name@requirement`,
/// split at the first `@`; the requirement must parse.
pub fn parse_selection(text: &str) -> (r: Result<Selection, UpgradeError>)
    ensures
        match r {
            Ok(sel) => {
                ||| (forall|j: int| 0 <= j < text@.len() ==> text@[j] != '@') && sel.name@ == text@
                    && sel.version_req is None
                ||| exists|i: int|
                    is_first_at(text@, i) && sel.name@ == text@.take(i) && opt_text(sel.version_req)
                        == Some(text@.skip(i + 1)) && parsed_req(text@.skip(i + 1)) is Some
            },
            Err(e) => exists|i: int|
                is_first_at(text@, i) && parsed_req(text@.skip(i + 1)) is None
                    && e is InvalidRequirement && e->InvalidRequirement_0@ == text@,
        },
{
    let n = text.unicode_len();
    let mut i: usize = 0;
    while i < n
        invariant
            n == text@.len(),
            i <= n,
            forall|j: int| 0 <= j < i ==> text@[j] != '@',
        decreases n - i,
    {
        if text.get_char(i) == '@' {
            let name = text.substring_char(0, i);
            let req = text.substring_char(i + 1, n);
            assert(req@ =~= text@.skip(i + 1));
            assert(name@ =~= text@.take(i as int));
            assert(is_first_at(text@, i as int));
            return match semver::VersionReq::parse(req) {
                Ok(_) => Ok(
                    Selection { name: String::from_str(name), version_req: Some(String::from_str(req)) },
                ),
                Err(_) => Err(UpgradeError::InvalidRequirement(String::from_str(text))),
            };
        }
        i = i + 1;
    }
    Ok(Selection { name: String::from_str(text), version_req: None })
}

/// The reasons a decision records are sound: `Pinned` only for a renamed
/// entry or a pinned requirement, without the pin override; `Compatible` only
/// where the requirement stays and already admits the latest version;
/// `Unchanged` only where the requirement stays.
pub proof fn lemma_decision_reasons(
    old: Seq<char>,
    renamed: bool,
    chosen: Option<Seq<char>>,
    locked: Option<Seq<char>>,
    latest: Option<Seq<char>>,
    pinned: bool,
    to_lockfile: bool,
)
    ensures
        match decision_spec(old, renamed, chosen, locked, latest, pinned, to_lockfile) {
            Some((new, Some(Reason::Pinned))) => !pinned && (renamed || is_pinned_spec(old)) && new
                == old,
            Some((new, Some(Reason::Compatible))) => new == old && latest is Some
                && compatible_spec(old, latest.unwrap()),
            Some((new, Some(Reason::Unchanged))) => new == old,
            _ => true,
        },
{
}

} // verus!

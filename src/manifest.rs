//! An order-preserving model of a manifest's dependency tables and feature
//! lists, with removal of dependencies and the clean-up of the feature
//! activations that named them.
use vstd::prelude::*;
use crate::requirement::same_text;
use vstd::string::StrSliceExecFns;

verus! {

/// The kind of a dependency table.
#[derive(Copy, Clone, PartialEq, Eq, Structural, Debug)]
pub enum DepKind {
    Normal,
    Development,
    Build,
}

/// Selects a dependency table: its kind, and the platform it is scoped to, if any.
pub struct DepTable {
    pub kind: DepKind,
    pub target: Option<String>,
}

pub open spec fn kind_name(kind: DepKind) -> Seq<char> {
    match kind {
        DepKind::Normal => "dependencies"@,
        DepKind::Development => "dev-dependencies"@,
        DepKind::Build => "build-dependencies"@,
    }
}

/// The texts of a list of strings.
pub open spec fn texts(v: Seq<String>) -> Seq<Seq<char>> {
    v.map_values(|s: String| s@)
}

impl DepTable {
    /// The path of keys that leads to the table in the manifest.
    pub open spec fn path_spec(&self) -> Seq<Seq<char>> {
        match self.target {
            Some(t) => seq!["target"@, t@, kind_name(self.kind)],
            None => seq![kind_name(self.kind)],
        }
    }

    /// The name of the table's kind.
    pub fn kind_table_name(&self) -> (r: &'static str)
        ensures
            r@ == kind_name(self.kind),
    {
        match self.kind {
            DepKind::Normal => "dependencies",
            DepKind::Development => "dev-dependencies",
            DepKind::Build => "build-dependencies",
        }
    }

    /// The platform the table is scoped to, if any.
    pub fn target(&self) -> (r: Option<&String>)
        ensures
            match r {
                Some(t) => self.target == Some(*t),
                None => self.target is None,
            },
    {
        self.target.as_ref()
    }

    /// The path of keys that leads to the table, such as
    /// `["target", "cfg(unix)", "dev-dependencies"]`.
    pub fn to_table(&self) -> (r: Vec<String>)
        ensures
            texts(r@) == self.path_spec(),
    {
        let mut path: Vec<String> = Vec::new();
        match &self.target {
            Some(t) => {
                path.push("target".to_string());
                path.push(t.clone());
            },
            None => {},
        }
        path.push(self.kind_table_name().to_string());
        proof {
            assert(texts(path@) =~= self.path_spec());
        }
        path
    }
}

/// Where a dependency comes from.
pub enum Source {
    Registry { registry: Option<String> },
    Path,
    Git,
    Workspace,
}

/// One entry of a dependency table.
pub struct Dependency {
    /// The key under which the entry stands.
    pub toml_key: String,
    /// The real package name, where the entry renames it.
    pub package: Option<String>,
    pub source: Source,
    /// The version requirement; only registry sources have one.
    pub version: Option<String>,
    pub optional: bool,
}

impl Dependency {
    pub open spec fn well_formed(&self) -> bool {
        self.version is Some ==> self.source is Registry
    }

    /// The package name: the renamed one where there is one, else the key.
    pub open spec fn name_spec(&self) -> Seq<char> {
        match self.package {
            Some(p) => p@,
            None => self.toml_key@,
        }
    }

    /// The package name.
    pub fn name(&self) -> (r: &String)
        ensures
            r@ == self.name_spec(),
    {
        match &self.package {
            Some(p) => p,
            None => &self.toml_key,
        }
    }
}

/// A dependency table: its path of keys and its entries in file order.
pub struct Table {
    pub path: Vec<String>,
    pub deps: Vec<Dependency>,
}

/// A feature and the activations it lists, in file order.
pub struct Feature {
    pub name: String,
    pub activations: Vec<String>,
}

/// The dependency tables and the feature table of a manifest.
pub struct Manifest {
    pub tables: Vec<Table>,
    pub features: Vec<Feature>,
}

/// Why a dependency could not be removed.
#[derive(PartialEq, Eq, Debug)]
pub enum RemoveError {
    /// No table stands at the path.
    TableNotFound(Vec<String>),
    /// The table holds no entry of that name.
    DependencyNotFound(String),
}

impl Manifest {
    pub open spec fn well_formed(&self) -> bool {
        forall|t: int, i: int|
            0 <= t < self.tables@.len() && 0 <= i < self.tables@[t].deps@.len()
                ==> (#[trigger] self.tables@[t].deps@[i]).well_formed()
    }
}

/// The entry is the named dependency: by its key or by its package name.
pub open spec fn entry_named(d: Dependency, name: Seq<char>) -> bool {
    d.toml_key@ == name || d.name_spec() == name
}

/// A dependency table as the removal reads it: its path and its entries.
pub type TableView = (Vec<String>, Seq<Dependency>);

/// A feature as the clean-up reads it: its name and its activations.
pub type FeatureView = (Seq<char>, Seq<Seq<char>>);

pub open spec fn tables_view(tables: Seq<Table>) -> Seq<TableView> {
    tables.map_values(|t: Table| (t.path, t.deps@))
}

pub open spec fn features_view(features: Seq<Feature>) -> Seq<FeatureView> {
    features.map_values(|f: Feature| (f.name@, texts(f.activations@)))
}

/// Some table of the manifest has an entry under this key.
pub open spec fn declared(tables: Seq<TableView>, name: Seq<char>) -> bool {
    exists|t: int, i: int|
        0 <= t < tables.len() && 0 <= i < tables[t].1.len() && (#[trigger] tables[t].1[i]).toml_key@
            == name
}

/// Index of the first table at this path.
pub open spec fn is_first_table(tables: Seq<TableView>, path: Seq<Seq<char>>, t: int) -> bool {
    &&& 0 <= t < tables.len()
    &&& texts(tables[t].0@) == path
    &&& forall|u: int| 0 <= u < t ==> texts((#[trigger] tables[u]).0@) != path
}

/// Some entry of the table stands under this key.
pub open spec fn has_key(deps: Seq<Dependency>, name: Seq<char>) -> bool {
    exists|j: int| 0 <= j < deps.len() && (#[trigger] deps[j]).toml_key@ == name
}

/// Index of the entry that a removal of `name` takes: the first entry under
/// that key, or, where no key matches, the first entry for that package.
pub open spec fn is_first_entry(deps: Seq<Dependency>, name: Seq<char>, i: int) -> bool {
    &&& 0 <= i < deps.len()
    &&& if has_key(deps, name) {
        &&& deps[i].toml_key@ == name
        &&& forall|j: int| 0 <= j < i ==> (#[trigger] deps[j]).toml_key@ != name
    } else {
        &&& deps[i].name_spec() == name
        &&& forall|j: int| 0 <= j < i ==> (#[trigger] deps[j]).name_spec() != name
    }
}

pub fn same_path(a: &Vec<String>, b: &Vec<String>) -> (r: bool)
    ensures
        r == (texts(a@) == texts(b@)),
{
    let n = a.len();
    if n != b.len() {
        proof {
            if texts(a@) == texts(b@) {
                assert(texts(a@).len() == texts(b@).len());
            }
        }
        return false;
    }
    let mut i: usize = 0;
    while i < n
        invariant
            n == a@.len(),
            n == b@.len(),
            i <= n,
            forall|j: int| 0 <= j < i ==> a@[j]@ == b@[j]@,
        decreases n - i,
    {
        if !same_text(a[i].as_str(), b[i].as_str()) {
            proof {
                assert(texts(a@)[i as int] != texts(b@)[i as int]);
            }
            return false;
        }
        i = i + 1;
    }
    assert(texts(a@) =~= texts(b@));
    true
}

fn find_table(tables: &Vec<Table>, path: &Vec<String>) -> (r: Option<usize>)
    ensures
        match r {
            Some(t) => is_first_table(tables_view(tables@), texts(path@), t as int),
            None => forall|u: int|
                0 <= u < tables@.len() ==> texts((#[trigger] tables@[u]).path@) != texts(path@),
        },
{
    let n = tables.len();
    let mut t: usize = 0;
    while t < n
        invariant
            n == tables@.len(),
            t <= n,
            forall|u: int| 0 <= u < t ==> texts((#[trigger] tables@[u]).path@) != texts(path@),
        decreases n - t,
    {
        if same_path(&tables[t].path, path) {
            proof {
                assert forall|u: int| 0 <= u < t implies texts(
                    (#[trigger] tables_view(tables@)[u]).0@,
                ) != texts(path@) by {
                    assert(tables_view(tables@)[u].0 == tables@[u].path);
                }
            }
            return Some(t);
        }
        t = t + 1;
    }
    None
}

fn find_entry(deps: &Vec<Dependency>, name: &str) -> (r: Option<usize>)
    ensures
        match r {
            Some(i) => is_first_entry(deps@, name@, i as int),
            None => forall|i: int| 0 <= i < deps@.len() ==> !entry_named(#[trigger] deps@[i], name@),
        },
{
    let n = deps.len();
    let mut i: usize = 0;
    while i < n
        invariant
            n == deps@.len(),
            i <= n,
            forall|j: int| 0 <= j < i ==> (#[trigger] deps@[j]).toml_key@ != name@,
        decreases n - i,
    {
        if same_text(deps[i].toml_key.as_str(), name) {
            assert(has_key(deps@, name@));
            return Some(i);
        }
        i = i + 1;
    }
    assert(!has_key(deps@, name@));
    let mut i: usize = 0;
    while i < n
        invariant
            n == deps@.len(),
            i <= n,
            !has_key(deps@, name@),
            forall|j: int| 0 <= j < i ==> (#[trigger] deps@[j]).name_spec() != name@,
        decreases n - i,
    {
        if same_text(deps[i].name().as_str(), name) {
            return Some(i);
        }
        i = i + 1;
    }
    proof {
        assert forall|j: int| 0 <= j < deps@.len() implies !entry_named(#[trigger] deps@[j], name@) by {
            if deps@[j].toml_key@ == name@ {
                assert(has_key(deps@, name@));
            }
        }
    }
    None
}

/// The first table at a path is unique.
pub proof fn lemma_first_table_unique(tables: Seq<TableView>, path: Seq<Seq<char>>, t: int, u: int)
    requires
        is_first_table(tables, path, t),
        is_first_table(tables, path, u),
    ensures
        t == u,
{
    if t < u {
        assert(texts(tables[t].0@) != path);
    } else if u < t {
        assert(texts(tables[u].0@) != path);
    }
}

/// The entry that a removal takes is unique.
pub proof fn lemma_first_entry_unique(deps: Seq<Dependency>, name: Seq<char>, i: int, j: int)
    requires
        is_first_entry(deps, name, i),
        is_first_entry(deps, name, j),
    ensures
        i == j,
{
    if i < j {
        assert(deps[i].toml_key@ != name || deps[i].name_spec() != name);
    } else if j < i {
        assert(deps[j].toml_key@ != name || deps[j].name_spec() != name);
    }
}

/// One removal: the entry keyed `name`, or failing that the first entry for
/// package `name`, leaves the first table at `path`. `Err(true)` where no
/// table stands at the path, `Err(false)` where that table has no such entry.
pub open spec fn removal_step(tables: Seq<TableView>, path: Seq<Seq<char>>, name: Seq<char>) -> Result<
    Seq<TableView>,
    bool,
> {
    if exists|t: int| is_first_table(tables, path, t) {
        let t = choose|t: int| is_first_table(tables, path, t);
        if exists|i: int| is_first_entry(tables[t].1, name, i) {
            let i = choose|i: int| is_first_entry(tables[t].1, name, i);
            Ok(tables.update(t, (tables[t].0, tables[t].1.remove(i))))
        } else {
            Err(false)
        }
    } else {
        Err(true)
    }
}

impl Manifest {
    /// Removes the dependency `name` from the first table at `table_path`,
    /// found by its key, or by its package name where no key matches. The
    /// other tables, the other entries and the features stay as they were.
    pub fn remove_from_table(&mut self, table_path: &Vec<String>, name: &str) -> (r: Result<
        (),
        RemoveError,
    >)
        requires
            old(self).well_formed(),
        ensures
            final(self).well_formed(),
            final(self).features == old(self).features,
            removal_step(tables_view(old(self).tables@), texts(table_path@), name@) == match r {
                Ok(()) => Ok(tables_view(final(self).tables@)),
                Err(RemoveError::TableNotFound(_)) => Err(true),
                Err(RemoveError::DependencyNotFound(_)) => Err(false),
            },
            r is Err ==> final(self).tables == old(self).tables,
            match r {
                Err(RemoveError::TableNotFound(p)) => p@ == table_path@,
                Err(RemoveError::DependencyNotFound(n)) => n@ == name@,
                Ok(()) => true,
            },
    {
        let ghost tv = tables_view(self.tables@);
        let ghost path = texts(table_path@);
        let t = match find_table(&self.tables, table_path) {
            Some(t) => t,
            None => {
                proof {
                    if exists|t: int| is_first_table(tv, path, t) {
                        let t = choose|t: int| is_first_table(tv, path, t);
                        assert(tv[t].0 == self.tables@[t].path);
                    }
                }
                return Err(RemoveError::TableNotFound(table_path.clone()));
            },
        };
        proof {
            let c = choose|u: int| is_first_table(tv, path, u);
            lemma_first_table_unique(tv, path, t as int, c);
            assert(tv[t as int].1 == self.tables@[t as int].deps@);
        }
        let i = match find_entry(&self.tables[t].deps, name) {
            Some(i) => i,
            None => {
                proof {
                    if exists|i: int| is_first_entry(tv[t as int].1, name@, i) {
                        let i = choose|i: int| is_first_entry(tv[t as int].1, name@, i);
                        assert(!entry_named(self.tables@[t as int].deps@[i], name@));
                        assert(entry_named(tv[t as int].1[i], name@));
                    }
                }
                return Err(RemoveError::DependencyNotFound(name.to_string()));
            },
        };
        proof {
            let c = choose|j: int| is_first_entry(tv[t as int].1, name@, j);
            lemma_first_entry_unique(tv[t as int].1, name@, i as int, c);
        }
        let ghost before = self.tables@;
        let mut table = self.tables.remove(t);
        table.deps.remove(i);
        self.tables.insert(t, table);
        proof {
            assert(tables_view(self.tables@) =~= tv.update(
                t as int,
                (tv[t as int].0, tv[t as int].1.remove(i as int)),
            ));
            assert forall|u: int, j: int|
                0 <= u < self.tables@.len() && 0 <= j < self.tables@[u].deps@.len()
                    implies (#[trigger] self.tables@[u].deps@[j]).well_formed() by {
                if u == t {
                    if j < i {
                        assert(self.tables@[u].deps@[j] == before[u].deps@[j]);
                    } else {
                        assert(self.tables@[u].deps@[j] == before[u].deps@[j + 1]);
                    }
                } else {
                    assert(self.tables@[u] == before[u]);
                }
            }
        }
        Ok(())
    }
}

/// The activation names the dependency: `name`, `dep:name`, `name/feature`
/// or the weak `name?/feature`.
pub open spec fn refers_to(a: Seq<char>, name: Seq<char>) -> bool {
    let n = name.len();
    ||| a == name
    ||| (a.len() == n + 4 && a[0] == 'd' && a[1] == 'e' && a[2] == 'p' && a[3] == ':' && a.skip(4)
        == name)
    ||| (a.len() > n && a.take(n as int) == name && a[n as int] == '/')
    ||| (a.len() > n + 1 && a.take(n as int) == name && a[n as int] == '?' && a[(n + 1) as int] == '/')
}

/// The activations that do not name the dependency, in their order.
pub open spec fn kept(activations: Seq<Seq<char>>, name: Seq<char>) -> Seq<Seq<char>> {
    activations.filter(|a: Seq<char>| !refers_to(a, name))
}

/// What clean-up for `name` leaves of every feature.
pub open spec fn gc_features(
    features: Seq<FeatureView>,
    tables: Seq<TableView>,
    name: Seq<char>,
) -> Seq<FeatureView> {
    features.map_values(|f: FeatureView| (f.0, gc_activations(f.1, tables, name)))
}

/// What clean-up leaves of one feature's activations: all of them where the
/// dependency is still declared, else those that do not name it.
pub open spec fn gc_activations(
    activations: Seq<Seq<char>>,
    tables: Seq<TableView>,
    name: Seq<char>,
) -> Seq<Seq<char>> {
    if declared(tables, name) {
        activations
    } else {
        kept(activations, name)
    }
}

/// `name` occurs in `a` from `off` on.
fn occurs_at(a: &str, name: &str, off: usize) -> (r: bool)
    requires
        off <= a@.len(),
    ensures
        r == (off + name@.len() <= a@.len() && a@.subrange(off as int, off + name@.len())
            == name@),
{
    let n = name.unicode_len();
    let len = a.unicode_len();
    if len - off < n {
        return false;
    }
    let mut i: usize = 0;
    while i < n
        invariant
            n == name@.len(),
            len == a@.len(),
            off + n <= len,
            i <= n,
            forall|j: int| 0 <= j < i ==> a@[off + j] == name@[j],
        decreases n - i,
    {
        if a.get_char(off + i) != name.get_char(i) {
            proof {
                assert(a@.subrange(off as int, off + n)[i as int] != name@[i as int]);
            }
            return false;
        }
        i = i + 1;
    }
    assert(a@.subrange(off as int, off + n) =~= name@);
    true
}

/// Whether the activation names the dependency.
pub fn activation_refers_to(a: &str, name: &str) -> (r: bool)
    ensures
        r == refers_to(a@, name@),
{
    let n = name.unicode_len();
    let len = a.unicode_len();
    proof {
        assert(a@.skip(0) =~= a@);
        assert(a@.subrange(0, a@.len() as int) =~= a@);
    }
    if same_text(a, name) {
        return true;
    }
    if len >= 4 && len - 4 == n && a.get_char(0) == 'd' && a.get_char(1) == 'e' && a.get_char(2)
        == 'p' && a.get_char(3) == ':' && occurs_at(a, name, 4) {
        assert(a@.skip(4) =~= a@.subrange(4, 4 + n));
        return true;
    }
    if len > n && occurs_at(a, name, 0) {
        assert(a@.take(n as int) =~= a@.subrange(0, n as int));
        if a.get_char(n) == '/' {
            return true;
        }
        if len > n + 1 && a.get_char(n) == '?' && a.get_char(n + 1) == '/' {
            return true;
        }
    }
    proof {
        if len >= 4 && len - 4 == n && a@.skip(4) == name@ {
            assert(a@.subrange(4, 4 + n) =~= a@.skip(4));
        }
        if len > n && a@.take(n as int) == name@ {
            assert(a@.take(n as int) =~= a@.subrange(0, n as int));
        }
    }
    false
}

fn keep_activations(activations: &Vec<String>, name: &str) -> (r: Vec<String>)
    ensures
        texts(r@) == kept(texts(activations@), name@),
{
    let mut out: Vec<String> = Vec::new();
    let n = activations.len();
    let mut i: usize = 0;
    assert(texts(activations@).take(0) =~= Seq::<Seq<char>>::empty());
    proof {
        reveal(Seq::filter);
        assert(texts(out@) =~= kept(texts(activations@).take(0), name@));
    }
    while i < n
        invariant
            n == activations@.len(),
            i <= n,
            texts(out@) == kept(texts(activations@).take(i as int), name@),
        decreases n - i,
    {
        let ghost prefix = texts(activations@).take(i + 1);
        proof {
            reveal(Seq::filter);
            assert(prefix.drop_last() =~= texts(activations@).take(i as int));
            assert(prefix.last() == activations@[i as int]@);
        }
        if !activation_refers_to(activations[i].as_str(), name) {
            out.push(activations[i].clone());
            assert(texts(out@) =~= kept(texts(activations@).take(i as int), name@).push(
                activations@[i as int]@,
            ));
        }
        i = i + 1;
    }
    assert(texts(activations@).take(n as int) =~= texts(activations@));
    out
}

fn is_declared(tables: &Vec<Table>, name: &str) -> (r: bool)
    ensures
        r == declared(tables_view(tables@), name@),
{
    let n = tables.len();
    let mut t: usize = 0;
    while t < n
        invariant
            n == tables@.len(),
            t <= n,
            forall|u: int, i: int|
                0 <= u < t && 0 <= i < tables@[u].deps@.len() ==> (#[trigger] tables@[u].deps@[i]).toml_key@
                    != name@,
        decreases n - t,
    {
        let deps = &tables[t].deps;
        let m = deps.len();
        let mut i: usize = 0;
        while i < m
            invariant
                n == tables@.len(),
                t < n,
                deps == tables@[t as int].deps,
                m == deps@.len(),
                i <= m,
                forall|u: int, j: int|
                    0 <= u < t && 0 <= j < tables@[u].deps@.len() ==> (#[trigger] tables@[u].deps@[j]).toml_key@
                        != name@,
                forall|j: int| 0 <= j < i ==> (#[trigger] deps@[j]).toml_key@ != name@,
            decreases m - i,
        {
            if same_text(deps[i].toml_key.as_str(), name) {
                assert(tables_view(tables@)[t as int].1[i as int].toml_key@ == name@);
                return true;
            }
            i = i + 1;
        }
        t = t + 1;
    }
    proof {
        if declared(tables_view(tables@), name@) {
            let (u, i) = choose|u: int, i: int|
                0 <= u < tables_view(tables@).len() && 0 <= i < tables_view(tables@)[u].1.len()
                    && (#[trigger] tables_view(tables@)[u].1[i]).toml_key@ == name@;
            assert(tables_view(tables@)[u].1 == tables@[u].deps@);
            assert(tables@[u].deps@[i].toml_key@ == name@);
        }
    }
    false
}

impl Manifest {
    /// Drops the feature activations that name `name` once no dependency
    /// table declares it any more. Features whose lists become empty stay,
    /// with an empty list. Only the `[features]` table is scanned: a
    /// dependency's own `features` list names features of that dependency,
    /// never another dependency.
    pub fn gc_dep(&mut self, name: &str)
        ensures
            final(self).tables == old(self).tables,
            features_view(final(self).features@) == gc_features(
                features_view(old(self).features@),
                tables_view(old(self).tables@),
                name@,
            ),
    {
        let ghost tv = tables_view(self.tables@);
        if is_declared(&self.tables, name) {
            assert(features_view(self.features@) =~= gc_features(
                features_view(self.features@),
                tv,
                name@,
            ));
            return;
        }
        let mut features: Vec<Feature> = Vec::new();
        let n = self.features.len();
        let mut f: usize = 0;
        while f < n
            invariant
                n == self.features@.len(),
                f <= n,
                features@.len() == f,
                !declared(tables_view(self.tables@), name@),
                forall|g: int|
                    0 <= g < f ==> {
                        &&& (#[trigger] features@[g]).name@ == self.features@[g].name@
                        &&& texts(features@[g].activations@) == kept(
                            texts(self.features@[g].activations@),
                            name@,
                        )
                    },
            decreases n - f,
        {
            let activations = keep_activations(&self.features[f].activations, name);
            features.push(Feature { name: self.features[f].name.clone(), activations });
            f = f + 1;
        }
        assert(features_view(features@) =~= gc_features(features_view(self.features@), tv, name@));
        self.features = features;
    }
}

/// Clean-up leaves no activation that names a dependency that no table declares.
pub proof fn lemma_gc_drops_references(
    activations: Seq<Seq<char>>,
    tables: Seq<TableView>,
    name: Seq<char>,
)
    requires
        !declared(tables, name),
    ensures
        forall|i: int|
            0 <= i < gc_activations(activations, tables, name).len() ==> !refers_to(
                #[trigger] gc_activations(activations, tables, name)[i],
                name,
            ),
{
    broadcast use vstd::seq_lib::group_filter_ensures;
}

/// Clean-up for a dependency that no activation names leaves the list as it is.
pub proof fn lemma_gc_keeps_unreferenced(
    activations: Seq<Seq<char>>,
    tables: Seq<TableView>,
    name: Seq<char>,
)
    requires
        forall|i: int| 0 <= i < activations.len() ==> !refers_to(#[trigger] activations[i], name),
    ensures
        gc_activations(activations, tables, name) == activations,
    decreases activations.len(),
{
    if !declared(tables, name) && activations.len() > 0 {
        lemma_gc_keeps_unreferenced(activations.drop_last(), tables, name);
        reveal(Seq::filter);
        assert(activations.drop_last().push(activations.last()) =~= activations);
    } else {
        reveal(Seq::filter);
    }
}

/// Running clean-up twice for the same dependency ends where running it once does.
pub proof fn lemma_gc_idempotent(
    activations: Seq<Seq<char>>,
    tables: Seq<TableView>,
    name: Seq<char>,
)
    ensures
        gc_activations(gc_activations(activations, tables, name), tables, name)
            == gc_activations(activations, tables, name),
{
    if !declared(tables, name) {
        lemma_gc_drops_references(activations, tables, name);
        lemma_gc_keeps_unreferenced(gc_activations(activations, tables, name), tables, name);
    }
}

/// What to remove, and from which table.
pub struct RemoveOptions {
    /// Dependencies to remove, in order.
    pub dependencies: Vec<String>,
    /// The table to remove them from.
    pub section: DepTable,
    /// Whether the manifest is left unwritten.
    pub dry_run: bool,
}

/// A command of the remove tool.
pub enum Command {
    Rm(RemoveOptions),
}

/// How a run of removals ended: `None` where every name was removed,
/// `Some((true, _))` where no table stands at the path, `Some((false, n))`
/// where the table has no entry `n`.
pub type RemoveOutcome = Option<(bool, Seq<char>)>;

pub open spec fn outcome_of(r: Result<(), RemoveError>) -> RemoveOutcome {
    match r {
        Ok(()) => None,
        Err(RemoveError::TableNotFound(_)) => Some((true, Seq::empty())),
        Err(RemoveError::DependencyNotFound(n)) => Some((false, n@)),
    }
}

/// Removing the names in order from the first table at `path`, each removal
/// followed by the clean-up for its name; the first failed removal still
/// gets its clean-up, and ends the run.
pub open spec fn remove_fold(
    tables: Seq<TableView>,
    features: Seq<FeatureView>,
    path: Seq<Seq<char>>,
    names: Seq<Seq<char>>,
) -> (Seq<TableView>, Seq<FeatureView>, RemoveOutcome)
    decreases names.len(),
{
    if names.len() == 0 {
        (tables, features, None)
    } else {
        let name = names[0];
        match removal_step(tables, path, name) {
            Ok(after) => remove_fold(
                after,
                gc_features(features, after, name),
                path,
                names.drop_first(),
            ),
            Err(no_table) => (
                tables,
                gc_features(features, tables, name),
                Some(
                    (
                        no_table,
                        if no_table {
                            Seq::empty()
                        } else {
                            name
                        },
                    ),
                ),
            ),
        }
    }
}

/// Removes each named dependency from the selected table, in order, running
/// the feature clean-up for each name whether or not its removal succeeded.
/// Stops at the first name that cannot be removed and returns its error.
pub fn remove(manifest: &mut Manifest, options: &RemoveOptions) -> (r: Result<(), RemoveError>)
    requires
        old(manifest).well_formed(),
    ensures
        final(manifest).well_formed(),
        remove_fold(
            tables_view(old(manifest).tables@),
            features_view(old(manifest).features@),
            options.section.path_spec(),
            texts(options.dependencies@),
        ) == (tables_view(final(manifest).tables@), features_view(final(manifest).features@), outcome_of(r)),
        match r {
            Err(RemoveError::TableNotFound(p)) => texts(p@) == options.section.path_spec(),
            _ => true,
        },
{
    let path = options.section.to_table();
    let ghost names = texts(options.dependencies@);
    let ghost spath = options.section.path_spec();
    let ghost goal = remove_fold(
        tables_view(manifest.tables@),
        features_view(manifest.features@),
        spath,
        names,
    );
    let n = options.dependencies.len();
    let mut k: usize = 0;
    assert(names.skip(0) =~= names);
    while k < n
        invariant
            n == options.dependencies@.len(),
            names == texts(options.dependencies@),
            spath == options.section.path_spec(),
            k <= n,
            texts(path@) == spath,
            manifest.well_formed(),
            goal == remove_fold(
                tables_view(old(manifest).tables@),
                features_view(old(manifest).features@),
                spath,
                names,
            ),
            goal == remove_fold(
                tables_view(manifest.tables@),
                features_view(manifest.features@),
                spath,
                names.skip(k as int),
            ),
        decreases n - k,
    {
        let ghost tv = tables_view(manifest.tables@);
        let ghost fv = features_view(manifest.features@);
        proof {
            assert(names.skip(k as int)[0] == options.dependencies@[k as int]@);
            assert(names.skip(k as int).drop_first() =~= names.skip(k + 1));
        }
        let result = manifest.remove_from_table(&path, options.dependencies[k].as_str());
        manifest.gc_dep(options.dependencies[k].as_str());
        match result {
            Ok(()) => {},
            Err(e) => {
                proof {
                    let name = options.dependencies@[k as int]@;
                    assert(tables_view(manifest.tables@) == tv);
                    if e is TableNotFound {
                        assert(removal_step(tv, spath, name) == Err::<Seq<TableView>, bool>(true));
                    } else {
                        assert(removal_step(tv, spath, name) == Err::<Seq<TableView>, bool>(false));
                    }
                    assert(goal == (tv, gc_features(fv, tv, name), outcome_of(Err(e))));
                }
                return Err(e);
            },
        }
        k = k + 1;
    }
    assert(names.skip(n as int).len() == 0);
    Ok(())
}

/// Removing no names changes nothing and succeeds.
pub proof fn lemma_remove_nothing(
    tables: Seq<TableView>,
    features: Seq<FeatureView>,
    path: Seq<Seq<char>>,
)
    ensures
        remove_fold(tables, features, path, Seq::empty()) == (tables, features, None::<(bool, Seq<char>)>),
{
}

/// Once a removed name is declared nowhere, no feature activation names it
/// any more; the features otherwise keep their names and order.
pub proof fn lemma_remove_drops_references(
    tables: Seq<TableView>,
    features: Seq<FeatureView>,
    path: Seq<Seq<char>>,
    name: Seq<char>,
)
    requires
        removal_step(tables, path, name) is Ok,
        !declared(removal_step(tables, path, name)->Ok_0, name),
    ensures
        ({
            let (after, fs, outcome) = remove_fold(tables, features, path, seq![name]);
            &&& outcome is None
            &&& after == removal_step(tables, path, name)->Ok_0
            &&& fs.len() == features.len()
            &&& forall|f: int|
                0 <= f < fs.len() ==> (#[trigger] fs[f]).0 == features[f].0 && forall|i: int|
                    0 <= i < fs[f].1.len() ==> !refers_to(#[trigger] fs[f].1[i], name)
        }),
{
    let after = removal_step(tables, path, name)->Ok_0;
    assert(seq![name].drop_first() =~= Seq::<Seq<char>>::empty());
    assert(seq![name].len() == 1 && seq![name][0] == name);
    assert(remove_fold(after, gc_features(features, after, name), path, Seq::empty()) == (
        after,
        gc_features(features, after, name),
        None::<(bool, Seq<char>)>,
    ));
    assert(remove_fold(tables, features, path, seq![name]) == (
        after,
        gc_features(features, after, name),
        None::<(bool, Seq<char>)>,
    ));
    assert forall|f: int| 0 <= f < features.len() implies forall|i: int|
        0 <= i < (#[trigger] gc_features(features, after, name)[f]).1.len() ==> !refers_to(
            #[trigger] gc_features(features, after, name)[f].1[i],
            name,
        ) by {
        lemma_gc_drops_references(features[f].1, after, name);
    }
}

} // verus!

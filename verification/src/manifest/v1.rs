//! Components as the first manifest schema declares them.

use vstd::prelude::*;

use crate::path;
use crate::sorted::SortedMap;
use crate::text;
use crate::version;
use crate::version::{Authority as CurrentAuthority, AuthorityFacts, GitTarget, GitTargetFacts, Version};

verus! {

/// The versioning authority of a component, with the crate it names.
#[derive(Debug)]
pub enum Authority {
    Cargo { package: Option<String>, version: Version },
    Git { repository_url: String, crate_name: String, subpath: Option<String>, target: GitTarget },
    /// The modification time is in nanoseconds since the Unix epoch.
    Path { path: String, crate_name: String, last_modification: Option<i128> },
}

/// What an [`Authority`] holds.
#[verifier::ext_equal]
pub enum V1AuthorityFacts {
    Cargo { package: Option<Seq<char>>, version: Seq<char> },
    Git {
        repository_url: Seq<char>,
        crate_name: Seq<char>,
        subpath: Option<Seq<char>>,
        target: GitTargetFacts,
    },
    Path { path: Seq<char>, crate_name: Seq<char>, last_modification: Option<i128> },
}

impl DeepView for Authority {
    type V = V1AuthorityFacts;

    open spec fn deep_view(&self) -> V1AuthorityFacts {
        match self {
            Authority::Cargo { package, version } => V1AuthorityFacts::Cargo {
                package: package.deep_view(),
                version: version@,
            },
            Authority::Git { repository_url, crate_name, subpath, target } =>
                V1AuthorityFacts::Git {
                repository_url: repository_url@,
                crate_name: crate_name@,
                subpath: subpath.deep_view(),
                target: target.deep_view(),
            },
            Authority::Path { path, crate_name, last_modification } => V1AuthorityFacts::Path {
                path: path@,
                crate_name: crate_name@,
                last_modification: *last_modification,
            },
        }
    }
}

/// Whether two authorities are the same. Paths are compared component by component.
pub open spec fn authorities_alike(a: V1AuthorityFacts, b: V1AuthorityFacts) -> bool {
    match (a, b) {
        (
            V1AuthorityFacts::Path { path: p, crate_name: c, last_modification: x },
            V1AuthorityFacts::Path { path: q, crate_name: d, last_modification: y },
        ) => path::same_place(p, q) && c == d && x == y,
        _ => a == b,
    }
}

impl PartialEq for Authority {
    fn eq(&self, other: &Self) -> (r: bool) {
        match (self, other) {
            (
                Authority::Cargo { package: p, version: x },
                Authority::Cargo { package: q, version: y },
            ) => text::same_option(p, q) && x.same(y),
            (
                Authority::Git { repository_url: u, crate_name: c, subpath: s, target: x },
                Authority::Git { repository_url: v, crate_name: d, subpath: t, target: y },
            ) => *u == *v && *c == *d && text::same_option(s, t) && x.same(y),
            (
                Authority::Path { path: p, crate_name: c, last_modification: x },
                Authority::Path { path: q, crate_name: d, last_modification: y },
            ) => path::same(p.as_str(), q.as_str()) && *c == *d && version::same_time(x, y),
            _ => false,
        }
    }
}

impl vstd::std_specs::cmp::PartialEqSpecImpl for Authority {
    open spec fn obeys_eq_spec() -> bool {
        true
    }

    open spec fn eq_spec(&self, other: &Self) -> bool {
        authorities_alike(self.deep_view(), other.deep_view())
    }
}

impl Eq for Authority {

}

impl core::hash::Hash for Authority {
    /// Adds nothing: paths that are equal may be spelled in several ways.
    fn hash<H: core::hash::Hasher>(&self, _state: &mut H) {
    }
}

impl Clone for Authority {
    fn clone(&self) -> (r: Self)
        ensures
            r.deep_view() == self.deep_view(),
    {
        match self {
            Authority::Cargo { package, version } => Authority::Cargo {
                package: package.clone(),
                version: version.clone(),
            },
            Authority::Git { repository_url, crate_name, subpath, target } => Authority::Git {
                repository_url: repository_url.clone(),
                crate_name: crate_name.clone(),
                subpath: subpath.clone(),
                target: target.clone(),
            },
            Authority::Path { path, crate_name, last_modification } => Authority::Path {
                path: path.clone(),
                crate_name: crate_name.clone(),
                last_modification: *last_modification,
            },
        }
    }
}

/// The crate that an authority names.
pub open spec fn named_crate(version: V1AuthorityFacts) -> Option<Seq<char>> {
    match version {
        V1AuthorityFacts::Cargo { package, .. } => package,
        V1AuthorityFacts::Git { crate_name, .. } => Some(crate_name),
        V1AuthorityFacts::Path { crate_name, .. } => Some(crate_name),
    }
}

/// An authority in the current schema, which leaves the crate to the installation method.
pub open spec fn current_authority(version: V1AuthorityFacts) -> AuthorityFacts {
    match version {
        V1AuthorityFacts::Cargo { version, .. } => AuthorityFacts::Registry { version },
        V1AuthorityFacts::Git { repository_url, subpath, target, .. } => AuthorityFacts::Git {
            repository_url,
            subpath,
            target,
        },
        V1AuthorityFacts::Path { path, last_modification, .. } => AuthorityFacts::Path {
            path,
            last_modification,
        },
    }
}

impl Authority {
    /// The crate that the authority names.
    pub fn crate_name(&self) -> (r: Option<String>)
        ensures
            r.deep_view() == named_crate(self.deep_view()),
    {
        match self {
            Authority::Cargo { package, .. } => package.clone(),
            Authority::Git { crate_name, .. } => Some(crate_name.clone()),
            Authority::Path { crate_name, .. } => Some(crate_name.clone()),
        }
    }

    /// The authority in the current schema.
    pub fn into_current(self) -> (r: CurrentAuthority)
        ensures
            r.deep_view() == current_authority(self.deep_view()),
    {
        match self {
            Authority::Cargo { version, .. } => CurrentAuthority::Registry { version },
            Authority::Git { repository_url, subpath, target, .. } => CurrentAuthority::Git {
                repository_url,
                subpath,
                target,
            },
            Authority::Path { path, last_modification, .. } => CurrentAuthority::Path {
                path,
                last_modification,
            },
        }
    }
}

/// The URIs of the prebuilt files.
#[derive(Debug, PartialEq, Eq, Hash)]
pub struct Artifacts {
    pub artifacts: Vec<String>,
}

impl DeepView for Artifacts {
    type V = Seq<Seq<char>>;

    open spec fn deep_view(&self) -> Seq<Seq<char>> {
        self.artifacts.deep_view()
    }
}

impl Default for Artifacts {
    fn default() -> (r: Self)
        ensures
            r.deep_view() == Seq::<Seq<char>>::empty(),
    {
        let r = Artifacts { artifacts: Vec::new() };
        assert(r.deep_view() =~= Seq::<Seq<char>>::empty());
        r
    }
}

/// The file that a component installs.
#[derive(Debug, PartialEq, Eq, Hash)]
pub enum InstalledFile {
    Executable {
        binary_name: String,
        /// Not intended to be run on its own, only under aliases.
        alias_only: bool,
    },
    Library {
        library_name: String,
        /// The struct that yields the package.
        library_struct: String,
    },
}

/// What an [`InstalledFile`] holds.
#[verifier::ext_equal]
pub enum FileFacts {
    Executable { binary_name: Seq<char>, alias_only: bool },
    Library { library_name: Seq<char>, library_struct: Seq<char> },
}

impl DeepView for InstalledFile {
    type V = FileFacts;

    open spec fn deep_view(&self) -> FileFacts {
        match self {
            InstalledFile::Executable { binary_name, alias_only } => FileFacts::Executable {
                binary_name: binary_name@,
                alias_only: *alias_only,
            },
            InstalledFile::Library { library_name, library_struct } => FileFacts::Library {
                library_name: library_name@,
                library_struct: library_struct@,
            },
        }
    }
}

impl Clone for InstalledFile {
    fn clone(&self) -> (r: Self)
        ensures
            r.deep_view() == self.deep_view(),
    {
        match self {
            InstalledFile::Executable { binary_name, alias_only } => InstalledFile::Executable {
                binary_name: binary_name.clone(),
                alias_only: *alias_only,
            },
            InstalledFile::Library { library_name, library_struct } => InstalledFile::Library {
                library_name: library_name.clone(),
                library_struct: library_struct.clone(),
            },
        }
    }
}

/// The name of an installed file.
pub open spec fn installed_name(file: FileFacts) -> Seq<char> {
    match file {
        FileFacts::Executable { binary_name, .. } => binary_name,
        FileFacts::Library { library_name, .. } => library_name,
    }
}

/// Where a toolchain keeps an installed file.
pub open spec fn installed_path(file: FileFacts, toolchain_dir: Seq<char>) -> Seq<char> {
    let dir = match file {
        FileFacts::Executable { .. } => "bin"@,
        FileFacts::Library { .. } => "lib"@,
    };
    path::below(path::below(toolchain_dir, dir), installed_name(file))
}

impl InstalledFile {
    /// The struct that yields the package, for a library.
    pub fn get_library_struct(&self) -> (r: Option<&str>)
        ensures
            r.deep_view() == match self.deep_view() {
                FileFacts::Executable { .. } => None,
                FileFacts::Library { library_struct, .. } => Some(library_struct),
            },
    {
        match self {
            InstalledFile::Executable { .. } => None,
            InstalledFile::Library { library_struct, .. } => Some(library_struct.as_str()),
        }
    }

    /// Where the toolchain at `toolchain_dir` keeps the file.
    pub fn get_path_from(&self, toolchain_dir: &str) -> (r: String)
        ensures
            r@ == installed_path(self.deep_view(), toolchain_dir@),
    {
        let dir = match self {
            InstalledFile::Executable { .. } => path::join(toolchain_dir, "bin"),
            InstalledFile::Library { .. } => path::join(toolchain_dir, "lib"),
        };
        path::join(dir.as_str(), self.to_string().as_str())
    }

    /// The name of the file.
    pub fn to_string(&self) -> (r: String)
        ensures
            r@ == installed_name(self.deep_view()),
    {
        match self {
            InstalledFile::Executable { binary_name, .. } => binary_name.clone(),
            InstalledFile::Library { library_name, .. } => library_name.clone(),
        }
    }

    /// Whether two files are the same.
    fn same(&self, other: &InstalledFile) -> (r: bool)
        ensures
            r == (self.deep_view() == other.deep_view()),
    {
        match (self, other) {
            (
                InstalledFile::Executable { binary_name: a, alias_only: x },
                InstalledFile::Executable { binary_name: b, alias_only: y },
            ) => *a == *b && *x == *y,
            (
                InstalledFile::Library { library_name: a, library_struct: x },
                InstalledFile::Library { library_name: b, library_struct: y },
            ) => *a == *b && *x == *y,
            _ => false,
        }
    }
}

/// One word of a command line.
#[derive(Debug, PartialEq, Eq, Hash)]
pub enum CliCommand {
    /// The component's executable.
    Executable,
    /// The toolchain's library directory.
    LibPath,
    /// The toolchain's directory for mutable data.
    VarPath,
    /// An argument that is passed as it is.
    Verbatim(String),
}

/// What a [`CliCommand`] holds.
#[verifier::ext_equal]
pub enum WordFacts {
    Executable,
    LibPath,
    VarPath,
    Verbatim(Seq<char>),
}

impl DeepView for CliCommand {
    type V = WordFacts;

    open spec fn deep_view(&self) -> WordFacts {
        match self {
            CliCommand::Executable => WordFacts::Executable,
            CliCommand::LibPath => WordFacts::LibPath,
            CliCommand::VarPath => WordFacts::VarPath,
            CliCommand::Verbatim(word) => WordFacts::Verbatim(word@),
        }
    }
}

impl Clone for CliCommand {
    fn clone(&self) -> (r: Self)
        ensures
            r.deep_view() == self.deep_view(),
    {
        match self {
            CliCommand::Executable => CliCommand::Executable,
            CliCommand::LibPath => CliCommand::LibPath,
            CliCommand::VarPath => CliCommand::VarPath,
            CliCommand::Verbatim(word) => CliCommand::Verbatim(word.clone()),
        }
    }
}

impl CliCommand {
    /// Whether two words are the same.
    fn same(&self, other: &CliCommand) -> (r: bool)
        ensures
            r == (self.deep_view() == other.deep_view()),
    {
        match (self, other) {
            (CliCommand::Executable, CliCommand::Executable) => true,
            (CliCommand::LibPath, CliCommand::LibPath) => true,
            (CliCommand::VarPath, CliCommand::VarPath) => true,
            (CliCommand::Verbatim(a), CliCommand::Verbatim(b)) => *a == *b,
            _ => false,
        }
    }

    /// The word as it is shown.
    pub fn to_string(&self) -> (r: String)
        ensures
            r@ == match self.deep_view() {
                WordFacts::Executable => "executable"@,
                WordFacts::LibPath => "lib_path"@,
                WordFacts::VarPath => "var_path"@,
                WordFacts::Verbatim(word) => "verbatim: "@ + word,
            },
    {
        match self {
            CliCommand::Executable => "executable".to_owned(),
            CliCommand::LibPath => "lib_path".to_owned(),
            CliCommand::VarPath => "var_path".to_owned(),
            CliCommand::Verbatim(word) => {
                let mut r = "verbatim: ".to_owned();
                r.append(word.as_str());
                r
            },
        }
    }
}

/// An installable component of a toolchain. Two are equal where their names are: equality tells which
/// components were added or removed, not whether one changed.
#[derive(Debug, Hash)]
pub struct Component {
    pub name: String,
    pub version: Authority,
    /// Not required for a minimal toolchain.
    pub optional: bool,
    pub features: Vec<String>,
    pub requires: Vec<String>,
    pub call_format: Vec<CliCommand>,
    /// The Rust toolchain that the component needs to compile.
    pub rustup_channel: Option<String>,
    /// Absent where the component installs an executable named like its crate.
    pub installed_file: Option<InstalledFile>,
    pub aliases: SortedMap<Vec<CliCommand>>,
    pub symlink_name: Option<String>,
    pub initialization: Vec<String>,
    pub artifacts: Artifacts,
}

/// What a [`Component`] holds.
#[verifier::ext_equal]
pub struct V1Facts {
    pub name: Seq<char>,
    pub version: V1AuthorityFacts,
    pub optional: bool,
    pub features: Seq<Seq<char>>,
    pub requires: Seq<Seq<char>>,
    pub call_format: Seq<WordFacts>,
    pub rustup_channel: Option<Seq<char>>,
    pub installed_file: Option<FileFacts>,
    pub aliases: Seq<(Seq<char>, Seq<WordFacts>)>,
    pub symlink_name: Option<Seq<char>>,
    pub initialization: Seq<Seq<char>>,
    pub artifacts: Seq<Seq<char>>,
}

impl DeepView for Component {
    type V = V1Facts;

    open spec fn deep_view(&self) -> V1Facts {
        V1Facts {
            name: self.name@,
            version: self.version.deep_view(),
            optional: self.optional,
            features: self.features.deep_view(),
            requires: self.requires.deep_view(),
            call_format: self.call_format.deep_view(),
            rustup_channel: self.rustup_channel.deep_view(),
            installed_file: self.installed_file.deep_view(),
            aliases: self.aliases.deep_view(),
            symlink_name: self.symlink_name.deep_view(),
            initialization: self.initialization.deep_view(),
            artifacts: self.artifacts.deep_view(),
        }
    }
}

impl PartialEq for Component {
    fn eq(&self, other: &Self) -> (r: bool) {
        self.name == other.name
    }
}

impl vstd::std_specs::cmp::PartialEqSpecImpl for Component {
    open spec fn obeys_eq_spec() -> bool {
        true
    }

    open spec fn eq_spec(&self, other: &Self) -> bool {
        self.name@ == other.name@
    }
}

fn copy_words(words: &Vec<CliCommand>) -> (r: Vec<CliCommand>)
    ensures
        r.deep_view() == words.deep_view(),
{
    let r = words.clone();
    assert(r.deep_view() =~= words.deep_view()) by {
        assert forall|i: int| 0 <= i < r@.len() implies r.deep_view()[i] == words.deep_view()[i] by {
            assert(cloned(words@[i], r@[i]));
        }
    }
    r
}

fn copy_aliases(aliases: &SortedMap<Vec<CliCommand>>) -> (r: SortedMap<Vec<CliCommand>>)
    ensures
        r.deep_view() == aliases.deep_view(),
{
    let r = aliases.clone();
    proof {
        assert forall|i: int| 0 <= i < r@.len() implies r.deep_view()[i] == aliases.deep_view()[i] by {
            assert(r@[i].0 == aliases@[i].0);
            let (x, y) = (aliases@[i].1, r@[i].1);
            assert(cloned(x, y));
            assert(x.deep_view() =~= y.deep_view()) by {
                assert forall|k: int| 0 <= k < x@.len() implies x.deep_view()[k]
                    == y.deep_view()[k] by {
                    assert(cloned(x@[k], y@[k]));
                }
            }
        }
        assert(r.deep_view() =~= aliases.deep_view());
    }
    r
}

impl Clone for Component {
    fn clone(&self) -> (r: Self)
        ensures
            r.deep_view() == self.deep_view(),
    {
        Component {
            name: self.name.clone(),
            version: self.version.clone(),
            optional: self.optional,
            features: text::copy_all(&self.features),
            requires: text::copy_all(&self.requires),
            call_format: copy_words(&self.call_format),
            rustup_channel: self.rustup_channel.clone(),
            installed_file: self.installed_file.clone(),
            aliases: copy_aliases(&self.aliases),
            symlink_name: self.symlink_name.clone(),
            initialization: text::copy_all(&self.initialization),
            artifacts: Artifacts { artifacts: text::copy_all(&self.artifacts.artifacts) },
        }
    }
}

/// Whether an installed version is as good as the upstream one.
///
/// A branch is, where both revisions are known and the same; a path is, where both modification
/// times are known and upstream's is not later. Whatever is missing calls for an update. A revision,
/// a tag and a registry version do not move, so they only have to be the same.
pub open spec fn version_current(local: V1AuthorityFacts, upstream: V1AuthorityFacts) -> bool {
    match (local, upstream) {
        (
            V1AuthorityFacts::Git { repository_url: u, crate_name: c, subpath: s, target: t },
            V1AuthorityFacts::Git { repository_url: v, crate_name: d, subpath: r, target: w },
        ) => {
            &&& u == v
            &&& c == d
            &&& s == r
            &&& t == w
            &&& t is Branch ==> t->latest_revision is Some
        },
        (
            V1AuthorityFacts::Path { path: p, crate_name: c, last_modification: m },
            V1AuthorityFacts::Path { path: q, crate_name: d, last_modification: n },
        ) => path::same_place(p, q) && c == d && m is Some && n is Some && n->0 <= m->0,
        (
            V1AuthorityFacts::Cargo { package: p, version: v },
            V1AuthorityFacts::Cargo { package: q, version: w },
        ) => p == q && v == w,
        _ => false,
    }
}

/// Whether an installed component is up to date with its upstream equivalent: whether its version is
/// current and no other field besides the name differs.
pub open spec fn up_to_date(local: V1Facts, upstream: V1Facts) -> bool {
    &&& version_current(local.version, upstream.version)
    &&& local == (V1Facts { name: local.name, version: local.version, ..upstream })
}

/// The crate that a component is built from: the one it names, else one named like itself.
pub open spec fn crate_of(v: V1Facts) -> Seq<char> {
    match named_crate(v.version) {
        Some(name) => name,
        None => v.name,
    }
}

/// The file that a component installs: an executable named like its crate where none is declared.
pub open spec fn file_of(v: V1Facts) -> FileFacts {
    match v.installed_file {
        Some(file) => file,
        None => FileFacts::Executable { binary_name: crate_of(v), alias_only: false },
    }
}

fn same_words(a: &Vec<CliCommand>, b: &Vec<CliCommand>) -> (r: bool)
    ensures
        r == (a.deep_view() == b.deep_view()),
{
    let ghost (x, y) = (a.deep_view(), b.deep_view());
    if a.len() != b.len() {
        assert(x.len() != y.len());
        return false;
    }
    let mut i: usize = 0;
    while i < a.len()
        invariant
            i <= a@.len() == b@.len(),
            x == a.deep_view(),
            y == b.deep_view(),
            forall|k: int| 0 <= k < i ==> #[trigger] x[k] == y[k],
        decreases a.len() - i,
    {
        if !a[i].same(&b[i]) {
            assert(x[i as int] != y[i as int]);
            return false;
        }
        assert(x[i as int] == y[i as int]);
        i += 1;
    }
    assert(x =~= y);
    true
}

fn same_aliases(a: &SortedMap<Vec<CliCommand>>, b: &SortedMap<Vec<CliCommand>>) -> (r: bool)
    ensures
        r == (a.deep_view() == b.deep_view()),
{
    let n = a.len();
    let ghost (x, y) = (a.deep_view(), b.deep_view());
    if n != b.len() {
        assert(x.len() != y.len());
        return false;
    }
    let mut i: usize = 0;
    while i < n
        invariant
            i <= n == a@.len() == b@.len(),
            x == a.deep_view(),
            y == b.deep_view(),
            forall|k: int| 0 <= k < i ==> #[trigger] x[k] == y[k],
        decreases n - i,
    {
        if !text::same(a.key(i).as_str(), b.key(i).as_str()) || !same_words(
            a.value(i),
            b.value(i),
        ) {
            assert(x[i as int] != y[i as int]);
            return false;
        }
        assert(x[i as int] == y[i as int]);
        i += 1;
    }
    assert(x =~= y);
    true
}

/// What must be looked up to bring a component's version up to the present.
#[derive(Debug, PartialEq, Eq)]
pub enum SyncSource {
    /// Nothing: the version does not move.
    Fixed,
    /// The latest modification time below a directory.
    Directory(String),
    /// The latest revision of a branch.
    Branch { repository_url: String, name: String },
}

/// What a [`SyncSource`] holds.
pub enum SyncFacts {
    Fixed,
    Directory(Seq<char>),
    Branch { repository_url: Seq<char>, name: Seq<char> },
}

impl DeepView for SyncSource {
    type V = SyncFacts;

    open spec fn deep_view(&self) -> SyncFacts {
        match self {
            SyncSource::Fixed => SyncFacts::Fixed,
            SyncSource::Directory(path) => SyncFacts::Directory(path@),
            SyncSource::Branch { repository_url, name } => SyncFacts::Branch {
                repository_url: repository_url@,
                name: name@,
            },
        }
    }
}

/// An authority with what was looked up for it.
pub open spec fn synced(
    version: V1AuthorityFacts,
    modification: Option<i128>,
    revision: Option<Seq<char>>,
) -> V1AuthorityFacts {
    match version {
        V1AuthorityFacts::Path { path, crate_name, .. } => V1AuthorityFacts::Path {
            path,
            crate_name,
            last_modification: modification,
        },
        V1AuthorityFacts::Git { repository_url, crate_name, subpath, target } => match target {
            GitTargetFacts::Branch { name, .. } => V1AuthorityFacts::Git {
                repository_url,
                crate_name,
                subpath,
                target: GitTargetFacts::Branch { name, latest_revision: revision },
            },
            _ => version,
        },
        V1AuthorityFacts::Cargo { .. } => version,
    }
}

impl Component {
    /// A component that declares nothing but its name and its version.
    pub fn new(name: String, version: Authority) -> (r: Self)
        ensures
            r.deep_view() == (V1Facts {
                name: name@,
                version: version.deep_view(),
                optional: false,
                features: Seq::empty(),
                requires: Seq::empty(),
                call_format: Seq::empty(),
                rustup_channel: None,
                installed_file: None,
                aliases: Seq::empty(),
                symlink_name: None,
                initialization: Seq::empty(),
                artifacts: Seq::empty(),
            }),
    {
        let r = Component {
            name,
            version,
            optional: false,
            features: Vec::new(),
            requires: Vec::new(),
            call_format: Vec::new(),
            rustup_channel: None,
            installed_file: None,
            aliases: SortedMap::new(),
            symlink_name: None,
            initialization: Vec::new(),
            artifacts: Artifacts::default(),
        };
        proof {
            assert(r.features.deep_view() =~= Seq::empty());
            assert(r.requires.deep_view() =~= Seq::empty());
            assert(r.call_format.deep_view() =~= Seq::empty());
            assert(r.aliases.deep_view() =~= Seq::empty());
            assert(r.initialization.deep_view() =~= Seq::empty());
        }
        r
    }

    /// Whether the component is up to date with its upstream equivalent, in everything that is
    /// compared beside the name.
    pub fn is_up_to_date(&self, upstream: &Self) -> (r: bool)
        ensures
            r == up_to_date(self.deep_view(), upstream.deep_view()),
    {
        match (&self.version, &upstream.version) {
            (
                Authority::Git {
                    repository_url: url_a,
                    crate_name: crate_a,
                    subpath: subpath_a,
                    target: target_a,
                },
                Authority::Git {
                    repository_url: url_b,
                    crate_name: crate_b,
                    subpath: subpath_b,
                    target: target_b,
                },
            ) => {
                if *url_a != *url_b {
                    return false;
                }
                if *crate_a != *crate_b {
                    return false;
                }
                if !text::same_option(subpath_a, subpath_b) {
                    return false;
                }
                if !target_a.same(target_b) {
                    return false;
                }
                // A branch whose revision is unknown calls for an update regardless.
                if let GitTarget::Branch { latest_revision: None, .. } = target_a {
                    return false;
                }
            },
            (
                Authority::Path {
                    path: path_a,
                    crate_name: crate_a,
                    last_modification: modified_a,
                },
                Authority::Path {
                    path: path_b,
                    crate_name: crate_b,
                    last_modification: modified_b,
                },
            ) => {
                if !path::same(path_a.as_str(), path_b.as_str()) {
                    return false;
                }
                if *crate_a != *crate_b {
                    return false;
                }
                match (modified_a, modified_b) {
                    (Some(local), Some(latest)) => {
                        if *latest > *local {
                            return false;
                        }
                    },
                    _ => return false,
                }
            },
            (
                Authority::Cargo { package: package_a, version: version_a },
                Authority::Cargo { package: package_b, version: version_b },
            ) => {
                if !text::same_option(package_a, package_b) {
                    return false;
                }
                if !version_a.same(version_b) {
                    return false;
                }
            },
            // Authorities of different kinds.
            _ => return false,
        }
        if self.optional != upstream.optional {
            return false;
        }
        if !text::same_all(&self.features, &upstream.features) {
            return false;
        }
        if !text::same_all(&self.requires, &upstream.requires) {
            return false;
        }
        if !same_words(&self.call_format, &upstream.call_format) {
            return false;
        }
        if !text::same_option(&self.rustup_channel, &upstream.rustup_channel) {
            return false;
        }
        let same_file = match (&self.installed_file, &upstream.installed_file) {
            (Some(a), Some(b)) => a.same(b),
            (None, None) => true,
            _ => false,
        };
        if !same_file {
            return false;
        }
        if !same_aliases(&self.aliases, &upstream.aliases) {
            return false;
        }
        if !text::same_option(&self.symlink_name, &upstream.symlink_name) {
            return false;
        }
        if !text::same_all(&self.initialization, &upstream.initialization) {
            return false;
        }
        text::same_all(&self.artifacts.artifacts, &upstream.artifacts.artifacts)
    }

    /// The crate that the component is built from.
    pub fn crate_name(&self) -> (r: String)
        ensures
            r@ == crate_of(self.deep_view()),
    {
        match self.version.crate_name() {
            Some(name) => name,
            None => self.name.clone(),
        }
    }

    /// The file that the component installs: an executable named exactly like the crate where none is
    /// declared.
    pub fn get_installed_file(&self) -> (r: InstalledFile)
        ensures
            r.deep_view() == file_of(self.deep_view()),
    {
        match &self.installed_file {
            Some(file) => file.clone(),
            None => InstalledFile::Executable {
                binary_name: self.crate_name(),
                alias_only: false,
            },
        }
    }

    /// Declares the file that the component installs.
    pub fn set_installed_file(&mut self, installed_file: Option<InstalledFile>)
        ensures
            final(self).deep_view() == (V1Facts {
                installed_file: installed_file.deep_view(),
                ..old(self).deep_view()
            }),
    {
        self.installed_file = installed_file;
    }

    /// How the component is shown on the command line.
    pub fn get_cli_display(&self) -> (r: String)
        ensures
            r@ == "miden "@ + self.deep_view().name,
    {
        let mut r = "miden ".to_owned();
        r.append(self.name.as_str());
        r
    }

    /// The name of the component's shim.
    pub fn get_symlink_name(&self) -> (r: String)
        ensures
            r@ == match self.deep_view().symlink_name {
                Some(name) => name,
                None => "miden "@ + self.deep_view().name,
            },
    {
        match &self.symlink_name {
            Some(name) => name.clone(),
            None => self.get_cli_display(),
        }
    }

    /// The words that call the component: its executable where nothing else is declared.
    pub fn get_call_format(&self) -> (r: Vec<CliCommand>)
        ensures
            r.deep_view() == if self.deep_view().call_format.len() == 0 {
                seq![WordFacts::Executable]
            } else {
                self.deep_view().call_format
            },
    {
        if self.call_format.len() == 0 {
            let mut r: Vec<CliCommand> = Vec::new();
            r.push(CliCommand::Executable);
            assert(r.deep_view() =~= seq![WordFacts::Executable]);
            r
        } else {
            copy_words(&self.call_format)
        }
    }

    /// What must be looked up before [`Component::sync`]. A relative directory is taken from
    /// `working_directory`.
    pub fn sync_source(&self, working_directory: &str) -> (r: SyncSource)
        ensures
            r.deep_view() == match self.deep_view().version {
                V1AuthorityFacts::Path { path, .. } => SyncFacts::Directory(
                    path::below(working_directory@, path),
                ),
                V1AuthorityFacts::Git { repository_url, target, .. } => match target {
                    GitTargetFacts::Branch { name, .. } => SyncFacts::Branch {
                        repository_url,
                        name,
                    },
                    _ => SyncFacts::Fixed,
                },
                V1AuthorityFacts::Cargo { .. } => SyncFacts::Fixed,
            },
    {
        match &self.version {
            Authority::Path { path, .. } => SyncSource::Directory(
                path::join(working_directory, path.as_str()),
            ),
            Authority::Git { repository_url, target, .. } => match target {
                GitTarget::Branch { name, .. } => SyncSource::Branch {
                    repository_url: repository_url.clone(),
                    name: name.clone(),
                },
                _ => SyncSource::Fixed,
            },
            Authority::Cargo { .. } => SyncSource::Fixed,
        }
    }

    /// Records what was looked up: the latest modification of a directory, or the latest revision
    /// of a branch. What could not be found is left empty, which calls for an update.
    pub fn sync(&mut self, modification: Option<i128>, revision: Option<String>)
        ensures
            final(self).deep_view() == (V1Facts {
                version: synced(old(self).deep_view().version, modification, revision.deep_view()),
                ..old(self).deep_view()
            }),
    {
        match &mut self.version {
            Authority::Path { last_modification, .. } => {
                *last_modification = modification;
            },
            Authority::Git { target, .. } => match target {
                GitTarget::Branch { latest_revision, .. } => {
                    *latest_revision = revision;
                },
                _ => {},
            },
            Authority::Cargo { .. } => {},
        }
    }
}

/// A directory or a branch whose state could not be looked up calls for an update.
pub proof fn failed_lookups_call_for_an_update(local: V1AuthorityFacts, upstream: V1AuthorityFacts)
    requires
        upstream is Path || (upstream is Git && upstream->target is Branch),
    ensures
        !version_current(local, synced(upstream, None, None)),
        !version_current(synced(upstream, None, None), local),
{
}

/// Once both sides are looked up at the same moment, a directory or a branch is current.
pub proof fn looked_up_versions_are_current(
    version: V1AuthorityFacts,
    modification: i128,
    revision: Seq<char>,
)
    requires
        version is Path || (version is Git && version->target is Branch),
    ensures
        ({
            let now = synced(version, Some(modification), Some(revision));
            version_current(now, now)
        }),
{
}

/// A component is up to date with itself, unless it is a directory or a branch whose state is not
/// known.
pub proof fn components_are_up_to_date_with_themselves(v: V1Facts)
    requires
        match v.version {
            V1AuthorityFacts::Cargo { .. } => true,
            V1AuthorityFacts::Git { target, .. } => target is Branch ==> target->latest_revision is Some,
            V1AuthorityFacts::Path { last_modification, .. } => last_modification is Some,
        },
    ensures
        up_to_date(v, v),
{
}

/// A component that differs from its upstream equivalent in anything besides the name and the version
/// is not up to date.
pub proof fn every_field_counts(local: V1Facts, upstream: V1Facts)
    requires
        local.optional != upstream.optional || local.features != upstream.features
            || local.requires != upstream.requires || local.call_format != upstream.call_format
            || local.rustup_channel != upstream.rustup_channel || local.installed_file
            != upstream.installed_file || local.aliases != upstream.aliases || local.symlink_name
            != upstream.symlink_name || local.initialization != upstream.initialization
            || local.artifacts != upstream.artifacts,
    ensures
        !up_to_date(local, upstream),
{
}

} // verus!

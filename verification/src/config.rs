//! The server configuration and its normalization: a legacy single-library
//! path becomes a library named "main", and every library needs a unique,
//! non-empty name.
use vstd::prelude::*;

use vstd::hash_set::StringHashSet;

use crate::text::{opt_view, starts_with, trim, trim_chars};

verus! {

broadcast use vstd::string::group_string_axioms;

/// One configured library: a user-visible name and the directory it scans.
pub struct LibraryConfig {
    pub name: String,
    pub path: String,
}

pub struct LibraryConfigView {
    pub name: Seq<char>,
    pub path: Seq<char>,
}

impl View for LibraryConfig {
    type V = LibraryConfigView;

    open spec fn view(&self) -> LibraryConfigView {
        LibraryConfigView { name: self.name@, path: self.path@ }
    }
}

/// The server configuration.
pub struct Config {
    pub db_path: String,
    pub bind: String,
    /// If set, all API routes require `Authorization: Bearer <token>`.
    pub auth_token: Option<String>,
    /// One entry per library. Names are user-visible and must be unique.
    pub libraries: Vec<LibraryConfig>,
    /// Legacy single-library path: if `libraries` is empty and this is set,
    /// it becomes the sole library, named "main".
    pub library_path: Option<String>,
}

pub struct ConfigView {
    pub db_path: Seq<char>,
    pub bind: Seq<char>,
    pub auth_token: Option<Seq<char>>,
    pub libraries: Seq<LibraryConfigView>,
    pub library_path: Option<Seq<char>>,
}

impl View for Config {
    type V = ConfigView;

    open spec fn view(&self) -> ConfigView {
        ConfigView {
            db_path: self.db_path@,
            bind: self.bind@,
            auth_token: opt_view(self.auth_token),
            libraries: self.libraries@.map_values(|l: LibraryConfig| l@),
            library_path: opt_view(self.library_path),
        }
    }
}

/// Why a configuration is refused.
pub enum ConfigError {
    NoLibraries,
    EmptyName,
    DuplicateName(String),
}

pub enum ConfigErrorView {
    NoLibraries,
    EmptyName,
    DuplicateName(Seq<char>),
}

impl View for ConfigError {
    type V = ConfigErrorView;

    open spec fn view(&self) -> ConfigErrorView {
        match self {
            ConfigError::NoLibraries => ConfigErrorView::NoLibraries,
            ConfigError::EmptyName => ConfigErrorView::EmptyName,
            ConfigError::DuplicateName(n) => ConfigErrorView::DuplicateName(n@),
        }
    }
}

impl ConfigError {
    /// The text reported for this error.
    pub fn message(&self) -> (m: String)
        ensures
            m@ == match self@ {
                ConfigErrorView::NoLibraries =>
                    "config has no libraries \u{2014} add at least one [[library]] section"@,
                ConfigErrorView::EmptyName => "library has empty name"@,
                ConfigErrorView::DuplicateName(n) => "duplicate library name: "@ + n,
            },
    {
        match self {
            ConfigError::NoLibraries => String::from_str(
                "config has no libraries \u{2014} add at least one [[library]] section",
            ),
            ConfigError::EmptyName => String::from_str("library has empty name"),
            ConfigError::DuplicateName(n) => {
                let mut m = String::from_str("duplicate library name: ");
                m.append(n.as_str());
                m
            },
        }
    }
}

/// The configuration after the legacy single-library path is folded in.
pub open spec fn migrated(c: ConfigView) -> ConfigView {
    if c.libraries.len() == 0 && c.library_path is Some {
        ConfigView {
            libraries: seq![LibraryConfigView { name: "main"@, path: c.library_path->Some_0 }],
            library_path: None,
            ..c
        }
    } else {
        c
    }
}

/// The trimmed names of the libraries.
pub open spec fn trimmed_names(libs: Seq<LibraryConfigView>) -> Seq<Seq<char>> {
    libs.map_values(|l: LibraryConfigView| trim_chars(l.name))
}

/// The first problem among the library names, in order: an empty trimmed
/// name, or a trimmed name that an earlier library already has.
pub open spec fn name_problem(names: Seq<Seq<char>>) -> Option<ConfigErrorView>
    decreases names.len(),
{
    if names.len() == 0 {
        None
    } else {
        match name_problem(names.drop_last()) {
            Some(p) => Some(p),
            None => {
                let n = names.last();
                if n.len() == 0 {
                    Some(ConfigErrorView::EmptyName)
                } else if names.drop_last().contains(n) {
                    Some(ConfigErrorView::DuplicateName(n))
                } else {
                    None
                }
            },
        }
    }
}

/// Why a list of libraries is refused, if it is.
pub open spec fn libraries_problem(libs: Seq<LibraryConfigView>) -> Option<ConfigErrorView> {
    if libs.len() == 0 {
        Some(ConfigErrorView::NoLibraries)
    } else {
        name_problem(trimmed_names(libs))
    }
}

impl Config {
    /// Folds the legacy `library_path` in and checks that there is at least
    /// one library and that the trimmed library names are non-empty and
    /// distinct; the first problem found, in order, is reported.
    pub fn normalize(&mut self) -> (r: Result<(), ConfigError>)
        ensures
            final(self)@ == migrated(old(self)@),
            match r {
                Ok(()) => libraries_problem(final(self)@.libraries) is None,
                Err(e) => libraries_problem(final(self)@.libraries) == Some(e@),
            },
    {
        if self.libraries.len() == 0 {
            if let Some(p) = self.library_path.take() {
                self.libraries.push(LibraryConfig { name: String::from_str("main"), path: p });
                proof {
                    assert(self@.libraries =~= migrated(old(self)@).libraries);
                }
            }
        }
        assert(self@ == migrated(old(self)@));
        if self.libraries.len() == 0 {
            return Err(ConfigError::NoLibraries);
        }
        let ghost names = trimmed_names(self@.libraries);
        let mut seen = StringHashSet::new();
        let mut i: usize = 0;
        while i < self.libraries.len()
            invariant
                self@ == migrated(old(self)@),
                names == trimmed_names(self@.libraries),
                i <= self.libraries@.len(),
                seen@ == names.take(i as int).to_set(),
                name_problem(names.take(i as int)) is None,
            decreases self.libraries@.len() - i,
        {
            let name = trim(self.libraries[i].name.as_str());
            let ghost pre = names.take(i as int);
            proof {
                assert(names.take(i + 1).drop_last() =~= pre);
                assert(names.take(i + 1).last() == name@);
            }
            if name.unicode_len() == 0 {
                proof {
                    lemma_problem_extends(names, i as int + 1);
                }
                return Err(ConfigError::EmptyName);
            }
            if seen.contains(name) {
                proof {
                    lemma_problem_extends(names, i as int + 1);
                }
                return Err(ConfigError::DuplicateName(String::from_str(name)));
            }
            seen.insert(String::from_str(name));
            proof {
                assert(names.take(i + 1) =~= pre.push(name@));
                pre.lemma_push_to_set_commute(name@);
                assert(seen@ =~= names.take(i + 1).to_set());
            }
            i = i + 1;
        }
        proof {
            assert(names.take(i as int) =~= names);
        }
        Ok(())
    }

    /// Whether the API is reachable by anyone: no token is set and the bind
    /// address is not a loopback one (`127.`, `localhost`, `[::1]`).
    pub fn api_is_open(&self) -> (b: bool)
        ensures
            b == (self.auth_token is None && !"127."@.is_prefix_of(self.bind@)
                && !"localhost"@.is_prefix_of(self.bind@) && !"[::1]"@.is_prefix_of(
                self.bind@,
            )),
    {
        self.auth_token.is_none() && !starts_with(self.bind.as_str(), "127.") && !starts_with(
            self.bind.as_str(),
            "localhost",
        ) && !starts_with(self.bind.as_str(), "[::1]")
    }
}

/// A problem found in a prefix of the names is the first problem of them all.
proof fn lemma_problem_extends(names: Seq<Seq<char>>, k: int)
    requires
        0 <= k <= names.len(),
        name_problem(names.take(k)) is Some,
    ensures
        name_problem(names) == name_problem(names.take(k)),
    decreases names.len() - k,
{
    if k == names.len() {
        assert(names.take(k) =~= names);
    } else {
        let t = names.drop_last();
        assert(t.take(k) =~= names.take(k));
        lemma_problem_extends(t, k);
    }
}

proof fn lemma_no_name_problem(names: Seq<Seq<char>>)
    requires
        name_problem(names) is None,
    ensures
        forall|i: int| 0 <= i < names.len() ==> (#[trigger] names[i]).len() > 0,
        forall|i: int, j: int| 0 <= i < j < names.len() ==> names[i] != names[j],
    decreases names.len(),
{
    if names.len() > 0 {
        let t = names.drop_last();
        lemma_no_name_problem(t);
        assert forall|i: int| 0 <= i < names.len() implies (#[trigger] names[i]).len() > 0 by {
            if i < t.len() {
                assert(names[i] == t[i]);
            }
        }
        assert forall|i: int, j: int| 0 <= i < j < names.len() implies names[i] != names[j] by {
            if j < t.len() {
                assert(names[i] == t[i] && names[j] == t[j]);
            } else {
                assert(names[i] == t[i]);
                assert(!t.contains(names.last()));
            }
        }
    }
}

/// An accepted configuration has at least one library, and the trimmed
/// library names are non-empty and pairwise distinct.
pub proof fn lemma_accepted_names(libs: Seq<LibraryConfigView>)
    requires
        libraries_problem(libs) is None,
    ensures
        libs.len() > 0,
        forall|i: int| 0 <= i < libs.len() ==> trim_chars((#[trigger] libs[i]).name).len() > 0,
        forall|i: int, j: int|
            0 <= i < j < libs.len() ==> trim_chars(libs[i].name) != trim_chars(libs[j].name),
{
    let names = trimmed_names(libs);
    lemma_no_name_problem(names);
    assert forall|i: int| 0 <= i < libs.len() implies trim_chars((#[trigger] libs[i]).name).len()
        > 0 by {
        assert(names[i] == trim_chars(libs[i].name));
    }
    assert forall|i: int, j: int| 0 <= i < j < libs.len() implies trim_chars(libs[i].name)
        != trim_chars(libs[j].name) by {
        assert(names[i] == trim_chars(libs[i].name));
        assert(names[j] == trim_chars(libs[j].name));
    }
}

proof fn lemma_name_problem_none(names: Seq<Seq<char>>)
    requires
        forall|i: int| 0 <= i < names.len() ==> (#[trigger] names[i]).len() > 0,
        forall|i: int, j: int| 0 <= i < j < names.len() ==> names[i] != names[j],
    ensures
        name_problem(names) is None,
    decreases names.len(),
{
    if names.len() > 0 {
        let t = names.drop_last();
        assert forall|i: int| 0 <= i < t.len() implies (#[trigger] t[i]).len() > 0 by {
            assert(t[i] == names[i]);
        }
        assert forall|i: int, j: int| 0 <= i < j < t.len() implies t[i] != t[j] by {
            assert(t[i] == names[i] && t[j] == names[j]);
        }
        lemma_name_problem_none(t);
        assert(names.last() == names[names.len() - 1]);
        if t.contains(names.last()) {
            let k = choose|k: int| 0 <= k < t.len() && t[k] == names.last();
            assert(names[k] == t[k]);
        }
    }
}

/// A configuration is accepted exactly when it has at least one library
/// and its trimmed library names are non-empty and pairwise distinct.
pub proof fn lemma_accepted_exactly(libs: Seq<LibraryConfigView>)
    ensures
        libraries_problem(libs) is None <==> {
            &&& libs.len() > 0
            &&& forall|i: int|
                0 <= i < libs.len() ==> trim_chars((#[trigger] libs[i]).name).len() > 0
            &&& forall|i: int, j: int|
                0 <= i < j < libs.len() ==> trim_chars(libs[i].name) != trim_chars(libs[j].name)
        },
{
    if libraries_problem(libs) is None {
        lemma_accepted_names(libs);
    }
    if libs.len() > 0 && (forall|i: int|
        0 <= i < libs.len() ==> trim_chars((#[trigger] libs[i]).name).len() > 0) && (forall|
        i: int,
        j: int,
    | 0 <= i < j < libs.len() ==> trim_chars(libs[i].name) != trim_chars(libs[j].name)) {
        let names = trimmed_names(libs);
        assert forall|i: int| 0 <= i < names.len() implies (#[trigger] names[i]).len() > 0 by {
            assert(names[i] == trim_chars(libs[i].name));
        }
        assert forall|i: int, j: int| 0 <= i < j < names.len() implies names[i] != names[j] by {
            assert(names[i] == trim_chars(libs[i].name));
            assert(names[j] == trim_chars(libs[j].name));
        }
        lemma_name_problem_none(names);
    }
}

/// Normalizing twice is normalizing once: the fold of the legacy path
/// changes nothing the second time, so the same names are checked again.
pub proof fn lemma_normalize_idempotent(c: ConfigView)
    ensures
        migrated(migrated(c)) == migrated(c),
        libraries_problem(migrated(migrated(c)).libraries) == libraries_problem(
            migrated(c).libraries,
        ),
{
}

/// `base` joined with the relative path `part`, as `Path::join` does on Unix:
/// a `/` goes between them unless `base` is empty or already ends with one.
pub open spec fn join_path(base: Seq<char>, part: Seq<char>) -> Seq<char> {
    if base.len() == 0 || base.last() == '/' {
        base + part
    } else {
        base + seq!['/'] + part
    }
}

fn join(base: String, part: &str) -> (r: String)
    ensures
        r@ == join_path(base@, part@),
{
    let n = base.unicode_len();
    let mut r = base;
    if n > 0 && r.as_str().get_char(n - 1) == '/' {
        r.append(part);
    } else {
        proof {
            reveal_strlit("/");
        }
        if n > 0 {
            r.append("/");
        }
        r.append(part);
        proof {
            if n == 0 {
                assert(r@ =~= join_path(base@, part@));
            } else {
                assert(r@ =~= base@ + seq!['/'] + part@);
            }
        }
    }
    r
}

/// The directory that holds the configuration: `$XDG_CONFIG_HOME` when set
/// and not empty, else `$HOME/.config`, else `.config`.
pub open spec fn config_base(xdg_config_home: Option<Seq<char>>, home: Option<Seq<char>>) -> Seq<
    char,
> {
    match xdg_config_home {
        Some(x) if x.len() > 0 => x,
        _ => match home {
            Some(h) => join_path(h, ".config"@),
            None => ".config"@,
        },
    }
}

/// Where the configuration is read from, by the environment: with
/// `XDG_CONFIG_HOME` set to a directory `x` (not ending in `/`) it is
/// `x/muserv/config.toml`; with it unset or empty and `HOME` set to `h`
/// (not ending in `/`) it is `h/.config/muserv/config.toml`; with neither,
/// `.config/muserv/config.toml`. An empty `XDG_CONFIG_HOME` counts as unset.
pub proof fn lemma_config_path_by_environment(x: Seq<char>, h: Seq<char>)
    ensures
        (x.len() > 0 && x.last() != '/') ==> join_path(
            join_path(config_base(Some(x), Some(h)), "muserv"@),
            "config.toml"@,
        ) == x + "/muserv/config.toml"@,
        (x.len() > 0 && x.last() != '/') ==> join_path(
            join_path(config_base(Some(x), None), "muserv"@),
            "config.toml"@,
        ) == x + "/muserv/config.toml"@,
        (h.len() > 0 && h.last() != '/') ==> join_path(
            join_path(config_base(None, Some(h)), "muserv"@),
            "config.toml"@,
        ) == h + "/.config/muserv/config.toml"@,
        (h.len() > 0 && h.last() != '/') ==> join_path(
            join_path(config_base(Some(Seq::empty()), Some(h)), "muserv"@),
            "config.toml"@,
        ) == h + "/.config/muserv/config.toml"@,
        join_path(join_path(config_base(None, None), "muserv"@), "config.toml"@)
            == ".config/muserv/config.toml"@,
        config_base(Some(Seq::empty()), None) == config_base(None, None),
{
    reveal_strlit("muserv");
    reveal_strlit("config.toml");
    reveal_strlit(".config");
    reveal_strlit("/muserv/config.toml");
    reveal_strlit("/.config/muserv/config.toml");
    reveal_strlit(".config/muserv/config.toml");
    let m = "muserv"@;
    let f = "config.toml"@;
    let c = ".config"@;
    if x.len() > 0 && x.last() != '/' {
        let a = x + seq!['/'] + m;
        assert(a.last() == 'v');
        assert(a + seq!['/'] + f =~= x + "/muserv/config.toml"@);
    }
    if h.len() > 0 && h.last() != '/' {
        let b = h + seq!['/'] + c;
        assert(b.last() == 'g');
        let a = b + seq!['/'] + m;
        assert(a.last() == 'v');
        assert(a + seq!['/'] + f =~= h + "/.config/muserv/config.toml"@);
    }
    let a = c + seq!['/'] + m;
    assert(a.last() == 'v');
    assert(a + seq!['/'] + f =~= ".config/muserv/config.toml"@);
}

/// Where the configuration is read from when none is given: `config.toml`
/// in the `muserv` directory under `config_base`.
pub fn default_config_path(xdg_config_home: Option<String>, home: Option<String>) -> (p: String)
    ensures
        p@ == join_path(
            join_path(config_base(opt_view(xdg_config_home), opt_view(home)), "muserv"@),
            "config.toml"@,
        ),
{
    let base = match xdg_config_home {
        Some(x) if x.unicode_len() > 0 => x,
        _ => match home {
            Some(h) => join(h, ".config"),
            None => String::from_str(".config"),
        },
    };
    join(join(base, "muserv"), "config.toml")
}

} // verus!

//! Libraries as stored in the database, and choosing among them.
use vstd::prelude::*;

use crate::config::LibraryConfig;
use crate::error::{ApiError, STATUS_NOT_FOUND};
use crate::text::{same_text, trim, trim_chars};

verus! {

broadcast use vstd::string::group_string_axioms;

/// A library row: its id, its unique name and the root directory it scans.
pub struct Library {
    pub id: i64,
    pub name: String,
    pub root_path: String,
}

impl Clone for Library {
    fn clone(&self) -> (r: Self)
        ensures
            r == *self,
    {
        Library { id: self.id, name: self.name.clone(), root_path: self.root_path.clone() }
    }
}

impl Library {
    /// The root directory of the library.
    pub fn root(&self) -> (p: String)
        ensures
            p@ == self.root_path@,
    {
        self.root_path.clone()
    }
}

/// Resolves a library id: the first library with that id, or 404
/// "library not found" when no library has it.
pub fn require_library(libraries: &Vec<Library>, id: i64) -> (r: Result<Library, ApiError>)
    ensures
        match r {
            Ok(l) => exists|i: int|
                0 <= i < libraries@.len() && (#[trigger] libraries@[i]).id == id && (forall|j: int|
                    0 <= j < i ==> libraries@[j].id != id) && l == libraries@[i],
            Err(e) => (forall|j: int| 0 <= j < libraries@.len() ==> libraries@[j].id != id)
                && e.status == STATUS_NOT_FOUND && e.message@ == "library"@ + " not found"@,
        },
{
    let mut i: usize = 0;
    while i < libraries.len()
        invariant
            i <= libraries@.len(),
            forall|j: int| 0 <= j < i ==> libraries@[j].id != id,
        decreases libraries@.len() - i,
    {
        if libraries[i].id == id {
            return Ok(libraries[i].clone());
        }
        i = i + 1;
    }
    Err(ApiError::not_found("library"))
}

/// The libraries whose name is `name`.
pub open spec fn named(libs: Seq<Library>, name: Seq<char>) -> Seq<Library> {
    libs.filter(|l: Library| l.name@ == name)
}

/// The libraries a scan covers: all of them, or those named `name`;
/// `None` when that leaves none.
pub fn libraries_to_scan(libraries: &Vec<Library>, name: Option<&str>) -> (r: Option<Vec<Library>>)
    ensures
        ({
            let chosen = match name {
                Some(n) => named(libraries@, n@),
                None => libraries@,
            };
            match r {
                Some(v) => chosen.len() > 0 && v@ == chosen,
                None => chosen.len() == 0,
            }
        }),
{
    let mut out: Vec<Library> = Vec::new();
    let mut i: usize = 0;
    while i < libraries.len()
        invariant
            i <= libraries@.len(),
            out@ == match name {
                Some(n) => named(libraries@.take(i as int), n@),
                None => libraries@.take(i as int),
            },
        decreases libraries@.len() - i,
    {
        let l = &libraries[i];
        proof {
            reveal_with_fuel(Seq::<_>::filter, 1);
            assert(libraries@.take(i + 1).drop_last() =~= libraries@.take(i as int));
        }
        let keep = match name {
            Some(n) => same_text(l.name.as_str(), n),
            None => true,
        };
        if keep {
            out.push(l.clone());
        }
        proof {
            assert(libraries@.take(i + 1) =~= libraries@.take(i as int).push(libraries@[i as int]));
        }
        i = i + 1;
    }
    proof {
        assert(libraries@.take(libraries@.len() as int) =~= libraries@);
    }
    if out.len() == 0 {
        None
    } else {
        Some(out)
    }
}

/// The rows that a sync writes, in configuration order: each library's
/// trimmed name with its path. The first one also renames the placeholder row.
pub fn sync_entries(cfg: &Vec<LibraryConfig>) -> (r: Vec<LibraryConfig>)
    ensures
        r@.len() == cfg@.len(),
        forall|i: int|
            0 <= i < cfg@.len() ==> (#[trigger] r@[i]).name@ == trim_chars(cfg@[i].name@)
                && r@[i].path@ == cfg@[i].path@,
{
    let mut out: Vec<LibraryConfig> = Vec::new();
    let mut i: usize = 0;
    while i < cfg.len()
        invariant
            i <= cfg@.len(),
            out@.len() == i,
            forall|j: int|
                0 <= j < i ==> (#[trigger] out@[j]).name@ == trim_chars(cfg@[j].name@)
                    && out@[j].path@ == cfg@[j].path@,
        decreases cfg@.len() - i,
    {
        let name = String::from_str(trim(cfg[i].name.as_str()));
        out.push(LibraryConfig { name, path: cfg[i].path.clone() });
        i = i + 1;
    }
    out
}

} // verus!

//! The paths given at startup, checked before any other work is done.

use vstd::prelude::*;

use crate::path::{components, is_absolute, ProjectPath};

verus! {

/// Why a path given at startup cannot be used.
#[derive(Debug)]
pub enum PathError {
    /// The path could not be resolved; `cause` says why.
    Unresolved { path: String, cause: String },
    /// The resolved form does not start at the root.
    Relative { path: String },
    /// The path names something other than a directory.
    NotADirectory { path: String },
}

/// Checks a path given at startup. `canonical` is its resolved form (symlinks
/// and relative segments resolved), or why it could not be resolved;
/// `is_dir` tells whether the resolved form is a directory. `raw` is the path
/// as given, which an error names.
pub fn resolve_checked(raw: &str, canonical: Result<String, String>, is_dir: bool) -> (r: Result<
    ProjectPath,
    PathError,
>)
    ensures
        canonical matches Err(cause) ==> r matches Err(PathError::Unresolved { path, cause: c })
            && path@ == raw@ && c@ == cause@,
        canonical matches Ok(c) ==> {
            &&& !is_absolute(c@) ==> (r matches Err(PathError::Relative { path }) && path@
                == raw@)
            &&& is_absolute(c@) && !is_dir ==> (r matches Err(PathError::NotADirectory { path })
                && path@ == raw@)
            &&& is_absolute(c@) && is_dir ==> (r matches Ok(p) && p@ == components(c@))
        },
{
    match canonical {
        Err(cause) => Err(PathError::Unresolved { path: String::from_str(raw), cause }),
        Ok(c) => match ProjectPath::from_absolute(c.as_str()) {
            None => Err(PathError::Relative { path: String::from_str(raw) }),
            Some(p) => {
                if is_dir {
                    Ok(p)
                } else {
                    Err(PathError::NotADirectory { path: String::from_str(raw) })
                }
            },
        },
    }
}

/// What a run is asked to do: the year and the least status of the projects
/// to provision, the root under which their directories stand, and the
/// template directory that seeds a new one.
pub struct Cli {
    pub year: i32,
    pub min_status: String,
    pub root_dir: ProjectPath,
    pub seed_dir: ProjectPath,
}

} // verus!

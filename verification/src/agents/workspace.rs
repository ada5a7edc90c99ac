//! Where a spawned child works.

use vstd::prelude::*;
use vstd::string::StringExecFns;

use crate::text::chars_of;
use crate::text::maybe;
use crate::text::trim;
use crate::text::trimmed;

verus! {

/// An environment that an agent works in.
#[derive(Debug, PartialEq, Eq)]
pub struct EnvironmentSelection {
    pub environment_id: String,
    pub cwd: String,
}

/// An environment, with its texts as sequences of characters.
#[verifier::ext_equal]
pub struct EnvironmentModel {
    pub environment_id: Seq<char>,
    pub cwd: Seq<char>,
}

impl View for EnvironmentSelection {
    type V = EnvironmentModel;

    open spec fn view(&self) -> EnvironmentModel {
        EnvironmentModel { environment_id: self.environment_id@, cwd: self.cwd@ }
    }
}

/// What a list of environments stands for.
pub open spec fn environments(list: Seq<EnvironmentSelection>) -> Seq<EnvironmentModel> {
    Seq::new(list.len(), |i: int| list[i]@)
}

/// What the host finds out about the directory that a child is to work in.
#[derive(Debug, PartialEq, Eq)]
pub enum ChildDirectory {
    /// No environment is ready.
    NoEnvironment,
    /// The path does not resolve against the environment's.
    Unresolved(String),
    /// The directory cannot be looked at.
    Inaccessible(String),
    NotADirectory,
    /// A directory on another machine.
    Remote { cwd: String },
    /// A directory on this machine, with its absolute path.
    Local { cwd: String, path: String },
    /// A directory on this machine that has no absolute path.
    NotLocal(String),
}

/// Whether a child asks for a directory of its own.
pub open spec fn asks(cwd: Option<Seq<char>>) -> bool {
    cwd is Some && trimmed(cwd->0).len() > 0
}

/// Why a child cannot work where it is to, if it cannot.
pub open spec fn child_problem(cwd: Option<Seq<char>>, directory: ChildDirectory) -> Option<
    Seq<char>,
> {
    match cwd {
        None => None,
        Some(cwd) => if trimmed(cwd).len() == 0 {
            Some("cwd must not be empty"@)
        } else {
            match directory {
                ChildDirectory::NoEnvironment => Some(
                    "No execution environment is ready for the child cwd"@,
                ),
                ChildDirectory::Unresolved(error) => Some("Invalid child cwd: "@ + error@),
                ChildDirectory::Inaccessible(error) => Some("Cannot access child cwd: "@ + error@),
                ChildDirectory::NotADirectory => Some("Child cwd must be a directory"@),
                ChildDirectory::NotLocal(error) => Some("Invalid local child cwd: "@ + error@),
                _ => None,
            }
        },
    }
}

/// The directory that a child works in, where one was found.
pub open spec fn child_cwd(directory: ChildDirectory) -> Option<Seq<char>> {
    match directory {
        ChildDirectory::Remote { cwd } => Some(cwd@),
        ChildDirectory::Local { cwd, .. } => Some(cwd@),
        _ => None,
    }
}

/// The absolute path that becomes the child's own, where it works on this machine.
pub open spec fn child_path(directory: ChildDirectory) -> Option<Seq<char>> {
    match directory {
        ChildDirectory::Local { path, .. } => Some(path@),
        _ => None,
    }
}

/// Why a request for a directory is refused before anything is looked up, if it is.
pub fn cwd_problem(cwd: &Option<String>) -> (r: Option<String>)
    ensures
        maybe(r) == (if maybe(*cwd) is Some && !asks(maybe(*cwd)) {
            Some("cwd must not be empty"@)
        } else {
            None
        }),
{
    if let Some(cwd) = cwd {
        let length: usize = chars_of(trim(cwd.as_str()).as_str()).len();
        if length == 0 {
            return Some("cwd must not be empty".to_string());
        }
    }
    None
}

/// A text behind a prefix.
fn prefixed(prefix: &str, text: &str) -> (r: String)
    ensures
        r@ == prefix@ + text@,
{
    let mut out = prefix.to_string();
    out.append(text);
    out
}

/// The environments of a child, and the absolute path of its directory on this machine: those of
/// the parent, with the first one moved to the directory that was asked for.
pub fn spawn_environments(
    selections: Vec<EnvironmentSelection>,
    cwd: &Option<String>,
    directory: ChildDirectory,
) -> (r: Result<(Vec<EnvironmentSelection>, Option<String>), String>)
    requires
        asks(maybe(*cwd)) && child_cwd(directory) is Some ==> selections@.len() > 0,
    ensures
        r is Err <==> child_problem(maybe(*cwd), directory) is Some,
        match r {
            Err(error) => Some(error@) == child_problem(maybe(*cwd), directory),
            Ok((chosen, path)) => if cwd is None {
                environments(chosen@) == environments(selections@) && path is None
            } else {
                environments(chosen@) == environments(selections@).update(
                    0,
                    EnvironmentModel {
                        environment_id: selections@[0].environment_id@,
                        cwd: child_cwd(directory)->0,
                    },
                ) && maybe(path) == child_path(directory)
            },
        },
{
    if let Some(problem) = cwd_problem(cwd) {
        return Err(problem);
    }
    if cwd.is_none() {
        return Ok((selections, None));
    }
    let mut chosen = selections;
    let (cwd, path) = match directory {
        ChildDirectory::NoEnvironment => {
            return Err("No execution environment is ready for the child cwd".to_string());
        },
        ChildDirectory::Unresolved(error) => {
            return Err(prefixed("Invalid child cwd: ", error.as_str()));
        },
        ChildDirectory::Inaccessible(error) => {
            return Err(prefixed("Cannot access child cwd: ", error.as_str()));
        },
        ChildDirectory::NotADirectory => {
            return Err("Child cwd must be a directory".to_string());
        },
        ChildDirectory::NotLocal(error) => {
            return Err(prefixed("Invalid local child cwd: ", error.as_str()));
        },
        ChildDirectory::Remote { cwd } => (cwd, None),
        ChildDirectory::Local { cwd, path } => (cwd, Some(path)),
    };
    let ghost moved = cwd@;
    let first = EnvironmentSelection {
        environment_id: chosen[0].environment_id.clone(),
        cwd,
    };
    chosen.set(0, first);
    assert(environments(chosen@) =~= environments(selections@).update(
        0,
        EnvironmentModel { environment_id: selections@[0].environment_id@, cwd: moved },
    ));
    Ok((chosen, path))
}

/// A child that asks for no directory works where its parent does, one that asks for a blank one is
/// refused, and one that asks for another works there exactly where the host found a directory.
pub proof fn children_work_where_they_ask(cwd: Seq<char>, directory: ChildDirectory)
    ensures
        child_problem(None, directory) is None,
        trimmed(cwd).len() == 0 ==> child_problem(Some(cwd), directory) is Some,
        trimmed(cwd).len() > 0 ==> (child_problem(Some(cwd), directory) is None <==> directory
            is Remote || directory is Local),
        trimmed(cwd).len() > 0 && child_problem(Some(cwd), directory) is None ==> child_cwd(
            directory,
        ) is Some,
        directory matches ChildDirectory::Remote { cwd: there } ==> child_cwd(directory) == Some(
            there@,
        ) && child_path(directory) is None,
        directory matches ChildDirectory::Local { cwd: there, path } ==> child_cwd(directory)
            == Some(there@) && child_path(directory) == Some(path@),
{
}

} // verus!

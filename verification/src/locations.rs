//! Where the assistant keeps its logs.
//!
//! The assistant keeps its state in a directory of its own below the user's
//! home directory. In it stands `projects`, with one
//! directory for each project, named after the project's encoded path. A
//! project directory holds the logs of its sessions, `<id>.jsonl`, and for a
//! session with subagents a directory `<id>/subagents`.

use vstd::prelude::*;
use crate::project_path::{join_component, join_path};

verus! {

/// Calls `dirs::home_dir` and turns the path into text, lossily where it is
/// not Unicode. The home directory depends on the environment of the
/// process, so nothing is claimed of the result.
#[verifier::external_body]
fn home_dir() -> Option<String> {
    match dirs::home_dir() {
        Some(path) => Some(path.to_string_lossy().into_owned()),
        None => None,
    }
}

/// The assistant's directory below the home directory `home`, where the
/// directory is named `dir_name`.
pub open spec fn claude_dir_under(home: Seq<char>, dir_name: Seq<char>) -> Seq<char> {
    join_path(home, dir_name)
}

/// The directory of all projects below the home directory `home`.
pub open spec fn projects_dir_under(home: Seq<char>, dir_name: Seq<char>) -> Seq<char> {
    join_path(claude_dir_under(home, dir_name), "projects"@)
}

/// The path of a session's log.
pub open spec fn session_log_path(
    projects_dir: Seq<char>,
    project_encoded: Seq<char>,
    session_id: Seq<char>,
) -> Seq<char> {
    join_path(join_path(projects_dir, project_encoded), session_id + ".jsonl"@)
}

/// The directory of a session's subagent logs.
pub open spec fn subagents_dir_path(
    projects_dir: Seq<char>,
    project_encoded: Seq<char>,
    session_id: Seq<char>,
) -> Seq<char> {
    join_path(join_path(join_path(projects_dir, project_encoded), session_id), "subagents"@)
}

/// The assistant's directory below `home`.
pub fn claude_dir_in(home: &str, dir_name: &str) -> (r: String)
    ensures
        r@ == claude_dir_under(home@, dir_name@),
{
    join_component(home, dir_name)
}

/// The directory of all projects below `home`.
pub fn projects_dir_in(home: &str, dir_name: &str) -> (r: String)
    ensures
        r@ == projects_dir_under(home@, dir_name@),
{
    let assistant_dir = claude_dir_in(home, dir_name);
    join_component(assistant_dir.as_str(), "projects")
}

/// The assistant's directory of the current user, where the assistant names
/// its directory `dir_name`. Where the home directory is not known, the path
/// is relative.
pub fn get_claude_dir(dir_name: &str) -> (r: String)
    ensures
        exists|home: Seq<char>| r@ == claude_dir_under(home, dir_name@),
{
    match home_dir() {
        Some(home) => claude_dir_in(home.as_str(), dir_name),
        None => {
            let r = claude_dir_in("", dir_name);
            assert(r@ == claude_dir_under(""@, dir_name@));
            r
        },
    }
}

/// The directory of all projects of the current user, where the assistant
/// names its directory `dir_name`. Where the home directory is not known,
/// the path is relative.
pub fn get_projects_dir(dir_name: &str) -> (r: String)
    ensures
        exists|home: Seq<char>| r@ == projects_dir_under(home, dir_name@),
{
    match home_dir() {
        Some(home) => projects_dir_in(home.as_str(), dir_name),
        None => {
            let r = projects_dir_in("", dir_name);
            assert(r@ == projects_dir_under(""@, dir_name@));
            r
        },
    }
}

/// The path of the log of session `session_id` of project `project_encoded`.
pub fn session_file_path(projects_dir: &str, project_encoded: &str, session_id: &str) -> (r: String)
    ensures
        r@ == session_log_path(projects_dir@, project_encoded@, session_id@),
{
    let project_dir = join_component(projects_dir, project_encoded);
    let mut name = session_id.to_owned();
    name.append(".jsonl");
    join_component(project_dir.as_str(), name.as_str())
}

/// The directory that holds the subagent logs of session `session_id` of
/// project `project_encoded`.
pub fn subagents_dir(projects_dir: &str, project_encoded: &str, session_id: &str) -> (r: String)
    ensures
        r@ == subagents_dir_path(projects_dir@, project_encoded@, session_id@),
{
    let project_dir = join_component(projects_dir, project_encoded);
    let session_dir = join_component(project_dir.as_str(), session_id);
    join_component(session_dir.as_str(), "subagents")
}

} // verus!

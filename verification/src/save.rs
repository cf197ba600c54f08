//! Saving a page from the web editor: who the commit is by, whether the
//! page changed since the editor loaded it, and what is staged and
//! committed.

use vstd::prelude::*;
use vstd::string::*;
use crate::chars::str_eq;
use crate::text::push_str;

verus! {

/// A save from the editor: the page's path, its new text, and the version
/// stamp the editor loaded (empty for a new page).
#[derive(Debug, Clone)]
pub struct SaveRequest {
    pub path: String,
    pub content: String,
    pub sha: String,
}

/// The page's version stamp after the save.
#[derive(Debug, Clone)]
pub struct SaveResponse {
    pub sha: String,
}

/// Why a save failed.
#[derive(Debug, Clone, Copy, PartialEq, Eq, Structural)]
pub enum SaveError {
    Unauthorized,
    ForbiddenPath(u16),
    CantReadFile,
    Conflict,
    WriteFailed,
    RepoNotFound,
    CantOpenIndex,
    CantStage,
    CantWriteTree,
    CantFindTree,
    CantSign,
    CommitFailed,
    CantReadMtime,
}

/// The HTTP status of a failed save.
pub open spec fn spec_save_status(e: SaveError) -> u16 {
    match e {
        SaveError::Unauthorized => 401,
        SaveError::ForbiddenPath(s) => s,
        SaveError::Conflict => 409,
        _ => 500,
    }
}

/// The message of a failed save.
pub open spec fn spec_save_message(e: SaveError) -> Seq<char> {
    match e {
        SaveError::Unauthorized => "unauthorized"@,
        SaveError::ForbiddenPath(_) => "forbidden path"@,
        SaveError::CantReadFile => "can't read file"@,
        SaveError::Conflict => "conflict — page was edited elsewhere"@,
        SaveError::WriteFailed => "write failed"@,
        SaveError::RepoNotFound => "git repo not found"@,
        SaveError::CantOpenIndex => "can't open git index"@,
        SaveError::CantStage => "can't stage file"@,
        SaveError::CantWriteTree => "can't write tree"@,
        SaveError::CantFindTree => "can't find tree"@,
        SaveError::CantSign => "can't create signature"@,
        SaveError::CommitFailed => "commit failed"@,
        SaveError::CantReadMtime => "can't read mtime"@,
    }
}

impl SaveError {
    /// The HTTP status of the failure.
    pub fn status(&self) -> (s: u16)
        ensures
            s == spec_save_status(*self),
    {
        match self {
            SaveError::Unauthorized => 401,
            SaveError::ForbiddenPath(s) => *s,
            SaveError::Conflict => 409,
            _ => 500,
        }
    }

    /// The message of the failure.
    pub fn message(&self) -> (m: &'static str)
        ensures
            m@ == spec_save_message(*self),
    {
        match self {
            SaveError::Unauthorized => "unauthorized",
            SaveError::ForbiddenPath(_) => "forbidden path",
            SaveError::CantReadFile => "can't read file",
            SaveError::Conflict => "conflict — page was edited elsewhere",
            SaveError::WriteFailed => "write failed",
            SaveError::RepoNotFound => "git repo not found",
            SaveError::CantOpenIndex => "can't open git index",
            SaveError::CantStage => "can't stage file",
            SaveError::CantWriteTree => "can't write tree",
            SaveError::CantFindTree => "can't find tree",
            SaveError::CantSign => "can't create signature",
            SaveError::CommitFailed => "commit failed",
            SaveError::CantReadMtime => "can't read mtime",
        }
    }
}

/// The author of a save: the signed-in user (and `<name>@localhost`) when
/// editing requires signing in, which then fails without one; else the
/// guest.
pub open spec fn spec_save_author(edit_requires_auth: bool, username: Option<Seq<char>>) -> Result<(Seq<char>, Seq<char>), SaveError> {
    if edit_requires_auth {
        match username {
            Some(u) => Ok((u, u + "@localhost"@)),
            None => Err(SaveError::Unauthorized),
        }
    } else {
        Ok(("guest"@, "guest@localhost"@))
    }
}

/// The author of a save (name and e-mail address).
pub fn save_author(edit_requires_auth: bool, username: Option<String>) -> (r: Result<(String, String), SaveError>)
    ensures
        match spec_save_author(edit_requires_auth, match username {
            Some(u) => Some(u@),
            None => None,
        }) {
            Ok((n, e)) => r matches Ok(p) && p.0@ == n && p.1@ == e,
            Err(x) => r == Err::<(String, String), SaveError>(x),
        },
{
    if edit_requires_auth {
        match username {
            Some(u) => {
                let mut email = u.clone();
                push_str(&mut email, "@localhost");
                Ok((u, email))
            },
            None => Err(SaveError::Unauthorized),
        }
    } else {
        Ok(("guest".to_owned(), "guest@localhost".to_owned()))
    }
}

/// The stamp the editor loaded is stale: it is given and differs from the
/// page's stamp now.
pub open spec fn spec_stale(client_sha: Seq<char>, current_sha: Seq<char>) -> bool {
    client_sha.len() > 0 && client_sha != current_sha
}

/// Refuses a save whose page was changed since the editor loaded it.
pub fn check_version(client_sha: &str, current_sha: &str) -> (r: Result<(), SaveError>)
    ensures
        spec_stale(client_sha@, current_sha@) ==> r == Err::<(), SaveError>(SaveError::Conflict),
        !spec_stale(client_sha@, current_sha@) ==> r is Ok,
{
    if client_sha.unicode_len() > 0 && !str_eq(client_sha, current_sha) {
        Err(SaveError::Conflict)
    } else {
        Ok(())
    }
}

/// The path staged in the repository: `<location>/<path>.txt`.
pub open spec fn spec_staged_path(location: Seq<char>, path: Seq<char>) -> Seq<char> {
    location + "/"@ + path + ".txt"@
}

/// The path staged in the repository for a page.
pub fn staged_path(location: &str, path: &str) -> (r: String)
    ensures
        r@ == spec_staged_path(location@, path@),
{
    let mut r = location.to_owned();
    push_str(&mut r, "/");
    push_str(&mut r, path);
    push_str(&mut r, ".txt");
    r
}

/// The commit message of a save.
pub open spec fn spec_commit_message(path: Seq<char>) -> Seq<char> {
    "Edit "@ + path + " via Mast web editor"@
}

/// The commit message of a save.
pub fn commit_message(path: &str) -> (r: String)
    ensures
        r@ == spec_commit_message(path@),
{
    let mut r = String::new();
    push_str(&mut r, "Edit ");
    push_str(&mut r, path);
    push_str(&mut r, " via Mast web editor");
    r
}

} // verus!

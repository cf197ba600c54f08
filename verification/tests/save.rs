use mast::save::{check_version, commit_message, save_author, staged_path, SaveError};

#[test]
fn authors() {
    assert_eq!(save_author(false, None).unwrap(), ("guest".to_string(), "guest@localhost".to_string()));
    assert_eq!(save_author(false, Some("al".to_string())).unwrap(), ("guest".to_string(), "guest@localhost".to_string()));
    assert_eq!(save_author(true, Some("al".to_string())).unwrap(), ("al".to_string(), "al@localhost".to_string()));
    assert_eq!(save_author(true, None).err(), Some(SaveError::Unauthorized));
}

#[test]
fn versions() {
    assert!(check_version("", "123").is_ok());
    assert!(check_version("123", "123").is_ok());
    assert_eq!(check_version("122", "123").err(), Some(SaveError::Conflict));
}

#[test]
fn paths_and_messages() {
    assert_eq!(staged_path(".wiki/wiki", "a/b"), ".wiki/wiki/a/b.txt");
    assert_eq!(commit_message("a/b"), "Edit a/b via Mast web editor");
}

#[test]
fn error_answers() {
    assert_eq!(SaveError::Unauthorized.status(), 401);
    assert_eq!(SaveError::Unauthorized.message(), "unauthorized");
    assert_eq!(SaveError::ForbiddenPath(403).status(), 403);
    assert_eq!(SaveError::ForbiddenPath(404).message(), "forbidden path");
    assert_eq!(SaveError::Conflict.status(), 409);
    assert_eq!(SaveError::Conflict.message(), "conflict — page was edited elsewhere");
    assert_eq!(SaveError::CantReadFile.status(), 500);
    assert_eq!(SaveError::CantReadFile.message(), "can't read file");
    assert_eq!(SaveError::WriteFailed.message(), "write failed");
    assert_eq!(SaveError::RepoNotFound.message(), "git repo not found");
    assert_eq!(SaveError::CantOpenIndex.message(), "can't open git index");
    assert_eq!(SaveError::CantStage.message(), "can't stage file");
    assert_eq!(SaveError::CantWriteTree.message(), "can't write tree");
    assert_eq!(SaveError::CantFindTree.message(), "can't find tree");
    assert_eq!(SaveError::CantSign.message(), "can't create signature");
    assert_eq!(SaveError::CommitFailed.status(), 500);
    assert_eq!(SaveError::CommitFailed.message(), "commit failed");
    assert_eq!(SaveError::CantReadMtime.message(), "can't read mtime");
}

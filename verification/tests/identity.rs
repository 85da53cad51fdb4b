use krun::identity::{first_commit, path_id, resolve_id, IdentityError, RepositoryFacts};

fn facts(
    is_empty: Result<bool, String>,
    is_bare: bool,
    history: Result<Vec<Result<String, String>>, IdentityError>,
) -> RepositoryFacts {
    RepositoryFacts { is_empty, is_bare, history }
}

#[test]
fn path_id_is_sha256_hex() {
    assert_eq!(
        path_id("/home/user/project"),
        "9dad1e4e08b0b11cbcd860257e8bdfa6b8e5f01790e10a6a0b1f4870c13e686b"
    );
    assert_eq!(path_id(""), "e3b0c44298fc1c149afbf4c8996fb92427ae41e4649b934ca495991b7852b855");
    assert_eq!(path_id("é/x"), "ea5d2314ec4e1e6930d21075200af59e2add0f2bb1451e36c7e188c92845e101");
}

#[test]
fn resolve_id_outside_repository_hashes_path() {
    assert_eq!(
        resolve_id("/home/user/project", None),
        Ok("9dad1e4e08b0b11cbcd860257e8bdfa6b8e5f01790e10a6a0b1f4870c13e686b".to_string())
    );
}

#[test]
fn resolve_id_in_repository_takes_oldest_commit() {
    let f = facts(
        Ok(false),
        false,
        Ok(vec![Ok("ccc".to_string()), Ok("bbb".to_string()), Ok("aaa".to_string())]),
    );
    assert_eq!(resolve_id("/x", Some(f)), Ok("aaa".to_string()));
}

#[test]
fn first_commit_errors() {
    assert_eq!(
        first_commit(facts(Err("io".to_string()), false, Ok(vec![]))),
        Err(IdentityError::EmptyCheckFailed("io".to_string()))
    );
    assert_eq!(
        first_commit(facts(Ok(true), false, Ok(vec![Ok("a".to_string())]))),
        Err(IdentityError::EmptyRepository)
    );
    assert_eq!(
        first_commit(facts(Ok(false), true, Ok(vec![Ok("a".to_string())]))),
        Err(IdentityError::BareRepository)
    );
    assert_eq!(
        first_commit(facts(Ok(false), false, Err(IdentityError::HistoryUnavailable("no HEAD".to_string())))),
        Err(IdentityError::HistoryUnavailable("no HEAD".to_string()))
    );
    assert_eq!(first_commit(facts(Ok(false), false, Ok(vec![]))), Err(IdentityError::NoCommits));
    assert_eq!(
        first_commit(facts(Ok(false), false, Ok(vec![Ok("b".to_string()), Err("bad".to_string())]))),
        Err(IdentityError::WalkFailed("bad".to_string()))
    );
}

use snapmirror::remote::{list_command, Remote, RemoteError};

#[test]
fn address_with_host_and_path() {
    let r = Remote::from_str("backup@example.org:/srv/snapshots").ok().unwrap();
    assert_eq!(r.username, "backup");
    assert_eq!(r.remote, "example.org");
    assert_eq!(r.path, "/srv/snapshots");
}

#[test]
fn address_with_port() {
    let r = Remote::from_str("backup@example.org:2222:/srv/snapshots").ok().unwrap();
    assert_eq!(r.username, "backup");
    assert_eq!(r.remote, "example.org:2222");
    assert_eq!(r.path, "/srv/snapshots");
}

#[test]
fn address_splits_at_the_first_at_sign() {
    let r = Remote::from_str("a@b@c:d").ok().unwrap();
    assert_eq!(r.username, "a");
    assert_eq!(r.remote, "b@c");
    assert_eq!(r.path, "d");
}

#[test]
fn address_may_have_empty_parts() {
    let r = Remote::from_str("@:").ok().unwrap();
    assert_eq!(r.username, "");
    assert_eq!(r.remote, "");
    assert_eq!(r.path, "");
}

#[test]
fn address_with_letters_beyond_ascii() {
    let r = Remote::from_str("jürgen@höst:/päth").ok().unwrap();
    assert_eq!(r.username, "jürgen");
    assert_eq!(r.remote, "höst");
    assert_eq!(r.path, "/päth");
}

#[test]
fn address_without_colon_misses_the_path() {
    assert_eq!(Remote::from_str("backup@example.org").err(), Some(RemoteError::MissingPath));
    assert_eq!(Remote::from_str("").err(), Some(RemoteError::MissingPath));
}

#[test]
fn address_without_at_sign_misses_the_user() {
    assert_eq!(Remote::from_str("example.org:/srv").err(), Some(RemoteError::MissingUser));
    assert_eq!(Remote::from_str("example.org:/srv@x").err(), Some(RemoteError::MissingUser));
}

#[test]
fn listing_command_quotes_the_path() {
    assert_eq!(list_command("/srv/snap shots"), "ls -1NU \"/srv/snap shots\"");
}

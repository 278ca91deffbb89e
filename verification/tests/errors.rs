use aurene::error::Error;

#[test]
fn generic_error_shows_its_message_as_it_is() {
    let e = Error::GenericError("something broke".to_string());
    assert_eq!(e.message(), "something broke");
}

#[test]
fn each_error_has_its_message() {
    assert_eq!(
        Error::ProfileNotFound("x.dat".to_string()).message(),
        "profile not found: x.dat"
    );
    assert_eq!(
        Error::AmbiguousProfile("x.dat".to_string(), vec!["a/x.dat".to_string()]).message(),
        "ambiguous profile: x.dat"
    );
    assert_eq!(Error::InstallError("disk full".to_string()).message(), "install failed: disk full");
    assert_eq!(Error::LaunchError("no such file".to_string()).message(), "launch failed: no such file");
    assert_eq!(Error::ProcessFailed(3).message(), "process exited with a failure");
    assert_eq!(Error::RestoreError("gone".to_string()).message(), "restore failed: gone");
}

#[test]
fn only_resolution_errors_are_fatal() {
    assert!(Error::ProfileNotFound("x".to_string()).is_fatal());
    assert!(Error::AmbiguousProfile("x".to_string(), vec![]).is_fatal());
    assert!(!Error::GenericError("x".to_string()).is_fatal());
    assert!(!Error::InstallError("x".to_string()).is_fatal());
    assert!(!Error::LaunchError("x".to_string()).is_fatal());
    assert!(!Error::ProcessFailed(1).is_fatal());
    assert!(!Error::RestoreError("x".to_string()).is_fatal());
}

use vault_scan::{open_outcome, reveal_outcome, LaunchStatus, OpenError};

#[test]
fn successful_exit_opens() {
    let r = open_outcome("/vault/notes/a.md", LaunchStatus::Exited(true));
    assert!(r.is_ok());
}

#[test]
fn nonzero_exit_fails_open_with_file_path() {
    let r = open_outcome("/vault/notes/a.md", LaunchStatus::Exited(false));
    match r {
        Err(e) => {
            assert!(matches!(e, OpenError::OpenFailed(_)));
            let msg = e.message();
            assert_eq!(msg, "Failed to open file in MD_RENDER: /vault/notes/a.md");
            assert!(msg.contains("/vault/notes/a.md"));
        }
        Ok(_) => panic!("expected an error"),
    }
}

#[test]
fn spawn_failure_reports_command_error() {
    let r = open_outcome(
        "/vault/notes/a.md",
        LaunchStatus::SpawnFailed("No such file or directory".to_string()),
    );
    match r {
        Err(e) => {
            assert!(matches!(e, OpenError::CommandFailed(_)));
            let msg = e.message();
            assert_eq!(
                msg,
                "Failed to execute open command: No such file or directory"
            );
        }
        Ok(_) => panic!("expected an error"),
    }
}

#[test]
fn successful_exit_reveals() {
    let r = reveal_outcome("/vault/notes/a.md", LaunchStatus::Exited(true));
    assert!(r.is_ok());
}

#[test]
fn nonzero_exit_fails_reveal_with_file_path() {
    let r = reveal_outcome("/vault/notes/a.md", LaunchStatus::Exited(false));
    match r {
        Err(e) => {
            assert!(matches!(e, OpenError::RevealFailed(_)));
            let msg = e.message();
            assert_eq!(msg, "Failed to reveal file in Finder: /vault/notes/a.md");
            assert!(msg.contains("/vault/notes/a.md"));
        }
        Ok(_) => panic!("expected an error"),
    }
}

#[test]
fn reveal_spawn_failure_reports_command_error() {
    let r = reveal_outcome(
        "/vault/notes/a.md",
        LaunchStatus::SpawnFailed("permission denied".to_string()),
    );
    match r {
        Err(e) => {
            let msg = e.message();
            assert_eq!(msg, "Failed to execute open command: permission denied");
        }
        Ok(_) => panic!("expected an error"),
    }
}

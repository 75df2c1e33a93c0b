use consistent_read::InconsistentReadError;

#[test]
fn io_failure_names_path_and_cause() {
    let error = InconsistentReadError::Io {
        path: String::from("/proc/self/mountinfo"),
        cause: String::from("No such file or directory (os error 2)"),
    };
    assert_eq!(
        error.message(),
        "failed to read file at /proc/self/mountinfo: No such file or directory (os error 2)"
    );
}

#[test]
fn instability_names_path_and_attempts() {
    let error = InconsistentReadError::Unstable { path: String::from("/proc/mounts"), attempts: 2 };
    assert_eq!(
        error.message(),
        "failed to get a consistent read output from file /proc/mounts after 2 attempts"
    );
}

#[test]
fn attempts_are_written_in_decimal() {
    for attempts in [0u32, 1, 9, 10, 11, 99, 100, 101, 1000, 12345, 4294967295] {
        let error = InconsistentReadError::Unstable { path: String::from("f"), attempts };
        assert_eq!(
            error.message(),
            format!("failed to get a consistent read output from file f after {} attempts", attempts)
        );
    }
}

#[test]
fn empty_path_and_cause_are_kept() {
    let error = InconsistentReadError::Io { path: String::new(), cause: String::new() };
    assert_eq!(error.message(), "failed to read file at : ");
}

#[test]
fn non_ascii_path_is_kept() {
    let error = InconsistentReadError::Io {
        path: String::from("/tmp/dønn/файл"),
        cause: String::from("нет доступа"),
    };
    assert_eq!(error.message(), "failed to read file at /tmp/dønn/файл: нет доступа");
}

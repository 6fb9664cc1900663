use line_reader::outcome::{after_open, after_read, reply, FailureKind, IoFailure, OperationError, Phase};

fn failure(kind: FailureKind, detail: &str) -> IoFailure {
    IoFailure { kind, detail: detail.to_string() }
}

#[test]
fn missing_file_is_an_open_failure_not_found() {
    let r = after_open(Err(failure(FailureKind::NotFound, "No such file or directory (os error 2)")));
    let e = r.unwrap_err();
    assert_eq!(e.phase, Phase::Open);
    assert_eq!(e.kind, FailureKind::NotFound);
    assert_eq!(e.detail, "No such file or directory (os error 2)");
    assert_eq!(
        e.message(),
        "failed to open file: [NotFound] No such file or directory (os error 2)"
    );
}

#[test]
fn denied_file_is_an_open_failure_permission_denied() {
    let r = after_open(Err(failure(FailureKind::PermissionDenied, "Permission denied (os error 13)")));
    let e = r.unwrap_err();
    assert_eq!(e.phase, Phase::Open);
    assert_eq!(e.kind, FailureKind::PermissionDenied);
    assert_eq!(
        e.message(),
        "failed to open file: [PermissionDenied] Permission denied (os error 13)"
    );
}

#[test]
fn opened_file_goes_on() {
    assert_eq!(after_open(Ok(())), Ok(()));
}

#[test]
fn undecodable_text_is_a_read_failure() {
    let r = after_read(Err(failure(FailureKind::InvalidData, "stream did not contain valid UTF-8")));
    let e = r.unwrap_err();
    assert_eq!(e.phase, Phase::Read);
    assert_eq!(e.kind, FailureKind::InvalidData);
    assert_eq!(e.message(), "failed to read file: [InvalidData] stream did not contain valid UTF-8");
}

#[test]
fn other_classification_keeps_its_name() {
    let r = after_open(Err(failure(FailureKind::Other("IsADirectory".to_string()), "Is a directory (os error 21)")));
    let e = r.unwrap_err();
    assert_eq!(e.kind.name(), "IsADirectory");
    assert_eq!(e.message(), "failed to open file: [IsADirectory] Is a directory (os error 21)");
}

#[test]
fn kind_names() {
    assert_eq!(FailureKind::NotFound.name(), "NotFound");
    assert_eq!(FailureKind::PermissionDenied.name(), "PermissionDenied");
    assert_eq!(FailureKind::InvalidData.name(), "InvalidData");
}

#[test]
fn read_text_is_split_into_lines() {
    let r = after_read(Ok("one\ntwo\r\nthree\n".to_string()));
    assert_eq!(r, Ok(vec!["one".to_string(), "two".to_string(), "three".to_string()]));
}

#[test]
fn empty_file_gives_no_lines() {
    assert_eq!(after_read(Ok(String::new())), Ok(Vec::new()));
}

#[test]
fn one_line_file_gives_that_line() {
    assert_eq!(after_read(Ok("only line".to_string())), Ok(vec!["only line".to_string()]));
}

#[test]
fn reply_hands_lines_through() {
    let lines = vec!["a".to_string(), "b".to_string()];
    assert_eq!(reply(Ok(lines.clone())), Ok(lines));
}

#[test]
fn reply_gives_the_error_message() {
    let e = OperationError {
        phase: Phase::Read,
        kind: FailureKind::Other("Interrupted".to_string()),
        detail: "operation interrupted".to_string(),
    };
    assert_eq!(
        reply(Err(e)),
        Err("failed to read file: [Interrupted] operation interrupted".to_string())
    );
}

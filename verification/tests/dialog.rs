use otter::dialog::{helper_failure, parse_selection, DialogError, DialogRequest, CHILD_FLAG};

fn round_trip(request: &DialogRequest) -> DialogRequest {
    DialogRequest::parse_args(request.to_args()).expect("arguments should parse back")
}

#[test]
fn requests_survive_the_argument_round_trip() {
    assert_eq!(round_trip(&DialogRequest::OpenInput), DialogRequest::OpenInput);

    let save = DialogRequest::SaveOutput {
        directory: Some("/tmp/a dir with spaces".to_owned()),
        file_name: Some("clip -v2.transcoded.mp4".to_owned()),
    };
    assert_eq!(round_trip(&save), save);

    let bare = DialogRequest::SaveOutput { directory: None, file_name: None };
    assert_eq!(round_trip(&bare), bare);
}

#[test]
fn rejects_arguments_that_are_not_a_dialog_request() {
    let strings = |values: &[&str]| values.iter().map(|value| value.to_string()).collect::<Vec<_>>();
    for args in [
        strings(&[]),
        strings(&["--help"]),
        strings(&[CHILD_FLAG]),
        strings(&[CHILD_FLAG, "browse"]),
        strings(&[CHILD_FLAG, "open", "/etc/passwd"]),
        strings(&[CHILD_FLAG, "save", "--directory"]),
    ] {
        assert!(DialogRequest::parse_args(args).is_err());
    }
}

#[test]
fn empty_helper_output_means_cancelled() {
    assert_eq!(parse_selection(String::new()), None);
    assert_eq!(parse_selection("/tmp/my clip.mp4".to_owned()), Some("/tmp/my clip.mp4".to_owned()));
}

#[test]
fn a_failing_helper_reports_its_error_output() {
    assert!(matches!(helper_failure("  boom \n"), DialogError::Helper(message) if message == "boom"));
    assert!(matches!(
        helper_failure(""),
        DialogError::Helper(message) if message == "the helper process exited with an error"
    ));
}

use image_to_tetris::utils::{check_command_result, UtilsError};

#[test]
fn exit_status_zero_is_success() {
    assert!(check_command_result(Some(0), b"warnings are fine").is_ok());
}

#[test]
fn other_exit_status_carries_the_error_output() {
    match check_command_result(Some(1), b"no such file") {
        Err(UtilsError::CommandError(text)) => assert_eq!(text, "no such file"),
        Ok(()) => panic!("a failed command was taken for a success"),
    }
    // a command killed by a signal has no status code
    assert!(matches!(check_command_result(None, b""), Err(UtilsError::CommandError(text)) if text.is_empty()));
}

#[test]
fn invalid_utf8_in_the_error_output_is_replaced() {
    match check_command_result(Some(2), &[0xff, b'a']) {
        Err(UtilsError::CommandError(text)) => assert_eq!(text, "\u{FFFD}a"),
        Ok(()) => panic!("a failed command was taken for a success"),
    }
}

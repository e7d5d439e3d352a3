use i3lockr::handoff::forking;
use i3lockr::handoff::status_to_result;
use i3lockr::handoff::ExitFailure;

#[test]
fn nofork() {
    assert!(forking(&vec![
        "-n".to_string(),
        "--insidecolor=542095ff".to_string(),
        "--ringcolor=ffffffff".to_string(),
        "--line-uses-inside".to_string(),
    ]));
    assert!(!forking(&vec![
        "--insidecolor=542095ff".to_string(),
        "--ringcolor=ffffffff".to_string(),
        "--line-uses-inside".to_string(),
    ]));
    assert!(forking(&vec![
        "--insidecolor=542095ff".to_string(),
        "--ringcolor=ffffffff".to_string(),
        "-en".to_string(),
        "--line-uses-inside".to_string(),
    ]));
    assert!(!forking(&vec![
        "--ringcolor=ffffffff".to_string(),
        "-e".to_string(),
        "--insidecolor=542095ff".to_string(),
        "--line-uses-inside".to_string(),
    ]));
}

#[test]
fn forking_long_option_exact() {
    assert!(forking(&vec!["--nofork".to_string()]));
    // A long option other than --nofork never counts, even with an `n` in it.
    assert!(!forking(&vec!["--notify".to_string()]));
}

#[test]
fn exit_status_success() {
    assert_eq!(status_to_result(true, None, None), Ok(()));
    assert_eq!(status_to_result(true, Some(0), None), Ok(()));
}

#[test]
fn exit_status_code() {
    assert_eq!(status_to_result(false, Some(3), None), Err(ExitFailure::Code(3)));
    assert_eq!(status_to_result(false, Some(1), Some(9)), Err(ExitFailure::Code(1)));
}

#[test]
fn exit_status_signal() {
    assert_eq!(status_to_result(false, None, Some(9)), Err(ExitFailure::Signal(9)));
}

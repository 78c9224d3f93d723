use catr::config::is_stdin_name;
use catr::{Config, Mode, UsageError};

#[test]
fn conflicting_flags_rejected() {
    let r = Config::new(vec!["a".to_string()], true, true);
    assert_eq!(r.err(), Some(UsageError::ConflictingNumberFlags));
}

#[test]
fn flag_to_mode() {
    let files = || vec!["a".to_string(), "b".to_string()];
    let plain = Config::new(files(), false, false).ok().unwrap();
    assert_eq!(plain.mode, Mode::Plain);
    assert_eq!(plain.files, files());
    let all = Config::new(files(), true, false).ok().unwrap();
    assert_eq!(all.mode, Mode::NumberAll);
    assert_eq!(all.files, files());
    let nonblank = Config::new(files(), false, true).ok().unwrap();
    assert_eq!(nonblank.mode, Mode::NumberNonBlank);
    assert_eq!(nonblank.files, files());
}

#[test]
fn no_files_defaults_to_stdin() {
    let c = Config::new(Vec::new(), false, false).ok().unwrap();
    assert_eq!(c.files, vec!["-".to_string()]);
}

#[test]
fn stdin_sentinel() {
    assert!(is_stdin_name("-"));
    assert!(!is_stdin_name(""));
    assert!(!is_stdin_name("--"));
    assert!(!is_stdin_name("file.txt"));
}

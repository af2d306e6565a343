use throttle::backend::synthetic::{
    display_name, file_name, is_shapable, is_system, SYSTEM_EXE, UNKNOWN_EXE,
};

#[test]
fn only_the_unknown_row_is_unshapable() {
    assert!(!is_shapable(UNKNOWN_EXE));
    assert!(is_shapable(SYSTEM_EXE));
    assert!(is_system(SYSTEM_EXE));
    assert!(!is_system(UNKNOWN_EXE));
    assert!(is_shapable("c:\\app\\thing.exe"));
}

#[test]
fn file_name_handles_windows_paths() {
    assert_eq!(file_name("c:\\a\\b\\thing.exe"), "thing.exe");
    assert_eq!(file_name("/usr/bin/curl"), "curl");
    assert_eq!(file_name("bare.exe"), "bare.exe");
    assert_eq!(display_name(UNKNOWN_EXE), "Unknown");
    assert_eq!(display_name(SYSTEM_EXE), "System");
}

#[test]
fn a_path_that_ends_in_a_separator_has_no_file_name() {
    assert_eq!(file_name("c:\\a\\"), "");
    assert_eq!(display_name("c:/a\\größe.exe"), "größe.exe");
}

use flowsight_agent::crash_guard::{
    exception_code_name, exception_disposition, install, module_file_name, Disposition,
    EXCEPTION_ACCESS_VIOLATION, EXCEPTION_ILLEGAL_INSTRUCTION,
};

#[test]
fn foreign_hardware_faults_are_contained() {
    let d = exception_disposition(EXCEPTION_ILLEGAL_INSTRUCTION, 0x9000, 0x1000, 0x2000);
    assert_eq!(d, Disposition::ContainThread);
    let d = exception_disposition(EXCEPTION_ACCESS_VIOLATION, 0x500, 0x1000, 0x2000);
    assert_eq!(d, Disposition::ContainThread);
}

#[test]
fn own_module_faults_surface() {
    let d = exception_disposition(EXCEPTION_ACCESS_VIOLATION, 0x1800, 0x1000, 0x2000);
    assert_eq!(d, Disposition::ContinueSearch);
    let d = exception_disposition(EXCEPTION_ACCESS_VIOLATION, 0x1000, 0x1000, 0x2000);
    assert_eq!(d, Disposition::ContinueSearch);
    let d = exception_disposition(EXCEPTION_ACCESS_VIOLATION, 0x2000, 0x1000, 0x2000);
    assert_eq!(d, Disposition::ContainThread);
}

#[test]
fn unknown_own_range_counts_as_foreign() {
    let d = exception_disposition(EXCEPTION_ILLEGAL_INSTRUCTION, 0x10, 0, 0x100);
    assert_eq!(d, Disposition::ContainThread);
}

#[test]
fn other_exception_codes_are_left_alone() {
    let d = exception_disposition(0x8000_0003, 0x9000, 0x1000, 0x2000);
    assert_eq!(d, Disposition::ContinueSearch);
}

#[test]
fn code_names_match_the_codes() {
    assert_eq!(exception_code_name(EXCEPTION_ILLEGAL_INSTRUCTION), "EXCEPTION_ILLEGAL_INSTRUCTION");
    assert_eq!(exception_code_name(EXCEPTION_ACCESS_VIOLATION), "EXCEPTION_ACCESS_VIOLATION");
}

#[test]
fn module_file_name_takes_last_component() {
    assert_eq!(module_file_name("C:\\Program Files\\Astrill\\ASProxy64.dll"), "ASProxy64.dll");
    assert_eq!(module_file_name("/usr/lib/libfoo.so"), "libfoo.so");
    assert_eq!(module_file_name("plain.dll"), "plain.dll");
    assert_eq!(module_file_name("dir/"), "");
    assert_eq!(module_file_name("a\\b/c"), "c");
}

#[test]
fn install_is_a_no_op_here() {
    install();
    install();
}

#![allow(non_snake_case)]

use usvfs::{
    create_vfs, disconnect_vfs, init_logging, CrashDumpsType, LogLevel, Parameters, Vfs,
};

#[test]
fn rawBindings() {
    let testParams = Parameters::new();
    testParams.free_parameters();
}

#[test]
fn rawName() {
    let mut p = Parameters::new();
    p.set_instance_name("").expect("Cstring");
    p.free_parameters();
}

#[test]
fn rawMode() {
    let mut p = Parameters::new();
    p.set_debug_mode(false);
    p.free_parameters();
}

#[test]
fn rawLevel() {
    let mut p = Parameters::new();
    p.set_log_level(LogLevel::Debug);
    p.free_parameters();
}

#[test]
fn rawType() {
    let mut p = Parameters::new();
    p.set_crash_dumps_type(CrashDumpsType::Full);
    p.free_parameters();
}

#[test]
fn rawPath() {
    let mut p = Parameters::new();
    p.set_crash_dumps_path("").expect("CString failed");
    p.free_parameters();
}

#[test]
fn rawDelay() {
    let mut p = Parameters::new();
    p.set_process_delay(5).unwrap();
    p.free_parameters();
}

#[test]
fn stringRepr() {
    let debug = LogLevel::Debug;
    let info = LogLevel::Info;
    let warning = LogLevel::Warning;
    let error = LogLevel::Error;

    let nil = CrashDumpsType::Nil;
    let mini = CrashDumpsType::Mini;
    let data = CrashDumpsType::Data;
    let full = CrashDumpsType::Full;

    assert_eq!(debug.to_string(), "debug");
    assert_eq!(info.to_string(), "info");
    assert_eq!(warning.to_string(), "warning");
    assert_eq!(error.to_string(), "error");

    assert_eq!(nil.to_string(), "none");
    assert_eq!(mini.to_string(), "mini");
    assert_eq!(data.to_string(), "data");
    assert_eq!(full.to_string(), "full");
}

#[test]
fn parameters() {
    let mut testParams = Parameters::new();
    testParams.set_instance_name("testInstance").unwrap();
    testParams.set_debug_mode(false);
    testParams.set_log_level(LogLevel::Debug);
    testParams.set_crash_dumps_type(CrashDumpsType::Full);
    testParams.set_crash_dumps_path("").unwrap();
    testParams
        .set_process_delay(std::time::Duration::new(1, 0).as_millis() as u64)
        .unwrap();
    assert_eq!(testParams.process_delay_ms, 1000);
    testParams.free_parameters();
}

#[test]
fn startAndStop() {
    let mut vfs = Vfs::new();
    let mut testParams = Parameters::new();
    testParams.set_instance_name("test").unwrap();
    testParams.set_debug_mode(false);
    testParams.set_log_level(LogLevel::Debug);
    testParams.set_crash_dumps_type(CrashDumpsType::Nil);
    testParams.set_crash_dumps_path("").unwrap();

    init_logging(&mut vfs, false);
    create_vfs(&mut vfs, &testParams).expect("Failed to create VFS");
    disconnect_vfs(&mut vfs);
    testParams.free_parameters();
}

use devscout_cleaner::paths::{is_protected_process, path_reference_matches};
use devscout_cleaner::utf16::{registry_data_to_string, REG_SZ};

#[test]
fn matches_quoted_uninstall_command() {
    assert!(path_reference_matches(
        "\"D:\\toss pc\\QuarkCloudDrive\\unins000.exe\" --brand-clouddrive /SILENT",
        "d:\\toss pc\\quarkclouddrive",
        &[]
    ));
}

#[test]
fn rejects_similar_prefix() {
    assert!(!path_reference_matches(
        "D:\\toss pc\\QuarkCloudDriveBackup\\unins000.exe",
        "d:\\toss pc\\quarkclouddrive",
        &[]
    ));
}

#[test]
fn decodes_registry_string_values() {
    let bytes: Vec<u8> = "D:\\apps\\demo\\demo.exe\0"
        .encode_utf16()
        .flat_map(u16::to_le_bytes)
        .collect();
    assert_eq!(
        registry_data_to_string(REG_SZ, &bytes, &[]),
        Some("D:\\apps\\demo\\demo.exe".to_string())
    );
}

#[test]
fn protects_system_processes_from_force_delete() {
    let current_pid = 1000;
    assert!(is_protected_process(4, "System", current_pid));
    assert!(is_protected_process(12345, "svchost.exe", current_pid));
}

use devscout_cleaner::paths::{
    classify_registry_reference, expand_environment, is_explorer, normalize_path,
    path_reference_matches, process_basename, sanitize_filename,
};
use devscout_cleaner::ui::{clean_target_input, is_protected_directory, protected_directories};

fn env(pairs: &[(&str, &str)]) -> Vec<(String, String)> {
    pairs.iter().map(|(k, v)| (k.to_string(), v.to_string())).collect()
}

#[test]
fn normalize_path_uses_backslashes_and_lowercase() {
    assert_eq!(normalize_path("C:/Program Files/Demo/"), "c:\\program files\\demo");
    assert_eq!(normalize_path("D:\\Apps\\\\"), "d:\\apps");
    assert_eq!(normalize_path("\\\\"), "");
    assert_eq!(normalize_path("É:\\X"), "É:\\x");
}

#[test]
fn normalize_path_is_idempotent() {
    for value in ["C:/A/B/", "d:\\x\\\\", "", "/", "Mixed\\Case/Path"] {
        let once = normalize_path(value);
        assert_eq!(normalize_path(&once), once);
    }
}

#[test]
fn expands_environment_variables_in_order() {
    let vars = env(&[("ProgramFiles", "C:\\Program Files"), ("APP", "%ProgramFiles%\\App")]);
    assert_eq!(
        expand_environment("%ProgramFiles%\\Demo", &vars),
        "C:\\Program Files\\Demo"
    );
    // A later variable's value is not expanded again by an earlier one.
    assert_eq!(expand_environment("%APP%", &vars), "%ProgramFiles%\\App");
    assert_eq!(expand_environment("100% sure", &vars), "100% sure");
}

#[test]
fn reference_to_the_target_itself_matches() {
    assert!(path_reference_matches("D:\\Apps\\Demo", "d:\\apps\\demo", &[]));
    assert!(path_reference_matches("\"D:/Apps/Demo/\"", "d:\\apps\\demo", &[]));
}

#[test]
fn reference_inside_the_target_matches() {
    assert!(path_reference_matches("D:\\Apps\\Demo\\bin\\demo.exe", "d:\\apps\\demo", &[]));
    assert!(path_reference_matches("%ROOT%\\Demo\\demo.exe", "d:\\apps\\demo", &env(&[("ROOT", "D:\\Apps")])));
}

#[test]
fn reference_to_other_directories_does_not_match() {
    assert!(!path_reference_matches("D:\\Apps\\Other\\demo.exe", "d:\\apps\\demo", &[]));
    assert!(!path_reference_matches("D:\\Apps", "d:\\apps\\demo", &[]));
    assert!(!path_reference_matches("D:\\Apps\\Demo2", "d:\\apps\\demo", &[]));
}

#[test]
fn reference_followed_by_arguments_matches() {
    assert!(path_reference_matches("D:\\Apps\\Demo /uninstall", "d:\\apps\\demo", &[]));
    assert!(path_reference_matches("D:\\Apps\\Demo,0", "d:\\apps\\demo", &[]));
}

#[test]
fn classifies_certain_references() {
    let target = "d:\\apps\\demo";
    assert_eq!(classify_registry_reference("卸载项 InstallLocation", "InstallLocation", "D:\\Apps\\Demo\\", target, &[]), (true, true));
    assert_eq!(classify_registry_reference("卸载项 InstallLocation", "UninstallString", "\"D:\\Apps\\Demo\\unins000.exe\"", target, &[]), (true, true));
    assert_eq!(classify_registry_reference("卸载项 InstallLocation", "QuietUninstallString", "D:\\Apps\\Demo\\u.exe /S", target, &[]), (true, true));
    assert_eq!(classify_registry_reference("App Paths 程序路径", "", "D:\\Apps\\Demo\\demo.exe", target, &[]), (true, true));
    assert_eq!(classify_registry_reference("App Paths 程序路径", "Path", "D:\\Apps\\Demo", target, &[]), (true, true));
}

#[test]
fn classifies_uncertain_and_unrelated_values() {
    let target = "d:\\apps\\demo";
    assert_eq!(classify_registry_reference("卸载项 InstallLocation", "DisplayIcon", "D:\\Apps\\Demo\\demo.exe,0", target, &[]), (true, false));
    // InstallLocation pointing inside the target is a reference, not a certain one.
    assert_eq!(classify_registry_reference("卸载项 InstallLocation", "InstallLocation", "D:\\Apps\\Demo\\bin", target, &[]), (true, false));
    assert_eq!(classify_registry_reference("软件键路径引用", "", "D:\\Apps\\Demo", target, &[]), (true, false));
    assert_eq!(classify_registry_reference("卸载项 InstallLocation", "UninstallString", "C:\\Other\\u.exe", target, &[]), (false, false));
}

#[test]
fn sanitizes_file_names() {
    assert_eq!(sanitize_filename("a\\b/c:d*e?f\"g<h>i|j"), "a_b_c_d_e_f_g_h_i_j");
    assert_eq!(sanitize_filename(""), "registry-key");
    let long: String = "x".repeat(100);
    assert_eq!(sanitize_filename(&long), "x".repeat(80));
    assert_eq!(sanitize_filename("夸克网盘"), "夸克网盘");
}

#[test]
fn sanitizing_twice_changes_nothing() {
    for value in ["", "a/b", "plain", &"é:".repeat(60)] {
        let once = sanitize_filename(value);
        assert_eq!(sanitize_filename(&once), once);
    }
}

#[test]
fn process_basename_takes_the_last_component() {
    assert_eq!(process_basename("C:\\Windows\\explorer.exe"), "explorer.exe");
    assert_eq!(process_basename("a/b\\c/d"), "d");
    assert_eq!(process_basename("svchost.exe"), "svchost.exe");
    assert_eq!(process_basename("dir\\"), "");
}

#[test]
fn recognises_explorer() {
    assert!(is_explorer("C:\\Windows\\EXPLORER.EXE"));
    assert!(is_explorer("explorer"));
    assert!(!is_explorer("iexplorer.exe"));
}

#[test]
fn cleans_the_typed_target() {
    assert_eq!(clean_target_input("  \"D:\\Apps\\Demo\"  "), "D:\\Apps\\Demo");
    assert_eq!(clean_target_input("\t\"\"x\"\"\n"), "x");
    assert_eq!(clean_target_input("   "), "");
}

#[test]
fn protected_directories_use_defaults_and_compare_normalised() {
    let dirs = protected_directories(Some("C:\\WINDOWS".to_string()), None, None, None);
    assert_eq!(
        dirs,
        vec![
            "C:\\WINDOWS".to_string(),
            "C:\\Program Files".to_string(),
            "C:\\Program Files (x86)".to_string(),
            "C:\\Users".to_string(),
            "C:\\ProgramData".to_string(),
        ]
    );
    assert!(is_protected_directory("c:/windows/", &dirs));
    assert!(is_protected_directory("C:\\Program Files", &dirs));
    assert!(!is_protected_directory("C:\\Program Files\\Demo", &dirs));
}

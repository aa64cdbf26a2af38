use devscout_cleaner::registry::{RegistryCandidate, RegistryRoot, KEY_WOW64_32KEY, KEY_WOW64_64KEY};
use devscout_cleaner::ui::{
    cancel_message, candidate_category, candidate_state_image, check_resolved_target,
    scan_locations, selected_candidates, window_command, TargetRejection, WindowCommand,
    BN_CLICKED, CANCEL_SCAN_ID, DELETE_ID, EN_CHANGE, INPUT_ID, OPEN_BACKUP_ID, SCAN_ID,
    STATE_CHECKED, STATE_UNCHECKED,
};

fn item(name: &str) -> RegistryCandidate {
    RegistryCandidate {
        root: RegistryRoot::LocalMachine,
        view: KEY_WOW64_64KEY,
        sub_key: format!("Software\\{name}"),
        display_name: name.to_string(),
        reason: "r".to_string(),
        certain: false,
        selected: true,
    }
}

#[test]
fn decodes_command_messages() {
    let w = |id: usize, notify: u16| id | ((notify as usize) << 16);
    assert_eq!(window_command(w(INPUT_ID, EN_CHANGE)), WindowCommand::ClearScan);
    assert_eq!(window_command(w(SCAN_ID, BN_CLICKED)), WindowCommand::Scan);
    assert_eq!(window_command(w(CANCEL_SCAN_ID, BN_CLICKED)), WindowCommand::CancelScan);
    assert_eq!(window_command(w(DELETE_ID, BN_CLICKED)), WindowCommand::Delete);
    assert_eq!(window_command(w(OPEN_BACKUP_ID, BN_CLICKED)), WindowCommand::OpenBackupDirectory);
    assert_eq!(window_command(w(SCAN_ID, EN_CHANGE)), WindowCommand::Ignore);
    assert_eq!(window_command(w(INPUT_ID, BN_CLICKED)), WindowCommand::Ignore);
}

#[test]
fn keeps_only_checked_items() {
    let cands = vec![item("A"), item("B"), item("C")];
    let states = [STATE_CHECKED | 0x3, STATE_UNCHECKED, 0x2000];
    let chosen = selected_candidates(&cands, &states);
    let names: Vec<&str> = chosen.iter().map(|c| c.display_name.as_str()).collect();
    assert_eq!(names, vec!["A", "C"]);
    assert!(selected_candidates(&cands, &[]).is_empty());
}

#[test]
fn list_labels() {
    assert_eq!(candidate_category(true), "确定垃圾");
    assert_eq!(candidate_category(false), "可疑");
    assert_eq!(candidate_state_image(true), STATE_CHECKED);
    assert_eq!(candidate_state_image(false), STATE_UNCHECKED);
    assert_eq!(cancel_message(true), "扫描已取消。请拖入文件夹，或输入路径后重新扫描。");
    assert_eq!(cancel_message(false), "当前没有正在进行的扫描。");
}

#[test]
fn resolved_targets_are_checked() {
    let protected = vec!["C:\\Windows".to_string()];
    assert!(matches!(check_resolved_target("D:\\Demo", false, true, &protected), Some(TargetRejection::NotDirectory)));
    assert!(matches!(check_resolved_target("D:\\", true, false, &protected), Some(TargetRejection::Protected)));
    assert!(matches!(check_resolved_target("c:/windows", true, true, &protected), Some(TargetRejection::Protected)));
    assert!(check_resolved_target("D:\\Demo", true, true, &protected).is_none());
    assert_eq!(TargetRejection::NotAbsolute.message(), "请输入绝对路径。");
    assert_eq!(TargetRejection::Unreachable("gone".to_string()).message(), "无法访问目录：gone");
}

#[test]
fn scan_locations_cover_both_hives_and_views() {
    let locations = scan_locations();
    assert_eq!(locations.len(), 12);
    assert_eq!(locations[0].base, "Software\\Microsoft\\Windows\\CurrentVersion\\Uninstall");
    assert_eq!(locations[1].view, KEY_WOW64_32KEY);
    assert_eq!(locations[2].root, RegistryRoot::LocalMachine);
    assert_eq!(locations[4].category, "App Paths 程序路径");
    assert_eq!(locations[11].base, "Software");
    assert_eq!(locations[11].category, "软件键路径引用");
}

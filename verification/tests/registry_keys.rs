use devscout_cleaner::candidates::{
    collect_registry_candidates, finish_registry_scan, merge_registry_candidate,
    scan_registry_for_target,
};
use devscout_cleaner::registry::{
    contains_target_signal, evaluate_registry_key, registry_full_name, registry_location_depth,
    registry_root_label, registry_view_flag, registry_view_label, target_signals,
    RegistryCandidate, RegistryRoot, KEY_WOW64_32KEY, KEY_WOW64_64KEY,
};
use devscout_cleaner::utf16::{
    from_wide, registry_data_to_string, wide, REG_EXPAND_SZ, REG_MULTI_SZ, REG_SZ,
};

fn utf16_bytes(text: &str) -> Vec<u8> {
    text.encode_utf16().flat_map(u16::to_le_bytes).collect()
}

fn candidate(root: RegistryRoot, view: u32, sub_key: &str, reason: &str, certain: bool) -> RegistryCandidate {
    RegistryCandidate {
        root,
        view,
        sub_key: sub_key.to_string(),
        display_name: sub_key.rsplit('\\').next().unwrap().to_string(),
        reason: reason.to_string(),
        certain,
        selected: true,
    }
}

#[test]
fn wide_strings_are_nul_terminated_utf16() {
    assert_eq!(wide("Ab"), vec![0x41, 0x62, 0]);
    assert_eq!(wide("夸"), vec![0x5938, 0]);
    assert_eq!(wide("😀"), vec![0xD83D, 0xDE00, 0]);
    assert_eq!(wide(""), vec![0]);
}

#[test]
fn from_wide_reads_up_to_the_first_nul() {
    assert_eq!(from_wide(&[0x41, 0x62, 0, 0x63]), "Ab");
    assert_eq!(from_wide(&[0x41, 0x62]), "Ab");
    assert_eq!(from_wide(&[0]), "");
    assert_eq!(from_wide(&[0xD83D, 0xDE00]), "😀");
}

#[test]
fn from_wide_replaces_unpaired_surrogates() {
    assert_eq!(from_wide(&[0xD83D, 0x41]), "\u{FFFD}A");
    assert_eq!(from_wide(&[0xDE00, 0x41]), "\u{FFFD}A");
    assert_eq!(from_wide(&[0x41, 0xD800]), "A\u{FFFD}");
}

#[test]
fn from_wide_reads_back_wide() {
    for text in ["", "D:\\toss pc\\QuarkCloudDrive", "夸克网盘", "emoji 😀 mix", "\u{FFFF}\u{10000}"] {
        assert_eq!(from_wide(&wide(text)), text);
    }
}

#[test]
fn registry_string_values_are_trimmed() {
    let bytes = utf16_bytes("  D:\\Apps\\Demo \t\0garbage");
    assert_eq!(registry_data_to_string(REG_SZ, &bytes, &[]), Some("D:\\Apps\\Demo".to_string()));
}

#[test]
fn registry_multi_strings_are_joined() {
    let bytes = utf16_bytes("first\0\0second\0third\0\0");
    assert_eq!(
        registry_data_to_string(REG_MULTI_SZ, &bytes, &[]),
        Some("first;second;third".to_string())
    );
}

#[test]
fn registry_expandable_strings_are_expanded() {
    let bytes = utf16_bytes("%ROOT%\\Demo\0");
    let env = vec![("ROOT".to_string(), "D:\\Apps".to_string())];
    assert_eq!(registry_data_to_string(REG_EXPAND_SZ, &bytes, &env), Some("D:\\Apps\\Demo".to_string()));
    // Plain strings are not expanded.
    assert_eq!(registry_data_to_string(REG_SZ, &bytes, &env), Some("%ROOT%\\Demo".to_string()));
}

#[test]
fn registry_values_without_text() {
    assert_eq!(registry_data_to_string(4, &[1, 0, 0, 0], &[]), None);
    assert_eq!(registry_data_to_string(REG_SZ, &[0x41], &[]), Some(String::new()));
    assert_eq!(registry_data_to_string(REG_SZ, &[0x41, 0, 0x42], &[]), Some("A".to_string()));
}

#[test]
fn labels_of_hives_and_views() {
    assert_eq!(registry_root_label(RegistryRoot::CurrentUser), "HKCU");
    assert_eq!(registry_root_label(RegistryRoot::LocalMachine), "HKLM");
    assert_eq!(registry_view_label(KEY_WOW64_32KEY), "32 位");
    assert_eq!(registry_view_label(KEY_WOW64_64KEY), "64 位");
    assert_eq!(registry_view_flag(KEY_WOW64_32KEY), "/reg:32");
    assert_eq!(registry_view_flag(0), "/reg:64");
}

#[test]
fn full_names_start_with_the_hive() {
    let c = candidate(RegistryRoot::LocalMachine, KEY_WOW64_64KEY, "Software\\Demo", "r", false);
    assert_eq!(registry_full_name(&c), "HKLM\\Software\\Demo");
}

#[test]
fn location_depths() {
    assert_eq!(registry_location_depth("软件键路径引用"), 4);
    assert_eq!(registry_location_depth("卸载项 InstallLocation"), 1);
}

#[test]
fn finds_program_signals() {
    let signals = vec!["quarkclouddrive".to_string(), "qclouddrive".to_string()];
    assert_eq!(
        contains_target_signal("Software\\Quark_Cloud-Drive", &signals),
        Some("quarkclouddrive".to_string())
    );
    assert_eq!(contains_target_signal("\"Q Cloud Drive\"", &signals), Some("qclouddrive".to_string()));
    assert_eq!(contains_target_signal("Other", &signals), None);
}

#[test]
fn target_signals_are_sorted_and_filtered() {
    let entries: Vec<String> = ["Quark.exe", "unins000.exe", "Cloud_Drive.EXE", "readme.txt", ".exe", "tool.exe", "Quark.exe"]
        .iter()
        .map(|s| s.to_string())
        .collect();
    assert_eq!(
        target_signals(Some("Quark Cloud-Drive"), &entries),
        vec!["clouddrive".to_string(), "quark".to_string(), "quarkclouddrive".to_string()]
    );
    assert_eq!(target_signals(None, &[]), Vec::<String>::new());
    // Five bytes of UTF-8 are enough even with fewer characters.
    assert_eq!(target_signals(Some("夸克"), &[]), vec!["夸克".to_string()]);
}

#[test]
fn evaluates_an_uninstall_key() {
    let values = vec![
        ("DisplayName".to_string(), "夸克网盘".to_string()),
        ("InstallLocation".to_string(), "D:\\toss pc\\QuarkCloudDrive".to_string()),
        ("Publisher".to_string(), "Quark".to_string()),
    ];
    let signals = vec!["quarkclouddrive".to_string()];
    let c = evaluate_registry_key(
        RegistryRoot::CurrentUser,
        KEY_WOW64_64KEY,
        "Software\\Microsoft\\Windows\\CurrentVersion\\Uninstall\\QuarkCloudDrive",
        &values,
        "卸载项 InstallLocation",
        "d:\\toss pc\\quarkclouddrive",
        &signals,
        &[],
    )
    .expect("a candidate");
    assert_eq!(c.display_name, "夸克网盘");
    assert!(c.certain);
    assert!(c.selected);
    assert_eq!(
        c.reason,
        "注册表键名包含程序标识 quarkclouddrive；InstallLocation 强匹配目标目录；InstallLocation 包含程序标识 quarkclouddrive"
    );
    assert!(c.reason.contains("InstallLocation"));
}

#[test]
fn unrelated_keys_yield_no_candidate() {
    let values = vec![("DisplayName".to_string(), "Other".to_string())];
    assert!(evaluate_registry_key(
        RegistryRoot::LocalMachine,
        KEY_WOW64_32KEY,
        "Software\\Other",
        &values,
        "软件键路径引用",
        "d:\\apps\\demo",
        &["demoapp".to_string()],
        &[],
    )
    .is_none());
}

#[test]
fn key_name_is_the_display_name_by_default() {
    let values = vec![("DisplayIcon".to_string(), "D:\\Apps\\Demo\\demo.exe".to_string())];
    let c = evaluate_registry_key(
        RegistryRoot::LocalMachine,
        KEY_WOW64_32KEY,
        "Software\\Vendor\\DemoKey",
        &values,
        "软件键路径引用",
        "d:\\apps\\demo",
        &[],
        &[],
    )
    .expect("a candidate");
    assert_eq!(c.display_name, "DemoKey");
    assert!(!c.certain);
    assert_eq!(c.reason, "DisplayIcon 路径引用目标目录");
}

#[test]
fn merging_joins_findings_for_the_same_key() {
    let mut list = Vec::new();
    merge_registry_candidate(&mut list, candidate(RegistryRoot::CurrentUser, KEY_WOW64_64KEY, "Software\\Demo", "a", false));
    merge_registry_candidate(&mut list, candidate(RegistryRoot::CurrentUser, KEY_WOW64_64KEY, "SOFTWARE\\demo", "b", true));
    merge_registry_candidate(&mut list, candidate(RegistryRoot::CurrentUser, KEY_WOW64_32KEY, "Software\\Demo", "c", false));
    assert_eq!(list.len(), 2);
    assert_eq!(list[0].reason, "a；b");
    assert!(list[0].certain);
    assert_eq!(list[0].sub_key, "Software\\Demo");
    assert_eq!(list[1].reason, "c");
}

#[test]
fn merging_the_same_finding_twice_changes_nothing() {
    let mut list = vec![candidate(RegistryRoot::LocalMachine, KEY_WOW64_64KEY, "Software\\X", "x", false)];
    let found = candidate(RegistryRoot::LocalMachine, KEY_WOW64_64KEY, "software\\x", "y", true);
    merge_registry_candidate(&mut list, found.clone());
    let once: Vec<(String, bool)> = list.iter().map(|c| (c.reason.clone(), c.certain)).collect();
    merge_registry_candidate(&mut list, found);
    let twice: Vec<(String, bool)> = list.iter().map(|c| (c.reason.clone(), c.certain)).collect();
    assert_eq!(once, twice);
    assert_eq!(twice, vec![("x；y".to_string(), true)]);
}

#[test]
fn collected_candidates_are_ordered() {
    let batches = vec![
        vec![
            candidate(RegistryRoot::LocalMachine, KEY_WOW64_64KEY, "Software\\B", "1", false),
            candidate(RegistryRoot::CurrentUser, KEY_WOW64_64KEY, "Software\\Z", "2", true),
        ],
        vec![
            candidate(RegistryRoot::CurrentUser, KEY_WOW64_64KEY, "Software\\A", "3", false),
            candidate(RegistryRoot::LocalMachine, KEY_WOW64_32KEY, "Software\\B", "4", false),
            candidate(RegistryRoot::CurrentUser, KEY_WOW64_64KEY, "software\\z", "5", false),
        ],
    ];
    let out = collect_registry_candidates(batches);
    let names: Vec<(String, u32, bool)> =
        out.iter().map(|c| (registry_full_name(c), c.view, c.certain)).collect();
    assert_eq!(
        names,
        vec![
            ("HKCU\\Software\\Z".to_string(), KEY_WOW64_64KEY, true),
            ("HKCU\\Software\\A".to_string(), KEY_WOW64_64KEY, false),
            ("HKLM\\Software\\B".to_string(), KEY_WOW64_64KEY, false),
            ("HKLM\\Software\\B".to_string(), KEY_WOW64_32KEY, false),
        ]
    );
    assert_eq!(out[0].reason, "2；5");
}

#[test]
fn cancelled_scans_give_nothing() {
    let batches = vec![vec![candidate(RegistryRoot::CurrentUser, KEY_WOW64_64KEY, "Software\\A", "r", false)]];
    assert!(finish_registry_scan(batches.clone(), 7, true).is_none());
    let outcome = finish_registry_scan(batches, 7, false);
    assert_eq!(outcome.as_ref().map(|(c, n)| (c.len(), *n)), Some((1, 7)));
    assert_eq!(scan_registry_for_target(outcome).len(), 1);
    assert!(scan_registry_for_target(None).is_empty());
}

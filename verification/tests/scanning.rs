use devscout_cleaner::scan::{
    format_size, registry_progress_message, scan_summary, ProgressThrottle, ScanState,
};
use devscout_cleaner::walk::{DirectoryWalk, EntryKind, RegistryWalk, WalkAction};

fn float_text(size: u64) -> String {
    if size >= 1_073_741_824 {
        format!("{:.2} GB", size as f64 / 1_073_741_824.0)
    } else if size >= 1_048_576 {
        format!("{:.1} MB", size as f64 / 1_048_576.0)
    } else if size >= 1024 {
        format!("{:.1} KB", size as f64 / 1024.0)
    } else {
        format!("{size} B")
    }
}

#[test]
fn format_size_examples() {
    assert_eq!(format_size(0), "0 B");
    assert_eq!(format_size(1023), "1023 B");
    assert_eq!(format_size(1024), "1.0 KB");
    assert_eq!(format_size(1536), "1.5 KB");
    assert_eq!(format_size(1_048_575), "1024.0 KB");
    assert_eq!(format_size(1_048_576), "1.0 MB");
    assert_eq!(format_size(1_073_741_824), "1.00 GB");
    assert_eq!(format_size(1_610_612_736), "1.50 GB");
}

#[test]
fn format_size_rounds_ties_like_float_formatting() {
    // 1280 bytes are exactly 1.25 KB.
    assert_eq!(format_size(1280), float_text(1280));
    assert_eq!(format_size(1_342_177_280), float_text(1_342_177_280));
    assert_eq!(format_size(3 * 1_073_741_824 / 8 + 1_073_741_824), float_text(3 * 1_073_741_824 / 8 + 1_073_741_824));
}

#[test]
fn format_size_agrees_with_float_formatting() {
    let mut sizes: Vec<u64> = Vec::new();
    for k in 0..5000u64 {
        sizes.push(k);
        sizes.push(1024 * k + 512);
        sizes.push(k * 104_857 + 1_048_576);
        sizes.push(k * 10_737_418 + 1_073_741_824);
        sizes.push(k.wrapping_mul(0x9E37_79B9_7F4A_7C15));
        sizes.push(u64::MAX - k);
        sizes.push((1u64 << 53) + k * 3);
    }
    for size in sizes {
        assert_eq!(format_size(size), float_text(size), "size {size}");
    }
}

#[test]
fn progress_and_summary_texts() {
    assert_eq!(
        registry_progress_message(3, 2048, 64),
        "目录统计完成：3 个文件，2.0 KB。\n\n正在搜索注册表……\n已搜索到 64 个注册表项。"
    );
    assert_eq!(
        scan_summary("D:\\Demo", 2, 10, 5, "管理员", 0),
        "扫描完成\n\n目录：D:\\Demo\n文件：2\n大小：10 B\n已搜索注册表项：5\n当前权限：管理员\n\n注册表：未发现路径引用。\n"
    );
    assert!(scan_summary("D:\\Demo", 2, 10, 5, "普通用户", 3)
        .ends_with("注册表候选：3 项；上方为确定垃圾，下方为可疑项。\n\n"));
}

#[test]
fn scan_generations_reject_stale_messages() {
    let mut state = ScanState::new();
    let first = state.start_scan();
    assert_eq!(first, 1);
    assert!(state.accepts(first));
    let second = state.invalidate_scan();
    assert_eq!(second, 2);
    assert!(!state.accepts(first));
    assert!(!state.scan_completed(first));
    assert!(state.accepts(second));
}

#[test]
fn cancelling_reports_whether_a_scan_ran() {
    let mut state = ScanState::new();
    assert!(!state.cancel_scan_clicked());
    let g = state.start_scan();
    assert!(state.cancel_scan_clicked());
    assert!(!state.accepts(g));
    assert!(!state.cancel_active_scan());
}

#[test]
fn completing_the_current_scan_stops_it() {
    let mut state = ScanState::new();
    let g = state.start_scan();
    assert!(state.scan_completed(g));
    assert!(!state.cancel_active_scan());
}

#[test]
fn progress_is_reported_every_64_keys() {
    let mut t = ProgressThrottle::new();
    let reported: Vec<u64> = (1..=200).filter(|n| t.should_report(*n)).collect();
    assert_eq!(reported, vec![1, 65, 129, 193]);
}

#[test]
fn registry_walk_is_preorder_and_depth_limited() {
    let mut walk = RegistryWalk::new("Software", 2);
    let mut visited = Vec::new();
    let mut listed = Vec::new();
    loop {
        match walk.next_action() {
            WalkAction::ListChildren(key) => {
                listed.push(key.clone());
                let children: Vec<String> = match key.as_str() {
                    "Software" => vec!["A".into(), "B".into()],
                    "Software\\A" => vec!["A1".into(), "A2".into()],
                    _ => vec!["deep".into()],
                };
                walk.children_listed(&children);
            }
            WalkAction::Visit(key) => visited.push(key),
            WalkAction::Done => break,
        }
    }
    assert_eq!(listed, vec!["Software", "Software\\A", "Software\\B"]);
    assert_eq!(
        visited,
        vec!["Software\\A", "Software\\A\\A1", "Software\\A\\A2", "Software\\B", "Software\\B\\deep"]
    );
}

#[test]
fn registry_walk_of_depth_zero_does_nothing() {
    let mut walk = RegistryWalk::new("Software", 0);
    assert!(matches!(walk.next_action(), WalkAction::Done));
}

#[test]
fn directory_walk_counts_files() {
    let mut walk = DirectoryWalk::new("root", true);
    assert_eq!(walk.next_directory().as_deref(), Some("root"));
    walk.entry_found("root\\a.txt".to_string(), EntryKind::File, 10);
    walk.entry_found("root\\sub".to_string(), EntryKind::Directory, 0);
    walk.entry_found("root\\link".to_string(), EntryKind::Other, 99);
    assert_eq!(walk.next_directory().as_deref(), Some("root\\sub"));
    walk.entry_found("root\\sub\\b.bin".to_string(), EntryKind::File, 5);
    assert_eq!(walk.next_directory(), None);
    assert_eq!(walk.totals(), (15, 2));
    assert_eq!(walk.into_files(), vec!["root\\a.txt".to_string(), "root\\sub\\b.bin".to_string()]);
}

#[test]
fn directory_walk_without_paths_only_counts() {
    let mut walk = DirectoryWalk::new("root", false);
    walk.next_directory();
    walk.entry_found("root\\a".to_string(), EntryKind::File, 7);
    assert_eq!(walk.totals(), (7, 1));
    assert!(walk.into_files().is_empty());
}

#[test]
fn directory_walk_reads_each_directory_once() {
    let mut walk = DirectoryWalk::new("r", true);
    let mut read: Vec<String> = Vec::new();
    while let Some(d) = walk.next_directory() {
        read.push(d.clone());
        match d.as_str() {
            "r" => {
                walk.entry_found("r\\x".to_string(), EntryKind::Directory, 0);
                walk.entry_found("r\\f".to_string(), EntryKind::File, 1);
                walk.entry_found("r\\y".to_string(), EntryKind::Directory, 0);
            }
            "r\\x" => walk.entry_found("r\\x\\g".to_string(), EntryKind::File, 2),
            "r\\y" => walk.entry_found("r\\y\\h".to_string(), EntryKind::File, 4),
            _ => {}
        }
    }
    assert_eq!(read, vec!["r".to_string(), "r\\y".to_string(), "r\\x".to_string()]);
    assert_eq!(walk.totals(), (7, 3));
    assert_eq!(
        walk.into_files(),
        vec!["r\\f".to_string(), "r\\y\\h".to_string(), "r\\x\\g".to_string()]
    );
}

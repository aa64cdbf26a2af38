use devscout_cleaner::cleanup::{
    add_locking_process, backup_file_name, backup_file_prefix, backup_root_directory,
    backup_session_directory, check_delete_request, deletion_prompt, permission_label, reg_export_arguments,
    registry_delete_outcome, registry_parent_and_leaf, CleanupAction, CleanupRun,
    RegistryDeleteError, TerminationReport,
};
use devscout_cleaner::registry::{RegistryCandidate, RegistryRoot, KEY_WOW64_32KEY, KEY_WOW64_64KEY};

fn key(display: &str, view: u32) -> RegistryCandidate {
    RegistryCandidate {
        root: RegistryRoot::CurrentUser,
        view,
        sub_key: "Software\\Demo".to_string(),
        display_name: display.to_string(),
        reason: "r".to_string(),
        certain: true,
        selected: true,
    }
}

#[test]
fn backup_locations_and_names() {
    assert_eq!(backup_root_directory(Some("C:\\Tools".into()), Some("D:\\".into())), "C:\\Tools");
    assert_eq!(backup_root_directory(None, Some("D:\\".into())), "D:\\");
    assert_eq!(backup_root_directory(None, None), ".");
    assert_eq!(backup_session_directory("D:\\Apps\\Demo", "C:\\Tools".into()), "C:\\Tools");
    assert_eq!(backup_file_prefix(Some("Demo:App"), 1700000000), "DevScoutCleaner-1700000000-Demo_App");
    assert_eq!(backup_file_prefix(None, 5), "DevScoutCleaner-5-target-folder");
    assert_eq!(
        backup_file_name("P", 0, &key("Demo/App", KEY_WOW64_32KEY)),
        "P-001-HKCU-32 位-Demo_App.reg"
    );
    assert_eq!(backup_file_name("P", 1233, &key("", KEY_WOW64_64KEY)), "P-1234-HKCU-64 位-registry-key.reg");
}

#[test]
fn reg_export_arguments_name_the_key_and_view() {
    let args = reg_export_arguments(&key("Demo", KEY_WOW64_32KEY), "C:\\b\\x.reg");
    assert_eq!(args, vec!["export", "HKCU\\Software\\Demo", "C:\\b\\x.reg", "/y", "/reg:32"]);
}

#[test]
fn registry_paths_split_at_the_last_backslash() {
    match registry_parent_and_leaf("Software\\Vendor\\App") {
        Ok((parent, leaf)) => {
            assert_eq!(parent, "Software\\Vendor");
            assert_eq!(leaf, "App");
        }
        Err(_) => panic!("expected a split"),
    }
    let error = registry_parent_and_leaf("Software").err().expect("no parent");
    assert_eq!(error.message(), "注册表路径格式无效");
}

#[test]
fn registry_delete_outcomes() {
    assert!(registry_delete_outcome(0).is_ok());
    assert!(registry_delete_outcome(2).is_ok());
    let error = registry_delete_outcome(5).err().expect("access denied");
    assert_eq!(error.message(), "删除注册表键失败，错误码 5");
    assert_eq!(RegistryDeleteError::OpenFailed(87).message(), "打开注册表键失败，错误码 87");
}

#[test]
fn locking_processes_are_listed_once_per_id() {
    let mut found = Vec::new();
    add_locking_process(&mut found, 10, "a.exe".to_string());
    add_locking_process(&mut found, 11, "b.exe".to_string());
    add_locking_process(&mut found, 10, "again.exe".to_string());
    assert_eq!(found, vec![(10, "a.exe".to_string()), (11, "b.exe".to_string())]);
}

#[test]
fn termination_report_skips_protected_processes() {
    let mut report = TerminationReport::new();
    assert!(!report.consider(4, "System", 99));
    assert!(!report.consider(99, "me.exe", 99));
    assert!(report.consider(500, "C:\\Windows\\explorer.exe", 99));
    report.ended("C:\\Windows\\explorer.exe");
    assert!(report.consider(501, "tool.exe", 99));
    report.failed(501, "tool.exe", "access denied");
    let (ended, failures, explorer) = report.into_parts();
    assert_eq!(ended, 1);
    assert!(explorer);
    assert_eq!(
        failures,
        vec![
            "已跳过受保护进程 System (PID 4)".to_string(),
            "已跳过受保护进程 me.exe (PID 99)".to_string(),
            "终止 tool.exe (PID 501) 失败：access denied".to_string(),
        ]
    );
}

#[test]
fn deletion_prompt_mentions_keys_and_rights() {
    assert_eq!(deletion_prompt("D:\\Demo", 2048, 3, 0, true, true), "确定永久删除目录？\n\nD:\\Demo\n\n大小：2.0 KB，文件：3");
    assert_eq!(
        deletion_prompt("D:\\Demo", 10, 1, 2, true, false),
        "确定永久删除目录？\n\nD:\\Demo\n\n大小：10 B，文件：1\n\n同时清理 2 个已勾选注册表项（删除前备份）。\n\n当前权限：普通用户。部分文件或 HKLM 注册表项可能需要管理员权限。"
    );
    assert!(deletion_prompt("D:\\Demo", 10, 1, 1, false, true).ends_with("同时清理 1 个已勾选注册表项。\n警告：当前未启用注册表备份。"));
    assert_eq!(permission_label(true), "管理员");
    assert_eq!(permission_label(false), "普通用户");
}

#[test]
fn cleanup_with_backups_cleans_each_key() {
    let (mut run, action) = CleanupRun::new(2, true);
    assert_eq!(action, CleanupAction::CreateBackupDirectory);
    assert_eq!(run.backup_directory_created("C:\\b"), CleanupAction::RemoveDirectory);
    assert_eq!(run.directory_removed("D:\\Demo"), CleanupAction::ExportRegistryKey(0));
    assert_eq!(run.key_exported(0, "C:\\b\\1.reg"), CleanupAction::DeleteRegistryKey(0));
    assert_eq!(run.key_deleted(0, "HKCU\\Software\\A"), CleanupAction::ExportRegistryKey(1));
    assert_eq!(run.key_backup_failed(1, "HKCU\\Software\\B", "exit 1"), CleanupAction::Done);
    assert!(run.completed());
    assert_eq!(
        run.report(),
        "注册表备份位置：C:\\b\n目录已删除：D:\\Demo\n已清理注册表：HKCU\\Software\\A\n备份：C:\\b\\1.reg\n已跳过注册表（备份失败）：HKCU\\Software\\B：exit 1\n\n清理完成。\n"
    );
}

#[test]
fn cleanup_without_backups_deletes_each_key() {
    let (mut run, action) = CleanupRun::new(3, false);
    assert_eq!(action, CleanupAction::RemoveDirectory);
    assert_eq!(run.directory_removed("D:\\Demo"), CleanupAction::DeleteRegistryKey(0));
    assert_eq!(run.key_deleted(0, "HKCU\\A"), CleanupAction::DeleteRegistryKey(1));
    assert_eq!(run.key_delete_failed(1, "HKLM\\B", "code 5"), CleanupAction::DeleteRegistryKey(2));
    assert_eq!(run.key_deleted(2, "HKCU\\C"), CleanupAction::Done);
    assert!(run.completed());
    assert_eq!(
        run.report(),
        "目录已删除：D:\\Demo\n已清理注册表：HKCU\\A\n注册表删除失败：HKLM\\B：code 5\n已清理注册表：HKCU\\C\n\n清理完成。\n"
    );
}

#[test]
fn cleanup_without_keys_ends_after_the_directory() {
    let (mut run, action) = CleanupRun::new(0, true);
    assert_eq!(action, CleanupAction::RemoveDirectory);
    assert_eq!(run.directory_removed("D:\\Demo"), CleanupAction::Done);
    assert!(run.completed());
    assert_eq!(run.report(), "目录已删除：D:\\Demo\n\n清理完成。\n");
}

#[test]
fn delete_request_checks() {
    assert_eq!(check_delete_request(None, Ok("D:\\Demo")), Some("请先扫描一个目录。".to_string()));
    assert_eq!(check_delete_request(Some("D:\\Demo"), Err("目标必须是目录。")), Some("目标必须是目录。".to_string()));
    assert_eq!(check_delete_request(Some("D:\\Demo"), Ok("d:/demo\\")), None);
    assert_eq!(
        check_delete_request(Some("D:\\Demo"), Ok("D:\\Other")),
        Some("目录路径已改变，请重新扫描。".to_string())
    );
}

#[test]
fn failed_backup_directory_stops_everything() {
    let (mut run, _) = CleanupRun::new(1, true);
    assert_eq!(run.backup_directory_failed("denied"), CleanupAction::Done);
    assert!(!run.completed());
    assert_eq!(run.report(), "注册表备份目录创建失败：denied\n文件删除已取消。");
}

#[test]
fn locked_directory_is_forced() {
    let (mut run, _) = CleanupRun::new(1, true);
    run.backup_directory_created("C:\\b");
    assert_eq!(run.removal_failed("in use"), CleanupAction::FindLockingProcesses);
    let locks = vec![(42u32, "explorer.exe".to_string())];
    assert_eq!(run.locks_found(&locks), CleanupAction::TerminateProcesses);
    assert_eq!(run.processes_terminated(1, vec![], true), CleanupAction::RestartExplorer);
    assert_eq!(run.explorer_restarted(true), CleanupAction::RetryRemoval);
    assert_eq!(run.retry_succeeded(), CleanupAction::ExportRegistryKey(0));
    assert_eq!(run.key_exported(0, "C:\\b\\x.reg"), CleanupAction::DeleteRegistryKey(0));
    assert_eq!(run.key_delete_failed(0, "HKCU\\X", "code 5"), CleanupAction::Done);
    assert_eq!(
        run.report(),
        "注册表备份位置：C:\\b\n普通删除失败：in use\n检测到占用进程，正在执行强力删除……\n- explorer.exe (PID 42)\n已终止 1 个占用进程，正在重试删除……\nWindows Explorer 已重新启动。\n强力删除成功。\n注册表删除失败：HKCU\\X：code 5\n备份：C:\\b\\x.reg\n\n清理完成。\n"
    );
}

#[test]
fn no_locking_process_stops_the_cleanup() {
    let (mut run, _) = CleanupRun::new(0, true);
    run.removal_failed("denied");
    assert_eq!(run.locks_found(&[]), CleanupAction::Done);
    assert!(!run.completed());
    assert!(run.report().ends_with("Restart Manager 未发现占用进程，可能是权限或只读属性问题；注册表尚未修改。\n"));
}

#[test]
fn failed_retry_lists_termination_failures() {
    let (mut run, _) = CleanupRun::new(0, false);
    run.removal_failed("denied");
    run.locks_found(&[(7, "a.exe".to_string())]);
    assert_eq!(run.processes_terminated(0, vec!["f1".to_string(), "f2".to_string()], false), CleanupAction::RetryRemoval);
    assert_eq!(run.retry_failed("still"), CleanupAction::Done);
    assert!(run.report().ends_with("已终止 0 个占用进程，正在重试删除……\n强力删除仍失败：still\nf1\nf2\n注册表尚未修改。\n"));
}

//! Removing a scanned directory and its registry keys: backups, locking
//! processes, and the course of a cleanup with the report it writes.
use vstd::prelude::*;
use crate::paths::{
    is_explorer, is_explorer_name, is_protected_process, normalize_chars, normalized, sanitize_filename, sanitized,
};
use crate::registry::{
    ERROR_FILE_NOT_FOUND, ERROR_SUCCESS, RegistryCandidate, full_name, registry_full_name, registry_root_label,
    registry_view_flag, registry_view_label, root_label, view_flag, view_label,
};
use crate::scan::{format_size, size_text};
use crate::text::{
    append_chars, append_str, chars_equal, chars_of, copy_chars, decimal, decimal_exec, string_of, zero_padded,
    zero_padded_exec,
};

verus! {

broadcast use crate::text::lemma_chars_deep_view;

// ---------------------------------------------------------------------------
// Backups
// ---------------------------------------------------------------------------

/// Where registry backups go: the directory of the cleaner's executable,
/// else the working directory, else `.`.
pub fn backup_root_directory(exe_directory: Option<String>, current_directory: Option<String>) -> (out:
    String)
    ensures
        out@ == match exe_directory {
            Some(d) => d@,
            None => match current_directory {
                Some(d) => d@,
                None => "."@,
            },
        },
{
    match exe_directory {
        Some(d) => d,
        None => match current_directory {
            Some(d) => d,
            None => ".".to_string(),
        },
    }
}

/// The directory for the backups of one cleanup of `target`: the backup root
/// itself, whatever the target.
pub fn backup_session_directory(target: &str, backup_root: String) -> (out: String)
    ensures
        out@ == backup_root@,
{
    let _ = target;
    backup_root
}

/// `DevScoutCleaner-<seconds>-<name>`.
pub open spec fn backup_prefix_text(target_name: Option<Seq<char>>, now_secs: u64) -> Seq<char> {
    "DevScoutCleaner-"@ + decimal(now_secs as nat) + seq!['-'] + match target_name {
        Some(n) => sanitized(n),
        None => "target-folder"@,
    }
}

/// The prefix of this cleanup's backup files: the time in seconds since the
/// Unix epoch and the target directory's name made file-safe
/// (`target-folder` where it has none).
pub fn backup_file_prefix(target_name: Option<&str>, now_secs: u64) -> (out: String)
    ensures
        out@ == backup_prefix_text(
            match target_name {
                Some(n) => Some(n@),
                None => None,
            },
            now_secs,
        ),
{
    let mut text = chars_of("DevScoutCleaner-");
    append_chars(&mut text, &decimal_exec(now_secs));
    text.push('-');
    match target_name {
        Some(n) => append_str(&mut text, sanitize_filename(n).as_str()),
        None => append_str(&mut text, "target-folder"),
    }
    string_of(&text)
}

/// `<prefix>-<nnn>-<hive>-<view>-<name>.reg`, numbered from 1 with at least
/// three digits.
pub open spec fn backup_file_name_text(
    prefix: Seq<char>,
    index: nat,
    c: crate::registry::CandidateModel,
) -> Seq<char> {
    prefix + seq!['-'] + zero_padded(index + 1, 3) + seq!['-'] + root_label(c.root) + seq!['-']
        + view_label(c.view) + seq!['-'] + sanitized(c.display_name) + ".reg"@
}

/// The file name of the backup of the `index`-th (from 0) selected key.
pub fn backup_file_name(prefix: &str, index: usize, candidate: &RegistryCandidate) -> (out: String)
    requires
        index < u64::MAX,
    ensures
        out@ == backup_file_name_text(prefix@, index as nat, candidate@),
{
    let mut text = chars_of(prefix);
    text.push('-');
    append_chars(&mut text, &zero_padded_exec((index as u64) + 1, 3));
    text.push('-');
    append_str(&mut text, registry_root_label(candidate.root));
    text.push('-');
    append_str(&mut text, registry_view_label(candidate.view));
    text.push('-');
    append_str(&mut text, sanitize_filename(candidate.display_name.as_str()).as_str());
    append_str(&mut text, ".reg");
    string_of(&text)
}

/// The arguments of `reg.exe` that export a key to `file`.
pub fn reg_export_arguments(candidate: &RegistryCandidate, file: &str) -> (args: Vec<String>)
    ensures
        args.deep_view() == seq!["export"@, full_name(candidate@), file@, "/y"@, view_flag(candidate.view)],
{
    let mut args: Vec<String> = Vec::new();
    args.push("export".to_string());
    args.push(registry_full_name(candidate));
    args.push(file.to_string());
    args.push("/y".to_string());
    args.push(registry_view_flag(candidate.view).to_string());
    assert(args.deep_view() =~= seq![
        "export"@,
        full_name(candidate@),
        file@,
        "/y"@,
        view_flag(candidate.view),
    ]);
    args
}

// ---------------------------------------------------------------------------
// Deleting a key
// ---------------------------------------------------------------------------

/// Why a key could not be deleted.
pub enum RegistryDeleteError {
    /// The key path has no `\`, so it has no parent.
    InvalidPath,
    /// The parent key could not be opened (Windows error code).
    OpenFailed(u32),
    /// The key could not be deleted (Windows error code).
    DeleteFailed(u32),
}

pub open spec fn delete_error_text(e: RegistryDeleteError) -> Seq<char> {
    match e {
        RegistryDeleteError::InvalidPath => "注册表路径格式无效"@,
        RegistryDeleteError::OpenFailed(code) => "打开注册表键失败，错误码 "@ + decimal(code as nat),
        RegistryDeleteError::DeleteFailed(code) => "删除注册表键失败，错误码 "@ + decimal(code as nat),
    }
}

impl RegistryDeleteError {
    /// The message shown for this error.
    pub fn message(&self) -> (out: String)
        ensures
            out@ == delete_error_text(*self),
    {
        match self {
            RegistryDeleteError::InvalidPath => "注册表路径格式无效".to_string(),
            RegistryDeleteError::OpenFailed(code) => {
                let mut text = chars_of("打开注册表键失败，错误码 ");
                append_chars(&mut text, &decimal_exec(*code as u64));
                string_of(&text)
            },
            RegistryDeleteError::DeleteFailed(code) => {
                let mut text = chars_of("删除注册表键失败，错误码 ");
                append_chars(&mut text, &decimal_exec(*code as u64));
                string_of(&text)
            },
        }
    }
}

/// A key path split at its last `\`: the parent path and the key's own name.
pub fn registry_parent_and_leaf(sub_key: &str) -> (r: Result<(String, String), RegistryDeleteError>)
    ensures
        r matches Ok((parent, leaf)) ==> (crate::paths::basename_start_backslash(sub_key@) > 0
            && parent@ == sub_key@.take(crate::paths::basename_start_backslash(sub_key@) - 1)
            && leaf@ == sub_key@.skip(crate::paths::basename_start_backslash(sub_key@) as int)),
        r is Err ==> (crate::paths::basename_start_backslash(sub_key@) == 0 && r matches Err(
            RegistryDeleteError::InvalidPath,
        )),
{
    let chars = chars_of(sub_key);
    let start = crate::paths::basename_start_backslash_exec(&chars);
    if start == 0 {
        return Err(RegistryDeleteError::InvalidPath);
    }
    let parent = crate::text::slice_chars(&chars, 0, start - 1);
    let leaf = crate::text::slice_chars(&chars, start, chars.len());
    assert(parent@ =~= sub_key@.take(start - 1));
    assert(leaf@ =~= sub_key@.skip(start as int));
    Ok((string_of(&parent), string_of(&leaf)))
}

/// The Windows codes that count as a deleted key: success, and "not found";
/// any other code is the error.
pub fn registry_delete_outcome(code: u32) -> (r: Result<(), RegistryDeleteError>)
    ensures
        (code == ERROR_SUCCESS || code == ERROR_FILE_NOT_FOUND) ==> r is Ok,
        !(code == ERROR_SUCCESS || code == ERROR_FILE_NOT_FOUND) ==> (r matches Err(RegistryDeleteError::DeleteFailed(c)) && c
            == code),
{
    if code == ERROR_SUCCESS || code == ERROR_FILE_NOT_FOUND {
        Ok(())
    } else {
        Err(RegistryDeleteError::DeleteFailed(code))
    }
}

// ---------------------------------------------------------------------------
// Locking processes
// ---------------------------------------------------------------------------

/// `found` with `(pid, name)` appended unless a process with that id is
/// already there.
pub open spec fn with_process(found: Seq<(u32, Seq<char>)>, pid: u32, name: Seq<char>) -> Seq<
    (u32, Seq<char>),
> {
    if exists|i: int| 0 <= i < found.len() && (#[trigger] found[i]).0 == pid {
        found
    } else {
        found.push((pid, name))
    }
}

/// Records a process that holds a file open, once per process id.
pub fn add_locking_process(found: &mut Vec<(u32, String)>, pid: u32, name: String)
    ensures
        final(found).deep_view() == with_process(old(found).deep_view(), pid, name@),
{
    let ghost before = found.deep_view();
    let mut i: usize = 0;
    while i < found.len()
        invariant
            i <= found.len(),
            before == found.deep_view(),
            forall|k: int| 0 <= k < i ==> (#[trigger] before[k]).0 != pid,
        decreases found.len() - i,
    {
        if found[i].0 == pid {
            assert(before[i as int].0 == pid);
            return;
        }
        i += 1;
    }
    found.push((pid, name));
    assert(found.deep_view() =~= before.push((pid, name@)));
}

/// What forcing the locking processes closed came to: how many were ended,
/// the messages about those that were not, and whether Explorer was among the
/// ended ones.
pub struct TerminationReport {
    terminated: usize,
    failures: Vec<String>,
    killed_explorer: bool,
}

pub open spec fn skipped_text(pid: u32, name: Seq<char>) -> Seq<char> {
    "已跳过受保护进程 "@ + name + " (PID "@ + decimal(pid as nat) + ")"@
}

pub open spec fn failed_text(pid: u32, name: Seq<char>, detail: Seq<char>) -> Seq<char> {
    "终止 "@ + name + " (PID "@ + decimal(pid as nat) + ") 失败："@ + detail
}

impl TerminationReport {
    pub closed spec fn terminated_count(&self) -> nat {
        self.terminated as nat
    }

    pub closed spec fn failure_texts(&self) -> Seq<Seq<char>> {
        self.failures.deep_view()
    }

    pub closed spec fn explorer_ended(&self) -> bool {
        self.killed_explorer
    }

    pub fn new() -> (r: Self)
        ensures
            r.terminated_count() == 0,
            r.failure_texts() == Seq::<Seq<char>>::empty(),
            !r.explorer_ended(),
    {
        let r = TerminationReport { terminated: 0, failures: Vec::new(), killed_explorer: false };
        assert(r.failure_texts() =~= Seq::<Seq<char>>::empty());
        r
    }

    /// Whether the process `pid` named `name` is to be ended; a protected
    /// one is skipped and noted.
    pub fn consider(&mut self, pid: u32, name: &str, current_pid: u32) -> (go: bool)
        ensures
            go == !crate::paths::protected_process(pid, name@, current_pid),
            final(self).terminated_count() == old(self).terminated_count(),
            final(self).explorer_ended() == old(self).explorer_ended(),
            final(self).failure_texts() == (if go {
                old(self).failure_texts()
            } else {
                old(self).failure_texts().push(skipped_text(pid, name@))
            }),
    {
        if is_protected_process(pid, name, current_pid) {
            let mut text = chars_of("已跳过受保护进程 ");
            append_str(&mut text, name);
            append_str(&mut text, " (PID ");
            append_chars(&mut text, &decimal_exec(pid as u64));
            append_str(&mut text, ")");
            let ghost before = self.failures.deep_view();
            self.failures.push(string_of(&text));
            assert(self.failures.deep_view() =~= before.push(skipped_text(pid, name@)));
            false
        } else {
            true
        }
    }

    /// The process named `name` was ended.
    pub fn ended(&mut self, name: &str)
        requires
            old(self).terminated_count() < usize::MAX,
        ensures
            final(self).terminated_count() == old(self).terminated_count() + 1,
            final(self).failure_texts() == old(self).failure_texts(),
            final(self).explorer_ended() == (old(self).explorer_ended() || is_explorer_name(name@)),
    {
        self.terminated = self.terminated + 1;
        if is_explorer(name) {
            self.killed_explorer = true;
        }
    }

    /// Ending the process `pid` named `name` failed, for the reason `detail`.
    pub fn failed(&mut self, pid: u32, name: &str, detail: &str)
        ensures
            final(self).terminated_count() == old(self).terminated_count(),
            final(self).explorer_ended() == old(self).explorer_ended(),
            final(self).failure_texts() == old(self).failure_texts().push(
                failed_text(pid, name@, detail@),
            ),
    {
        let mut text = chars_of("终止 ");
        append_str(&mut text, name);
        append_str(&mut text, " (PID ");
        append_chars(&mut text, &decimal_exec(pid as u64));
        append_str(&mut text, ") 失败：");
        append_str(&mut text, detail);
        let ghost before = self.failures.deep_view();
        self.failures.push(string_of(&text));
        assert(self.failures.deep_view() =~= before.push(failed_text(pid, name@, detail@)));
    }

    /// `(ended, failure messages, Explorer ended)`.
    pub fn into_parts(self) -> (r: (usize, Vec<String>, bool))
        ensures
            r.0 == self.terminated_count(),
            r.1.deep_view() == self.failure_texts(),
            r.2 == self.explorer_ended(),
    {
        (self.terminated, self.failures, self.killed_explorer)
    }
}

// ---------------------------------------------------------------------------
// Confirmation
// ---------------------------------------------------------------------------

/// How a user's rights are shown.
pub open spec fn permission_text(is_admin: bool) -> Seq<char> {
    if is_admin {
        "管理员"@
    } else {
        "普通用户"@
    }
}

/// `管理员` for an administrator, `普通用户` otherwise.
pub fn permission_label(is_admin: bool) -> (s: &'static str)
    ensures
        s@ == permission_text(is_admin),
{
    if is_admin {
        "管理员"
    } else {
        "普通用户"
    }
}

/// The question asked before a cleanup.
pub open spec fn prompt_text(
    target: Seq<char>,
    size: u64,
    files: u64,
    selected: nat,
    should_backup: bool,
    is_admin: bool,
) -> Seq<char> {
    "确定永久删除目录？\n\n"@ + target + "\n\n大小："@ + size_text(size) + "，文件："@ + decimal(
        files as nat,
    ) + (if selected == 0 {
        Seq::empty()
    } else if should_backup {
        "\n\n同时清理 "@ + decimal(selected) + " 个已勾选注册表项（删除前备份）。"@
    } else {
        "\n\n同时清理 "@ + decimal(selected) + " 个已勾选注册表项。\n警告：当前未启用注册表备份。"@
    }) + (if is_admin {
        Seq::empty()
    } else {
        "\n\n当前权限：普通用户。部分文件或 HKLM 注册表项可能需要管理员权限。"@
    })
}

/// The confirmation question for the cleanup of `target` (`size` bytes in
/// `files` files) with `selected` registry keys.
pub fn deletion_prompt(
    target: &str,
    size: u64,
    files: u64,
    selected: usize,
    should_backup: bool,
    is_admin: bool,
) -> (out: String)
    ensures
        out@ == prompt_text(target@, size, files, selected as nat, should_backup, is_admin),
{
    let mut text = chars_of("确定永久删除目录？\n\n");
    append_str(&mut text, target);
    append_str(&mut text, "\n\n大小：");
    append_str(&mut text, format_size(size).as_str());
    append_str(&mut text, "，文件：");
    append_chars(&mut text, &decimal_exec(files));
    let ghost base = text@;
    if selected != 0 {
        if should_backup {
            append_str(&mut text, "\n\n同时清理 ");
            append_chars(&mut text, &decimal_exec(selected as u64));
            append_str(&mut text, " 个已勾选注册表项（删除前备份）。");
        } else {
            append_str(&mut text, "\n\n同时清理 ");
            append_chars(&mut text, &decimal_exec(selected as u64));
            append_str(&mut text, " 个已勾选注册表项。\n警告：当前未启用注册表备份。");
        }
    }
    if !is_admin {
        append_str(&mut text, "\n\n当前权限：普通用户。部分文件或 HKLM 注册表项可能需要管理员权限。");
    }
    assert(text@ =~= prompt_text(target@, size, files, selected as nat, should_backup, is_admin));
    string_of(&text)
}

// ---------------------------------------------------------------------------
// Before a cleanup
// ---------------------------------------------------------------------------

pub open spec fn no_scan_text() -> Seq<char> {
    "请先扫描一个目录。"@
}

pub open spec fn path_changed_text() -> Seq<char> {
    "目录路径已改变，请重新扫描。"@
}

/// Why a cleanup may not start, if it may not: no directory was scanned;
/// the directory now entered is refused (`current` holds the refusal); or it
/// is not the scanned one (paths compared after normalisation).
pub open spec fn delete_refusal(scanned: Option<Seq<char>>, current: Result<Seq<char>, Seq<char>>) -> Option<
    Seq<char>,
> {
    match scanned {
        None => Some(no_scan_text()),
        Some(s) => match current {
            Err(e) => Some(e),
            Ok(c) => if normalized(c) == normalized(s) {
                None
            } else {
                Some(path_changed_text())
            },
        },
    }
}

pub open spec fn str_option(o: Option<&str>) -> Option<Seq<char>> {
    match o {
        Some(s) => Some(s@),
        None => None,
    }
}

pub open spec fn str_result(r: Result<&str, &str>) -> Result<Seq<char>, Seq<char>> {
    match r {
        Ok(s) => Ok(s@),
        Err(e) => Err(e@),
    }
}

pub open spec fn string_option(o: Option<String>) -> Option<Seq<char>> {
    match o {
        Some(s) => Some(s@),
        None => None,
    }
}

/// The check made when the cleanup is asked for: `scanned_target` is the
/// directory of the last scan, if any; `current` the directory now entered,
/// or the message that refused it. The result is the error to show, or
/// `None` when the cleanup may go on.
pub fn check_delete_request(scanned_target: Option<&str>, current: Result<&str, &str>) -> (r: Option<
    String,
>)
    ensures
        string_option(r) == delete_refusal(str_option(scanned_target), str_result(current)),
        r is None ==> (scanned_target matches Some(s) && current matches Ok(c) && normalized(c@)
            == normalized(s@)),
{
    match scanned_target {
        None => Some("请先扫描一个目录。".to_string()),
        Some(scanned) => match current {
            Err(error) => Some(error.to_string()),
            Ok(path) => {
                let a = normalize_chars(&chars_of(path));
                let b = normalize_chars(&chars_of(scanned));
                if chars_equal(&a, &b) {
                    None
                } else {
                    Some("目录路径已改变，请重新扫描。".to_string())
                }
            },
        },
    }
}

/// A cleanup may start only on a scanned directory that is, after
/// normalisation, the very directory now entered: a different path (even
/// one inside or beside it, such as `D:\Apps\Demo2` for `D:\Apps\Demo`) is
/// refused, and so is any request without a scan or with a refused path.
pub proof fn law_delete_request_needs_same_directory(
    scanned: Option<Seq<char>>,
    current: Result<Seq<char>, Seq<char>>,
)
    ensures
        delete_refusal(scanned, current) is None <==> (scanned matches Some(s) && current matches Ok(c)
            && normalized(c) == normalized(s)),
        scanned is Some ==> (current matches Err(e) ==> delete_refusal(scanned, current) == Some(e)),
        scanned is None ==> delete_refusal(scanned, current) is Some,
{
}

// ---------------------------------------------------------------------------
// The course of a cleanup
// ---------------------------------------------------------------------------

/// What the caller is to do next.
#[derive(PartialEq, Eq, Structural, Clone, Copy, Debug)]
pub enum CleanupAction {
    /// Create the backup directory; report with `backup_directory_created`
    /// or `backup_directory_failed`.
    CreateBackupDirectory,
    /// Remove the target directory; report with `directory_removed` or
    /// `removal_failed`.
    RemoveDirectory,
    /// Find the processes that hold files open; report with `locks_found`.
    FindLockingProcesses,
    /// End the locking processes; report with `processes_terminated`.
    TerminateProcesses,
    /// Start Windows Explorer again; report with `explorer_restarted`.
    RestartExplorer,
    /// Wait a moment and remove the directory again; report with
    /// `retry_succeeded` or `retry_failed`.
    RetryRemoval,
    /// Export the selected key with this index (from 0) to a backup file;
    /// report with `key_exported` or `key_backup_failed`.
    ExportRegistryKey(usize),
    /// Delete the selected key with this index (from 0); report with
    /// `key_deleted` or `key_delete_failed`.
    DeleteRegistryKey(usize),
    /// Nothing more: show the report.
    Done,
}

/// Where a cleanup stands.
#[derive(PartialEq, Eq, Structural, Clone, Copy, Debug)]
pub enum CleanupPhase {
    AwaitingBackupDirectory,
    AwaitingRemoval,
    AwaitingLocks,
    AwaitingTermination,
    AwaitingExplorer,
    AwaitingRetry,
    ExportingKey(usize),
    DeletingKey(usize),
    /// Stopped before the registry was touched.
    Stopped,
    /// Went through to the end.
    Completed,
}

pub open spec fn phase_action(p: CleanupPhase) -> CleanupAction {
    match p {
        CleanupPhase::AwaitingBackupDirectory => CleanupAction::CreateBackupDirectory,
        CleanupPhase::AwaitingRemoval => CleanupAction::RemoveDirectory,
        CleanupPhase::AwaitingLocks => CleanupAction::FindLockingProcesses,
        CleanupPhase::AwaitingTermination => CleanupAction::TerminateProcesses,
        CleanupPhase::AwaitingExplorer => CleanupAction::RestartExplorer,
        CleanupPhase::AwaitingRetry => CleanupAction::RetryRemoval,
        CleanupPhase::ExportingKey(i) => CleanupAction::ExportRegistryKey(i),
        CleanupPhase::DeletingKey(i) => CleanupAction::DeleteRegistryKey(i),
        CleanupPhase::Stopped => CleanupAction::Done,
        CleanupPhase::Completed => CleanupAction::Done,
    }
}

/// The last line of a cleanup that went through.
pub open spec fn completed_text() -> Seq<char> {
    "\n清理完成。\n"@
}

/// One line per locking process: `- name (PID n)`.
pub open spec fn lock_lines(locks: Seq<(u32, Seq<char>)>) -> Seq<char>
    decreases locks.len(),
{
    if locks.len() == 0 {
        Seq::empty()
    } else {
        lock_lines(locks.drop_last()) + "- "@ + locks.last().1 + " (PID "@ + decimal(
            locks.last().0 as nat,
        ) + ")\n"@
    }
}

/// Each message on a line of its own.
pub open spec fn lines(texts: Seq<Seq<char>>) -> Seq<char>
    decreases texts.len(),
{
    if texts.len() == 0 {
        Seq::empty()
    } else {
        lines(texts.drop_last()) + texts.last() + "\n"@
    }
}

/// The report line naming the backup file of the key being cleaned, if it
/// was exported.
pub open spec fn backup_line(export: Option<(nat, Seq<char>)>) -> Seq<char> {
    match export {
        Some((_, file)) => "备份："@ + file + "\n"@,
        None => Seq::empty(),
    }
}

/// A cleanup of a scanned directory with `selected` registry keys chosen.
/// The directory goes first; the registry keys are touched only once it is
/// gone. With backups, each key is exported first and deleted only when its
/// export succeeded; without, each key is deleted directly.
pub struct CleanupRun {
    phase: CleanupPhase,
    report: Vec<char>,
    selected: usize,
    backup_ready: bool,
    failures: Vec<String>,
    export: Option<(usize, Vec<char>)>,
}

impl CleanupRun {
    pub closed spec fn phase(&self) -> CleanupPhase {
        self.phase
    }

    /// The report written so far.
    pub closed spec fn text(&self) -> Seq<char> {
        self.report@
    }

    pub closed spec fn selected_keys(&self) -> nat {
        self.selected as nat
    }

    /// Whether the backup directory was created.
    pub closed spec fn backups_possible(&self) -> bool {
        self.backup_ready
    }

    /// The failure messages of the forced termination, kept for the report.
    pub closed spec fn termination_failures(&self) -> Seq<Seq<char>> {
        self.failures.deep_view()
    }

    /// The key being cleaned whose export succeeded, with its backup file.
    pub closed spec fn last_export(&self) -> Option<(nat, Seq<char>)> {
        match self.export {
            Some((i, f)) => Some((i as nat, f@)),
            None => None,
        }
    }

    /// Keys are handled one by one among the selected ones. With backups, a
    /// key is exported while nothing of it is exported yet, and deleted only
    /// once its own export is recorded; without backups nothing is exported.
    pub open spec fn consistent(&self) -> bool {
        match self.phase() {
            CleanupPhase::ExportingKey(i) => self.backups_possible() && i < self.selected_keys()
                && self.last_export() is None,
            CleanupPhase::DeletingKey(i) => i < self.selected_keys() && if self.backups_possible() {
                self.last_export() matches Some((j, _)) && j == i
            } else {
                self.last_export() is None
            },
            _ => self.last_export() is None,
        }
    }

    /// The phase for the key with index `i`: exported first with backups,
    /// deleted directly without; past the last key, the end.
    pub open spec fn key_phase(&self, i: nat) -> CleanupPhase {
        if i < self.selected_keys() {
            if self.backups_possible() {
                CleanupPhase::ExportingKey(i as usize)
            } else {
                CleanupPhase::DeletingKey(i as usize)
            }
        } else {
            CleanupPhase::Completed
        }
    }

    /// The phase after the directory is gone: the first selected key, or the
    /// end when none is selected.
    pub open spec fn registry_phase(&self) -> CleanupPhase {
        self.key_phase(0)
    }

    /// A cleanup with `selected` keys; with backups asked for and keys
    /// selected it starts with the backup directory, otherwise with the
    /// directory itself.
    pub fn new(selected: usize, should_backup: bool) -> (r: (Self, CleanupAction))
        ensures
            r.0.selected_keys() == selected,
            r.0.text() == Seq::<char>::empty(),
            !r.0.backups_possible(),
            r.0.last_export() is None,
            r.0.phase() == (if should_backup && selected > 0 {
                CleanupPhase::AwaitingBackupDirectory
            } else {
                CleanupPhase::AwaitingRemoval
            }),
            r.1 == phase_action(r.0.phase()),
            r.0.consistent(),
    {
        let phase = if should_backup && selected > 0 {
            CleanupPhase::AwaitingBackupDirectory
        } else {
            CleanupPhase::AwaitingRemoval
        };
        let run = CleanupRun {
            phase,
            report: Vec::new(),
            selected,
            backup_ready: false,
            failures: Vec::new(),
            export: None,
        };
        let action = run.action();
        (run, action)
    }

    /// The action of the current phase.
    pub fn action(&self) -> (a: CleanupAction)
        ensures
            a == phase_action(self.phase()),
    {
        match self.phase {
            CleanupPhase::AwaitingBackupDirectory => CleanupAction::CreateBackupDirectory,
            CleanupPhase::AwaitingRemoval => CleanupAction::RemoveDirectory,
            CleanupPhase::AwaitingLocks => CleanupAction::FindLockingProcesses,
            CleanupPhase::AwaitingTermination => CleanupAction::TerminateProcesses,
            CleanupPhase::AwaitingExplorer => CleanupAction::RestartExplorer,
            CleanupPhase::AwaitingRetry => CleanupAction::RetryRemoval,
            CleanupPhase::ExportingKey(i) => CleanupAction::ExportRegistryKey(i),
            CleanupPhase::DeletingKey(i) => CleanupAction::DeleteRegistryKey(i),
            CleanupPhase::Stopped => CleanupAction::Done,
            CleanupPhase::Completed => CleanupAction::Done,
        }
    }

    /// Whether the cleanup went through to the end.
    pub fn completed(&self) -> (r: bool)
        ensures
            r == (self.phase() == CleanupPhase::Completed),
    {
        match self.phase {
            CleanupPhase::Completed => true,
            _ => false,
        }
    }

    /// The report.
    pub fn report(&self) -> (out: String)
        ensures
            out@ == self.text(),
    {
        string_of(&self.report)
    }

    /// Moves to the key with index `i`, or ends the run with the closing
    /// line after the last one.
    fn enter_key(&mut self, i: usize)
        requires
            old(self).last_export() is None,
        ensures
            final(self).consistent(),
            final(self).phase() == old(self).key_phase(i as nat),
            final(self).text() == (if old(self).key_phase(i as nat) == CleanupPhase::Completed {
                old(self).text() + completed_text()
            } else {
                old(self).text()
            }),
            final(self).selected_keys() == old(self).selected_keys(),
            final(self).backups_possible() == old(self).backups_possible(),
            final(self).termination_failures() == old(self).termination_failures(),
            final(self).last_export() is None,
    {
        if i < self.selected {
            if self.backup_ready {
                self.phase = CleanupPhase::ExportingKey(i);
            } else {
                self.phase = CleanupPhase::DeletingKey(i);
            }
        } else {
            append_str(&mut self.report, "\n清理完成。\n");
            self.phase = CleanupPhase::Completed;
        }
    }

    /// The backup directory `directory` exists.
    pub fn backup_directory_created(&mut self, directory: &str) -> (a: CleanupAction)
        requires
            old(self).consistent(),
            old(self).phase() == CleanupPhase::AwaitingBackupDirectory,
        ensures
            final(self).consistent(),
            final(self).text() == old(self).text() + "注册表备份位置："@ + directory@ + "\n"@,
            final(self).backups_possible(),
            final(self).phase() == CleanupPhase::AwaitingRemoval,
            final(self).selected_keys() == old(self).selected_keys(),
            final(self).termination_failures() == old(self).termination_failures(),
            a == phase_action(final(self).phase()),
    {
        append_str(&mut self.report, "注册表备份位置：");
        append_str(&mut self.report, directory);
        append_str(&mut self.report, "\n");
        self.backup_ready = true;
        self.phase = CleanupPhase::AwaitingRemoval;
        self.action()
    }

    /// The backup directory could not be created: nothing is deleted.
    pub fn backup_directory_failed(&mut self, error: &str) -> (a: CleanupAction)
        requires
            old(self).consistent(),
            old(self).phase() == CleanupPhase::AwaitingBackupDirectory,
        ensures
            final(self).selected_keys() == old(self).selected_keys(),
            final(self).backups_possible() == old(self).backups_possible(),
            final(self).consistent(),
            final(self).text() == old(self).text() + "注册表备份目录创建失败："@ + error@
                + "\n文件删除已取消。"@,
            final(self).phase() == CleanupPhase::Stopped,
            a == CleanupAction::Done,
    {
        append_str(&mut self.report, "注册表备份目录创建失败：");
        append_str(&mut self.report, error);
        append_str(&mut self.report, "\n文件删除已取消。");
        self.phase = CleanupPhase::Stopped;
        CleanupAction::Done
    }

    /// The directory `target` was removed.
    pub fn directory_removed(&mut self, target: &str) -> (a: CleanupAction)
        requires
            old(self).consistent(),
            old(self).phase() == CleanupPhase::AwaitingRemoval,
        ensures
            final(self).consistent(),
            final(self).phase() == old(self).registry_phase(),
            final(self).text() == old(self).text() + "目录已删除："@ + target@ + "\n"@ + (
            if old(self).registry_phase() == CleanupPhase::Completed {
                completed_text()
            } else {
                Seq::empty()
            }),
            final(self).backups_possible() == old(self).backups_possible(),
            final(self).selected_keys() == old(self).selected_keys(),
            a == phase_action(final(self).phase()),
    {
        append_str(&mut self.report, "目录已删除：");
        append_str(&mut self.report, target);
        append_str(&mut self.report, "\n");
        self.enter_key(0);
        self.action()
    }

    /// Removing the directory failed with `error`.
    pub fn removal_failed(&mut self, error: &str) -> (a: CleanupAction)
        requires
            old(self).consistent(),
            old(self).phase() == CleanupPhase::AwaitingRemoval,
        ensures
            final(self).consistent(),
            final(self).text() == old(self).text() + "普通删除失败："@ + error@ + "\n"@,
            final(self).phase() == CleanupPhase::AwaitingLocks,
            final(self).backups_possible() == old(self).backups_possible(),
            final(self).selected_keys() == old(self).selected_keys(),
            a == phase_action(final(self).phase()),
    {
        append_str(&mut self.report, "普通删除失败：");
        append_str(&mut self.report, error);
        append_str(&mut self.report, "\n");
        self.phase = CleanupPhase::AwaitingLocks;
        self.action()
    }
    /// The processes that hold files of the directory open: none stops the
    /// cleanup; otherwise they are listed and to be ended.
    pub fn locks_found(&mut self, locks: &[(u32, String)]) -> (a: CleanupAction)
        requires
            old(self).consistent(),
            old(self).phase() == CleanupPhase::AwaitingLocks,
        ensures
            final(self).consistent(),
            locks.len() == 0 ==> final(self).text() == old(self).text()
                + "Restart Manager 未发现占用进程，可能是权限或只读属性问题；注册表尚未修改。\n"@
                && final(self).phase() == CleanupPhase::Stopped,
            locks.len() > 0 ==> final(self).text() == old(self).text()
                + "检测到占用进程，正在执行强力删除……\n"@ + lock_lines(locks.deep_view())
                && final(self).phase() == CleanupPhase::AwaitingTermination,
            final(self).backups_possible() == old(self).backups_possible(),
            final(self).selected_keys() == old(self).selected_keys(),
            a == phase_action(final(self).phase()),
    {
        if locks.len() == 0 {
            append_str(
                &mut self.report,
                "Restart Manager 未发现占用进程，可能是权限或只读属性问题；注册表尚未修改。\n",
            );
            self.phase = CleanupPhase::Stopped;
            return CleanupAction::Done;
        }
        append_str(&mut self.report, "检测到占用进程，正在执行强力删除……\n");
        let ghost start = self.report@;
        let ghost ls = locks.deep_view();
        let mut i: usize = 0;
        assert(ls.take(0) =~= Seq::<(u32, Seq<char>)>::empty());
        while i < locks.len()
            invariant
                i <= locks.len(),
                ls == locks.deep_view(),
                self.report@ == start + lock_lines(ls.take(i as int)),
                self.phase == old(self).phase,
                self.backup_ready == old(self).backup_ready,
                self.last_export() == old(self).last_export(),
                self.selected == old(self).selected,
            decreases locks.len() - i,
        {
            assert(ls.take(i as int + 1).drop_last() =~= ls.take(i as int));
            append_str(&mut self.report, "- ");
            append_str(&mut self.report, locks[i].1.as_str());
            append_str(&mut self.report, " (PID ");
            append_chars(&mut self.report, &decimal_exec(locks[i].0 as u64));
            append_str(&mut self.report, ")\n");
            i += 1;
            assert(self.report@ =~= start + lock_lines(ls.take(i as int)));
        }
        assert(ls.take(i as int) =~= ls);
        self.phase = CleanupPhase::AwaitingTermination;
        self.action()
    }

    /// `terminated` processes were ended; `failures` are the messages about
    /// the others; Explorer was among the ended ones when `killed_explorer`.
    pub fn processes_terminated(
        &mut self,
        terminated: usize,
        failures: Vec<String>,
        killed_explorer: bool,
    ) -> (a: CleanupAction)
        requires
            old(self).consistent(),
            old(self).phase() == CleanupPhase::AwaitingTermination,
        ensures
            final(self).consistent(),
            final(self).text() == old(self).text() + "已终止 "@ + decimal(terminated as nat)
                + " 个占用进程，正在重试删除……\n"@,
            final(self).termination_failures() == failures.deep_view(),
            final(self).phase() == (if killed_explorer {
                CleanupPhase::AwaitingExplorer
            } else {
                CleanupPhase::AwaitingRetry
            }),
            final(self).backups_possible() == old(self).backups_possible(),
            final(self).selected_keys() == old(self).selected_keys(),
            a == phase_action(final(self).phase()),
    {
        append_str(&mut self.report, "已终止 ");
        append_chars(&mut self.report, &decimal_exec(terminated as u64));
        append_str(&mut self.report, " 个占用进程，正在重试删除……\n");
        self.failures = failures;
        self.phase = if killed_explorer {
            CleanupPhase::AwaitingExplorer
        } else {
            CleanupPhase::AwaitingRetry
        };
        self.action()
    }

    /// Explorer was started again (`started`) or could not be.
    pub fn explorer_restarted(&mut self, started: bool) -> (a: CleanupAction)
        requires
            old(self).consistent(),
            old(self).phase() == CleanupPhase::AwaitingExplorer,
        ensures
            final(self).consistent(),
            final(self).text() == old(self).text() + (if started {
                "Windows Explorer 已重新启动。\n"@
            } else {
                "Windows Explorer 自动重启失败。\n"@
            }),
            final(self).phase() == CleanupPhase::AwaitingRetry,
            final(self).termination_failures() == old(self).termination_failures(),
            final(self).backups_possible() == old(self).backups_possible(),
            final(self).selected_keys() == old(self).selected_keys(),
            a == phase_action(final(self).phase()),
    {
        if started {
            append_str(&mut self.report, "Windows Explorer 已重新启动。\n");
        } else {
            append_str(&mut self.report, "Windows Explorer 自动重启失败。\n");
        }
        self.phase = CleanupPhase::AwaitingRetry;
        self.action()
    }

    /// The second removal failed with `error`: the cleanup stops, listing
    /// the termination failures.
    pub fn retry_failed(&mut self, error: &str) -> (a: CleanupAction)
        requires
            old(self).consistent(),
            old(self).phase() == CleanupPhase::AwaitingRetry,
        ensures
            final(self).selected_keys() == old(self).selected_keys(),
            final(self).backups_possible() == old(self).backups_possible(),
            final(self).consistent(),
            final(self).text() == old(self).text() + "强力删除仍失败："@ + error@ + "\n"@ + lines(
                old(self).termination_failures(),
            ) + "注册表尚未修改。\n"@,
            final(self).phase() == CleanupPhase::Stopped,
            a == CleanupAction::Done,
    {
        append_str(&mut self.report, "强力删除仍失败：");
        append_str(&mut self.report, error);
        append_str(&mut self.report, "\n");
        let ghost start = self.report@;
        let ghost fs = self.failures.deep_view();
        let mut i: usize = 0;
        assert(fs.take(0) =~= Seq::<Seq<char>>::empty());
        while i < self.failures.len()
            invariant
                i <= self.failures.len(),
                fs == self.failures.deep_view(),
                self.report@ == start + lines(fs.take(i as int)),
                self.selected == old(self).selected,
                self.backup_ready == old(self).backup_ready,
                self.last_export() == old(self).last_export(),
            decreases self.failures.len() - i,
        {
            assert(fs.take(i as int + 1).drop_last() =~= fs.take(i as int));
            let line = chars_of(self.failures[i].as_str());
            append_chars(&mut self.report, &line);
            append_str(&mut self.report, "\n");
            i += 1;
            assert(self.report@ =~= start + lines(fs.take(i as int)));
        }
        assert(fs.take(i as int) =~= fs);
        append_str(&mut self.report, "注册表尚未修改。\n");
        self.phase = CleanupPhase::Stopped;
        CleanupAction::Done
    }

    /// The second removal succeeded.
    pub fn retry_succeeded(&mut self) -> (a: CleanupAction)
        requires
            old(self).consistent(),
            old(self).phase() == CleanupPhase::AwaitingRetry,
        ensures
            final(self).consistent(),
            final(self).phase() == old(self).registry_phase(),
            final(self).text() == old(self).text() + "强力删除成功。\n"@ + (
            if old(self).registry_phase() == CleanupPhase::Completed {
                completed_text()
            } else {
                Seq::empty()
            }),
            final(self).backups_possible() == old(self).backups_possible(),
            final(self).selected_keys() == old(self).selected_keys(),
            a == phase_action(final(self).phase()),
    {
        append_str(&mut self.report, "强力删除成功。\n");
        self.enter_key(0);
        self.action()
    }

    /// Moves on from the key `index`, forgetting its export.
    fn next_key(&mut self, index: usize)
        requires
            old(self).consistent(),
            old(self).phase() == CleanupPhase::ExportingKey(index) || old(self).phase()
                == CleanupPhase::DeletingKey(index),
        ensures
            final(self).consistent(),
            final(self).phase() == old(self).key_phase((index + 1) as nat),
            final(self).text() == (if old(self).key_phase((index + 1) as nat) == CleanupPhase::Completed {
                old(self).text() + completed_text()
            } else {
                old(self).text()
            }),
            final(self).selected_keys() == old(self).selected_keys(),
            final(self).backups_possible() == old(self).backups_possible(),
            final(self).termination_failures() == old(self).termination_failures(),
            final(self).last_export() is None,
    {
        self.export = None;
        self.enter_key(index + 1);
    }

    /// The key with index `index` was exported to `file`; it is to be
    /// deleted next.
    pub fn key_exported(&mut self, index: usize, file: &str) -> (a: CleanupAction)
        requires
            old(self).consistent(),
            old(self).phase() == CleanupPhase::ExportingKey(index),
        ensures
            final(self).consistent(),
            final(self).text() == old(self).text(),
            final(self).phase() == CleanupPhase::DeletingKey(index),
            final(self).last_export() == Some((index as nat, file@)),
            final(self).selected_keys() == old(self).selected_keys(),
            final(self).backups_possible() == old(self).backups_possible(),
            final(self).termination_failures() == old(self).termination_failures(),
            a == CleanupAction::DeleteRegistryKey(index),
    {
        self.export = Some((index, chars_of(file)));
        self.phase = CleanupPhase::DeletingKey(index);
        self.action()
    }

    /// Exporting the key `full_name` (index `index`) failed with `error`, so
    /// it is left alone.
    pub fn key_backup_failed(&mut self, index: usize, full_name: &str, error: &str) -> (a:
        CleanupAction)
        requires
            old(self).consistent(),
            old(self).phase() == CleanupPhase::ExportingKey(index),
        ensures
            final(self).consistent(),
            final(self).text() == old(self).text() + "已跳过注册表（备份失败）："@ + full_name@ + "："@
                + error@ + "\n"@ + (if old(self).key_phase((index + 1) as nat) == CleanupPhase::Completed {
                completed_text()
            } else {
                Seq::empty()
            }),
            final(self).phase() == old(self).key_phase((index + 1) as nat),
            final(self).phase() != CleanupPhase::DeletingKey(index),
            final(self).selected_keys() == old(self).selected_keys(),
            final(self).backups_possible() == old(self).backups_possible(),
            a == phase_action(final(self).phase()),
    {
        append_str(&mut self.report, "已跳过注册表（备份失败）：");
        append_str(&mut self.report, full_name);
        append_str(&mut self.report, "：");
        append_str(&mut self.report, error);
        append_str(&mut self.report, "\n");
        self.next_key(index);
        self.action()
    }

    /// Appends the line naming the backup file of the current key, if any.
    fn append_backup_line(&mut self)
        ensures
            final(self).text() == old(self).text() + backup_line(old(self).last_export()),
            final(self).phase() == old(self).phase(),
            final(self).last_export() == old(self).last_export(),
            final(self).selected_keys() == old(self).selected_keys(),
            final(self).backups_possible() == old(self).backups_possible(),
            final(self).termination_failures() == old(self).termination_failures(),
    {
        match &self.export {
            Some((_, file)) => {
                let file = copy_chars(file);
                append_str(&mut self.report, "备份：");
                append_chars(&mut self.report, &file);
                append_str(&mut self.report, "\n");
            },
            None => {},
        }
    }

    /// The key `full_name` (index `index`) was deleted.
    pub fn key_deleted(&mut self, index: usize, full_name: &str) -> (a: CleanupAction)
        requires
            old(self).consistent(),
            old(self).phase() == CleanupPhase::DeletingKey(index),
        ensures
            final(self).consistent(),
            final(self).text() == old(self).text() + "已清理注册表："@ + full_name@ + "\n"@
                + backup_line(old(self).last_export()) + (if old(self).key_phase((index + 1) as nat)
                == CleanupPhase::Completed {
                completed_text()
            } else {
                Seq::empty()
            }),
            final(self).phase() == old(self).key_phase((index + 1) as nat),
            final(self).selected_keys() == old(self).selected_keys(),
            final(self).backups_possible() == old(self).backups_possible(),
            a == phase_action(final(self).phase()),
    {
        append_str(&mut self.report, "已清理注册表：");
        append_str(&mut self.report, full_name);
        append_str(&mut self.report, "\n");
        self.append_backup_line();
        self.next_key(index);
        self.action()
    }

    /// Deleting the key `full_name` (index `index`) failed with `error`.
    pub fn key_delete_failed(&mut self, index: usize, full_name: &str, error: &str) -> (a:
        CleanupAction)
        requires
            old(self).consistent(),
            old(self).phase() == CleanupPhase::DeletingKey(index),
        ensures
            final(self).consistent(),
            final(self).text() == old(self).text() + "注册表删除失败："@ + full_name@ + "："@ + error@
                + "\n"@ + backup_line(old(self).last_export()) + (if old(self).key_phase((index + 1) as nat)
                == CleanupPhase::Completed {
                completed_text()
            } else {
                Seq::empty()
            }),
            final(self).phase() == old(self).key_phase((index + 1) as nat),
            final(self).selected_keys() == old(self).selected_keys(),
            final(self).backups_possible() == old(self).backups_possible(),
            a == phase_action(final(self).phase()),
    {
        append_str(&mut self.report, "注册表删除失败：");
        append_str(&mut self.report, full_name);
        append_str(&mut self.report, "：");
        append_str(&mut self.report, error);
        append_str(&mut self.report, "\n");
        self.append_backup_line();
        self.next_key(index);
        self.action()
    }
}

/// With backups, a key is deleted only after its own export succeeded: a
/// run that is about to delete a key has that key's export on record.
pub proof fn law_delete_follows_export(run: CleanupRun)
    requires
        run.consistent(),
        run.backups_possible(),
        run.phase() is DeletingKey,
    ensures
        run.last_export() matches Some((j, _)) && run.phase() == CleanupPhase::DeletingKey(j as usize),
{
}

/// Without backups nothing is ever exported, and once the directory is gone
/// every selected key is deleted in turn, starting with the first.
pub proof fn law_unbacked_cleanup_deletes_keys(run: CleanupRun)
    requires
        run.consistent(),
        !run.backups_possible(),
        run.selected_keys() > 0,
    ensures
        !(run.phase() is ExportingKey),
        run.registry_phase() == CleanupPhase::DeletingKey(0),
        forall|i: nat| i < run.selected_keys() ==> #[trigger] run.key_phase(i)
            == CleanupPhase::DeletingKey(i as usize),
{
}

} // verus!

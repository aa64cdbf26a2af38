//! Decisions of the cleaner's window: which directories may be cleaned,
//! which scan locations are searched, what a command message asks for, and
//! which keys the user left checked.
use vstd::prelude::*;
use crate::paths::{normalize_chars, normalized};
use crate::registry::{
    CandidateModel, KEY_WOW64_32KEY, KEY_WOW64_64KEY, RegistryCandidate, RegistryRoot,
};
use crate::text::{
    CharClass, chars_equal, chars_of, string_of, trim_both, trim_both_exec,
};

verus! {

broadcast use crate::text::lemma_chars_deep_view;

// ---------------------------------------------------------------------------
// Target directory
// ---------------------------------------------------------------------------

/// The path typed or dropped by the user, without surrounding white space
/// and then without surrounding double quotes.
pub open spec fn cleaned_input(input: Seq<char>) -> Seq<char> {
    trim_both(trim_both(input, CharClass::White), CharClass::Only('"'))
}

pub fn clean_target_input(input: &str) -> (out: String)
    ensures
        out@ == cleaned_input(input@),
{
    let chars = chars_of(input);
    let trimmed = trim_both_exec(&chars, &CharClass::White);
    let unquoted = trim_both_exec(&trimmed, &CharClass::Only('"'));
    string_of(&unquoted)
}

/// The directories that are never cleaned, from the environment variables
/// `WINDIR`, `ProgramFiles`, `ProgramFiles(x86)` and `USERPROFILE` (each with
/// its usual value where it is not set), and `C:\ProgramData`.
pub fn protected_directories(
    windir: Option<String>,
    program_files: Option<String>,
    program_files_x86: Option<String>,
    user_profile: Option<String>,
) -> (out: Vec<String>)
    ensures
        out.deep_view() == seq![
            match windir { Some(v) => v@, None => "C:\\Windows"@ },
            match program_files { Some(v) => v@, None => "C:\\Program Files"@ },
            match program_files_x86 { Some(v) => v@, None => "C:\\Program Files (x86)"@ },
            match user_profile { Some(v) => v@, None => "C:\\Users"@ },
            "C:\\ProgramData"@,
        ],
{
    let mut out: Vec<String> = Vec::new();
    out.push(
        match windir {
            Some(v) => v,
            None => "C:\\Windows".to_string(),
        },
    );
    out.push(
        match program_files {
            Some(v) => v,
            None => "C:\\Program Files".to_string(),
        },
    );
    out.push(
        match program_files_x86 {
            Some(v) => v,
            None => "C:\\Program Files (x86)".to_string(),
        },
    );
    out.push(
        match user_profile {
            Some(v) => v,
            None => "C:\\Users".to_string(),
        },
    );
    out.push("C:\\ProgramData".to_string());
    let ghost d = out.deep_view();
    assert(out.deep_view() =~= seq![d[0], d[1], d[2], d[3], d[4]]);
    out
}

/// Whether `path` is, once normalised, one of the protected directories.
pub open spec fn is_protected(path: Seq<char>, protected: Seq<Seq<char>>) -> bool {
    exists|i: int| 0 <= i < protected.len() && normalized(path) == normalized(#[trigger] protected[i])
}

/// Whether `path` is one of the `protected` directories (compared
/// normalised).
pub fn is_protected_directory(path: &str, protected: &[String]) -> (r: bool)
    ensures
        r == is_protected(path@, protected.deep_view()),
{
    let ghost pd = protected.deep_view();
    let p = normalize_chars(&chars_of(path));
    let mut i: usize = 0;
    while i < protected.len()
        invariant
            i <= protected.len(),
            pd == protected.deep_view(),
            p@ == normalized(path@),
            forall|k: int| 0 <= k < i ==> normalized(path@) != normalized(#[trigger] pd[k]),
        decreases protected.len() - i,
    {
        let q = normalize_chars(&chars_of(protected[i].as_str()));
        if chars_equal(&p, &q) {
            assert(normalized(path@) == normalized(pd[i as int]));
            return true;
        }
        i += 1;
    }
    false
}

/// Why a target directory is refused.
pub enum TargetRejection {
    /// The path is not absolute.
    NotAbsolute,
    /// The path cannot be resolved; the system's explanation.
    Unreachable(String),
    /// The path is not a directory.
    NotDirectory,
    /// The path is a drive root or a protected system directory.
    Protected,
}

pub open spec fn rejection_text(r: TargetRejection) -> Seq<char> {
    match r {
        TargetRejection::NotAbsolute => "请输入绝对路径。"@,
        TargetRejection::Unreachable(e) => "无法访问目录："@ + e@,
        TargetRejection::NotDirectory => "目标必须是目录。"@,
        TargetRejection::Protected => "为避免误删，拒绝清理磁盘根目录或系统关键目录。"@,
    }
}

impl TargetRejection {
    /// The message shown for this refusal.
    pub fn message(&self) -> (out: String)
        ensures
            out@ == rejection_text(*self),
    {
        match self {
            TargetRejection::NotAbsolute => "请输入绝对路径。".to_string(),
            TargetRejection::Unreachable(e) => {
                let mut text = chars_of("无法访问目录：");
                crate::text::append_str(&mut text, e.as_str());
                string_of(&text)
            },
            TargetRejection::NotDirectory => "目标必须是目录。".to_string(),
            TargetRejection::Protected => "为避免误删，拒绝清理磁盘根目录或系统关键目录。".to_string(),
        }
    }
}

/// The verdict on a resolved target: it must be a directory, have a parent
/// (no drive root), and not be protected.
pub fn check_resolved_target(
    resolved: &str,
    is_dir: bool,
    has_parent: bool,
    protected: &[String],
) -> (r: Option<TargetRejection>)
    ensures
        !is_dir ==> r matches Some(TargetRejection::NotDirectory),
        is_dir && (!has_parent || is_protected(resolved@, protected.deep_view())) ==> r matches Some(
            TargetRejection::Protected,
        ),
        is_dir && has_parent && !is_protected(resolved@, protected.deep_view()) ==> r is None,
{
    if !is_dir {
        return Some(TargetRejection::NotDirectory);
    }
    if !has_parent || is_protected_directory(resolved, protected) {
        return Some(TargetRejection::Protected);
    }
    None
}

// ---------------------------------------------------------------------------
// Scan locations
// ---------------------------------------------------------------------------

/// A registry location searched for keys of the target program.
pub struct ScanLocation {
    pub root: RegistryRoot,
    pub base: String,
    pub view: u32,
    pub category: String,
}

/// The mathematical value of a scan location.
pub struct LocationModel {
    pub root: RegistryRoot,
    pub base: Seq<char>,
    pub view: u32,
    pub category: Seq<char>,
}

impl DeepView for ScanLocation {
    type V = LocationModel;

    open spec fn deep_view(&self) -> LocationModel {
        LocationModel { root: self.root, base: self.base@, view: self.view, category: self.category@ }
    }
}

pub open spec fn uninstall_key() -> Seq<char> {
    "Software\\Microsoft\\Windows\\CurrentVersion\\Uninstall"@
}

pub open spec fn app_paths_key() -> Seq<char> {
    "Software\\Microsoft\\Windows\\CurrentVersion\\App Paths"@
}

pub open spec fn location(root: RegistryRoot, base: Seq<char>, view: u32, category: Seq<char>) -> LocationModel {
    LocationModel { root, base, view, category }
}

/// The searched locations, in order: the uninstall entries, the `App Paths`
/// entries and the whole `Software` key, each in both hives and both views.
pub open spec fn all_locations() -> Seq<LocationModel> {
    let cu = RegistryRoot::CurrentUser;
    let lm = RegistryRoot::LocalMachine;
    let u = "卸载项 InstallLocation"@;
    let a = "App Paths 程序路径"@;
    let s = "软件键路径引用"@;
    seq![
        location(cu, uninstall_key(), KEY_WOW64_64KEY, u),
        location(cu, uninstall_key(), KEY_WOW64_32KEY, u),
        location(lm, uninstall_key(), KEY_WOW64_64KEY, u),
        location(lm, uninstall_key(), KEY_WOW64_32KEY, u),
        location(cu, app_paths_key(), KEY_WOW64_64KEY, a),
        location(cu, app_paths_key(), KEY_WOW64_32KEY, a),
        location(lm, app_paths_key(), KEY_WOW64_64KEY, a),
        location(lm, app_paths_key(), KEY_WOW64_32KEY, a),
        location(cu, "Software"@, KEY_WOW64_64KEY, s),
        location(cu, "Software"@, KEY_WOW64_32KEY, s),
        location(lm, "Software"@, KEY_WOW64_64KEY, s),
        location(lm, "Software"@, KEY_WOW64_32KEY, s),
    ]
}

fn push_location(
    out: &mut Vec<ScanLocation>,
    root: RegistryRoot,
    base: &str,
    view: u32,
    category: &str,
)
    ensures
        final(out).deep_view() == old(out).deep_view().push(location(root, base@, view, category@)),
{
    let ghost before = out.deep_view();
    out.push(ScanLocation { root, base: base.to_string(), view, category: category.to_string() });
    assert(out.deep_view() =~= before.push(location(root, base@, view, category@)));
}

/// The registry locations searched for a target, in order.
pub fn scan_locations() -> (out: Vec<ScanLocation>)
    ensures
        out.deep_view() == all_locations(),
{
    let cu = RegistryRoot::CurrentUser;
    let lm = RegistryRoot::LocalMachine;
    let uninstall = "Software\\Microsoft\\Windows\\CurrentVersion\\Uninstall";
    let app_paths = "Software\\Microsoft\\Windows\\CurrentVersion\\App Paths";
    let u = "卸载项 InstallLocation";
    let a = "App Paths 程序路径";
    let s = "软件键路径引用";
    let mut out: Vec<ScanLocation> = Vec::new();
    push_location(&mut out, cu, uninstall, KEY_WOW64_64KEY, u);
    push_location(&mut out, cu, uninstall, KEY_WOW64_32KEY, u);
    push_location(&mut out, lm, uninstall, KEY_WOW64_64KEY, u);
    push_location(&mut out, lm, uninstall, KEY_WOW64_32KEY, u);
    push_location(&mut out, cu, app_paths, KEY_WOW64_64KEY, a);
    push_location(&mut out, cu, app_paths, KEY_WOW64_32KEY, a);
    push_location(&mut out, lm, app_paths, KEY_WOW64_64KEY, a);
    push_location(&mut out, lm, app_paths, KEY_WOW64_32KEY, a);
    push_location(&mut out, cu, "Software", KEY_WOW64_64KEY, s);
    push_location(&mut out, cu, "Software", KEY_WOW64_32KEY, s);
    push_location(&mut out, lm, "Software", KEY_WOW64_64KEY, s);
    push_location(&mut out, lm, "Software", KEY_WOW64_32KEY, s);
    assert(out.deep_view() =~= all_locations());
    out
}

// ---------------------------------------------------------------------------
// Window commands and the candidate list
// ---------------------------------------------------------------------------

/// Control identifiers of the window.
pub const INPUT_ID: usize = 1001;

pub const SCAN_ID: usize = 1002;

pub const DELETE_ID: usize = 1003;

pub const CANCEL_SCAN_ID: usize = 1004;

pub const OUTPUT_ID: usize = 1005;

pub const REGISTRY_LIST_ID: usize = 1006;

pub const BACKUP_ID: usize = 1007;

pub const OPEN_BACKUP_ID: usize = 1008;

/// Notification codes: an edit box changed, a button was clicked.
pub const EN_CHANGE: u16 = 0x0300;

pub const BN_CLICKED: u16 = 0;

/// What a command message asks for.
#[derive(PartialEq, Eq, Structural, Clone, Copy, Debug)]
pub enum WindowCommand {
    /// The path was edited: forget the last scan.
    ClearScan,
    Scan,
    CancelScan,
    Delete,
    OpenBackupDirectory,
    /// Nothing the cleaner handles.
    Ignore,
}

pub open spec fn command_of(id: usize, notify: u16) -> WindowCommand {
    if id == INPUT_ID && notify == EN_CHANGE {
        WindowCommand::ClearScan
    } else if notify == BN_CLICKED && id == SCAN_ID {
        WindowCommand::Scan
    } else if notify == BN_CLICKED && id == CANCEL_SCAN_ID {
        WindowCommand::CancelScan
    } else if notify == BN_CLICKED && id == DELETE_ID {
        WindowCommand::Delete
    } else if notify == BN_CLICKED && id == OPEN_BACKUP_ID {
        WindowCommand::OpenBackupDirectory
    } else {
        WindowCommand::Ignore
    }
}

/// The command carried by the `wParam` of a command message: the control's
/// identifier in the low 16 bits, the notification code in the next 16.
pub fn window_command(w_param: usize) -> (c: WindowCommand)
    ensures
        c == command_of(w_param % 0x10000, ((w_param / 0x10000) % 0x10000) as u16),
{
    let id = w_param & 0xffff;
    let notify = (w_param >> 16) as u16;
    assert(id == w_param % 0x10000) by (bit_vector)
        requires
            id == w_param & 0xffff,
    ;
    assert(notify == ((w_param / 0x10000) % 0x10000) as u16) by (bit_vector)
        requires
            notify == (w_param >> 16) as u16,
    ;
    if id == INPUT_ID && notify == EN_CHANGE {
        WindowCommand::ClearScan
    } else if notify == BN_CLICKED && id == SCAN_ID {
        WindowCommand::Scan
    } else if notify == BN_CLICKED && id == CANCEL_SCAN_ID {
        WindowCommand::CancelScan
    } else if notify == BN_CLICKED && id == DELETE_ID {
        WindowCommand::Delete
    } else if notify == BN_CLICKED && id == OPEN_BACKUP_ID {
        WindowCommand::OpenBackupDirectory
    } else {
        WindowCommand::Ignore
    }
}

/// The list-view state image bits.
pub const STATE_IMAGE_MASK: u32 = 0xF000;

/// The state image of a checked item.
pub const STATE_CHECKED: u32 = 0x2000;

/// The state image of an unchecked item.
pub const STATE_UNCHECKED: u32 = 0x1000;

/// The state image a candidate is listed with.
pub fn candidate_state_image(selected: bool) -> (s: u32)
    ensures
        s == (if selected {
            STATE_CHECKED
        } else {
            STATE_UNCHECKED
        }),
{
    if selected {
        STATE_CHECKED
    } else {
        STATE_UNCHECKED
    }
}

pub open spec fn category_text(certain: bool) -> Seq<char> {
    if certain {
        "确定垃圾"@
    } else {
        "可疑"@
    }
}

/// How a candidate is classed in the list: `确定垃圾` when certain, `可疑`
/// otherwise.
pub fn candidate_category(certain: bool) -> (s: &'static str)
    ensures
        s@ == category_text(certain),
{
    if certain {
        "确定垃圾"
    } else {
        "可疑"
    }
}

/// Whether a list item's state says it is checked.
pub open spec fn is_checked(state: u32) -> bool {
    state & STATE_IMAGE_MASK == STATE_CHECKED
}

/// The candidates whose list items are checked, in list order.
pub open spec fn checked_candidates(cands: Seq<CandidateModel>, states: Seq<u32>) -> Seq<
    CandidateModel,
>
    decreases cands.len(),
{
    if cands.len() == 0 {
        Seq::empty()
    } else {
        let rest = checked_candidates(cands.drop_last(), states);
        if (cands.len() - 1) < states.len() && is_checked(states[cands.len() - 1]) {
            rest.push(cands.last())
        } else {
            rest
        }
    }
}

/// The candidates the user left checked; `states[i]` is the list state of
/// the `i`-th candidate's item.
pub fn selected_candidates(candidates: &[RegistryCandidate], states: &[u32]) -> (out: Vec<
    RegistryCandidate,
>)
    ensures
        out.deep_view() == checked_candidates(candidates.deep_view(), states@),
{
    let ghost cs = candidates.deep_view();
    let mut out: Vec<RegistryCandidate> = Vec::new();
    let mut i: usize = 0;
    assert(cs.take(0) =~= Seq::<CandidateModel>::empty());
    while i < candidates.len()
        invariant
            i <= candidates.len(),
            cs == candidates.deep_view(),
            out.deep_view() == checked_candidates(cs.take(i as int), states@),
        decreases candidates.len() - i,
    {
        let ghost before = out.deep_view();
        assert(cs.take(i as int + 1).drop_last() =~= cs.take(i as int));
        assert(cs.take(i as int + 1).last() == cs[i as int]);
        if i < states.len() && states[i] & STATE_IMAGE_MASK == STATE_CHECKED {
            let item = candidates[i].clone();
            out.push(item);
            assert(out.deep_view() =~= before.push(cs[i as int]));
        }
        i += 1;
    }
    assert(cs.take(i as int) =~= cs);
    out
}

// ---------------------------------------------------------------------------
// Status texts
// ---------------------------------------------------------------------------

/// The text shown when no scan has been made.
pub fn idle_message() -> (s: &'static str)
    ensures
        s@ == "尚未扫描。请拖入文件夹，或输入绝对路径后点击“扫描”。"@,
{
    "尚未扫描。请拖入文件夹，或输入绝对路径后点击“扫描”。"
}

/// The text shown after the cancel button: whether a scan was running.
pub fn cancel_message(was_scanning: bool) -> (s: &'static str)
    ensures
        s@ == (if was_scanning {
            "扫描已取消。请拖入文件夹，或输入路径后重新扫描。"@
        } else {
            "当前没有正在进行的扫描。"@
        }),
{
    if was_scanning {
        "扫描已取消。请拖入文件夹，或输入路径后重新扫描。"
    } else {
        "当前没有正在进行的扫描。"
    }
}

} // verus!

//! Registry keys that may belong to a deleted program: their names, the
//! program signals looked for in them, and the judgement of one key.
use vstd::prelude::*;
use crate::paths::{classify, classify_registry_reference, EnvModel};
use crate::text::{
    append_chars, ascii_lower, chars_equal, chars_of, contains, contains_exec, copy_chars,
    join, join_exec, lex_lt, remove_chars, remove_chars_exec, string_of, to_ascii_lower,
};

verus! {

broadcast use crate::text::lemma_chars_deep_view;

// ---------------------------------------------------------------------------
// Roots and views
// ---------------------------------------------------------------------------

/// The registry hive a key lives in.
#[derive(PartialEq, Eq, Structural, Clone, Copy, Debug)]
pub enum RegistryRoot {
    /// `HKEY_CURRENT_USER`
    CurrentUser,
    /// `HKEY_LOCAL_MACHINE`
    LocalMachine,
}

/// Access flag that selects the 64-bit registry view.
pub const KEY_WOW64_64KEY: u32 = 0x0100;

/// Access flag that selects the 32-bit registry view.
pub const KEY_WOW64_32KEY: u32 = 0x0200;

pub open spec fn root_label(root: RegistryRoot) -> Seq<char> {
    match root {
        RegistryRoot::CurrentUser => "HKCU"@,
        RegistryRoot::LocalMachine => "HKLM"@,
    }
}

/// The short name of a hive: `HKCU` or `HKLM`.
pub fn registry_root_label(root: RegistryRoot) -> (s: &'static str)
    ensures
        s@ == root_label(root),
{
    match root {
        RegistryRoot::CurrentUser => "HKCU",
        RegistryRoot::LocalMachine => "HKLM",
    }
}

pub open spec fn view_label(view: u32) -> Seq<char> {
    if view == KEY_WOW64_32KEY {
        "32 位"@
    } else {
        "64 位"@
    }
}

pub open spec fn view_flag(view: u32) -> Seq<char> {
    if view == KEY_WOW64_32KEY {
        "/reg:32"@
    } else {
        "/reg:64"@
    }
}

/// How a registry view is shown: `32 位` for the 32-bit view, `64 位` for
/// any other.
pub fn registry_view_label(view: u32) -> (s: &'static str)
    ensures
        s@ == view_label(view),
{
    if view == KEY_WOW64_32KEY {
        "32 位"
    } else {
        "64 位"
    }
}

/// The `reg.exe` switch for a registry view: `/reg:32` for the 32-bit view,
/// `/reg:64` for any other.
pub fn registry_view_flag(view: u32) -> (s: &'static str)
    ensures
        s@ == view_flag(view),
{
    if view == KEY_WOW64_32KEY {
        "/reg:32"
    } else {
        "/reg:64"
    }
}

// ---------------------------------------------------------------------------
// Candidates
// ---------------------------------------------------------------------------

/// A registry key proposed for removal.
pub struct RegistryCandidate {
    pub root: RegistryRoot,
    pub view: u32,
    pub sub_key: String,
    pub display_name: String,
    pub reason: String,
    pub certain: bool,
    pub selected: bool,
}

/// The mathematical value of a candidate.
pub struct CandidateModel {
    pub root: RegistryRoot,
    pub view: u32,
    pub sub_key: Seq<char>,
    pub display_name: Seq<char>,
    pub reason: Seq<char>,
    pub certain: bool,
    pub selected: bool,
}

impl View for RegistryCandidate {
    type V = CandidateModel;

    open spec fn view(&self) -> CandidateModel {
        CandidateModel {
            root: self.root,
            view: self.view,
            sub_key: self.sub_key@,
            display_name: self.display_name@,
            reason: self.reason@,
            certain: self.certain,
            selected: self.selected,
        }
    }
}

impl DeepView for RegistryCandidate {
    type V = CandidateModel;

    open spec fn deep_view(&self) -> CandidateModel {
        self@
    }
}

impl Clone for RegistryCandidate {
    fn clone(&self) -> (out: Self)
        ensures
            out@ == self@,
    {
        RegistryCandidate {
            root: self.root,
            view: self.view,
            sub_key: self.sub_key.clone(),
            display_name: self.display_name.clone(),
            reason: self.reason.clone(),
            certain: self.certain,
            selected: self.selected,
        }
    }
}

/// `HIVE\sub\key`.
pub open spec fn full_name(c: CandidateModel) -> Seq<char> {
    root_label(c.root) + seq!['\\'] + c.sub_key
}

/// The full name of a candidate's key, such as `HKCU\Software\Example`.
pub fn registry_full_name(candidate: &RegistryCandidate) -> (out: String)
    ensures
        out@ == full_name(candidate@),
{
    let chars = full_name_chars(candidate);
    string_of(&chars)
}

pub fn full_name_chars(candidate: &RegistryCandidate) -> (out: Vec<char>)
    ensures
        out@ == full_name(candidate@),
{
    let mut out = chars_of(registry_root_label(candidate.root));
    out.push('\\');
    let sub_key = chars_of(candidate.sub_key.as_str());
    append_chars(&mut out, &sub_key);
    out
}

// ---------------------------------------------------------------------------
// Program signals
// ---------------------------------------------------------------------------

/// The characters that signal matching ignores.
pub open spec fn signal_noise() -> Seq<char> {
    seq!['_', '-', ' ', '"']
}

/// Text as signals are looked for in it: lowercased, without `_ - "` and
/// spaces.
pub open spec fn signal_form(text: Seq<char>) -> Seq<char> {
    remove_chars(ascii_lower(text), signal_noise())
}

/// The first index at or after `i` of a signal that `text` contains.
pub open spec fn first_signal_from(text: Seq<char>, signals: Seq<Seq<char>>, i: int) -> Option<
    int,
>
    decreases signals.len() - i,
{
    if i < 0 || i >= signals.len() {
        None
    } else if contains(text, signals[i]) {
        Some(i)
    } else {
        first_signal_from(text, signals, i + 1)
    }
}

/// The first of `signals` that the signal form of `text` contains.
pub open spec fn signal_in(text: Seq<char>, signals: Seq<Seq<char>>) -> Option<Seq<char>> {
    match first_signal_from(signal_form(text), signals, 0) {
        Some(k) => Some(signals[k]),
        None => None,
    }
}

pub fn signal_in_chars(text: &[char], signals: &[String]) -> (r: Option<Vec<char>>)
    ensures
        r matches Some(s) ==> signal_in(text@, signals.deep_view()) == Some(s@),
        r is None ==> signal_in(text@, signals.deep_view()) is None,
{
    let lowered = to_ascii_lower(text);
    let noise: Vec<char> = vec!['_', '-', ' ', '"'];
    assert(noise@ =~= signal_noise());
    let form = remove_chars_exec(&lowered, &noise);
    let ghost dv = signals.deep_view();
    let mut i: usize = 0;
    while i < signals.len()
        invariant
            i <= signals.len(),
            dv == signals.deep_view(),
            form@ == signal_form(text@),
            first_signal_from(form@, dv, 0) == first_signal_from(form@, dv, i as int),
        decreases signals.len() - i,
    {
        let signal = chars_of(signals[i].as_str());
        if contains_exec(&form, &signal) {
            return Some(signal);
        }
        i += 1;
    }
    None
}

/// The first of `signals` found in `text`, once both ignore ASCII case and
/// `text` ignores `_`, `-`, `"` and spaces.
pub fn contains_target_signal(text: &str, signals: &[String]) -> (r: Option<String>)
    ensures
        r matches Some(s) ==> signal_in(text@, signals.deep_view()) == Some(s@),
        r is None ==> signal_in(text@, signals.deep_view()) is None,
{
    let chars = chars_of(text);
    match signal_in_chars(&chars, signals) {
        Some(s) => Some(string_of(&s)),
        None => None,
    }
}

/// How many bytes the UTF-8 encoding of `s` takes.
pub open spec fn utf8_len(s: Seq<char>) -> nat
    decreases s.len(),
{
    if s.len() == 0 {
        0
    } else {
        let v = s.last() as u32;
        utf8_len(s.drop_last()) + if v < 0x80 {
            1nat
        } else if v < 0x800 {
            2nat
        } else if v < 0x10000 {
            3nat
        } else {
            4nat
        }
    }
}

proof fn lemma_utf8_len_prefix(s: Seq<char>, i: int)
    requires
        0 <= i <= s.len(),
    ensures
        utf8_len(s.take(i)) <= utf8_len(s),
    decreases s.len() - i,
{
    if i < s.len() {
        lemma_utf8_len_prefix(s, i + 1);
        assert(s.take(i + 1).drop_last() =~= s.take(i));
    } else {
        assert(s.take(i) =~= s);
    }
}

/// Whether the UTF-8 encoding of `s` takes at least five bytes.
fn utf8_len_at_least_five(s: &[char]) -> (r: bool)
    ensures
        r == (utf8_len(s@) >= 5),
{
    let mut total: u64 = 0;
    let mut i: usize = 0;
    while i < s.len()
        invariant
            i <= s.len(),
            total == utf8_len(s@.take(i as int)),
            total < 5,
        decreases s.len() - i,
    {
        let v: u32 = s[i] as u32;
        let w: u64 = if v < 0x80 {
            1
        } else if v < 0x800 {
            2
        } else if v < 0x10000 {
            3
        } else {
            4
        };
        assert(s@.take(i as int + 1).drop_last() =~= s@.take(i as int));
        total = total + w;
        i += 1;
        if total >= 5 {
            proof {
                lemma_utf8_len_prefix(s@, i as int);
            }
            return true;
        }
    }
    assert(s@.take(i as int) =~= s@);
    false
}

/// Rust's split of a file name at its last dot: the stem and, where there is
/// one, the extension. A name without a dot, or whose last dot is its first
/// character, has no extension; `..` has none either.
pub open spec fn split_file_name(name: Seq<char>) -> (Seq<char>, Option<Seq<char>>) {
    let dot = last_dot(name);
    if name == ".."@ || dot <= 1 {
        (name, None)
    } else {
        (name.take(dot - 1), Some(name.skip(dot)))
    }
}

/// One past the position of the last `.` in `s`, or 0 when there is none.
pub open spec fn last_dot(s: Seq<char>) -> int
    decreases s.len(),
{
    if s.len() == 0 {
        0
    } else if s.last() == '.' {
        s.len() as int
    } else {
        last_dot(s.drop_last())
    }
}

proof fn lemma_last_dot_bound(s: Seq<char>)
    ensures
        0 <= last_dot(s) <= s.len(),
        last_dot(s) > 0 ==> s[last_dot(s) - 1] == '.',
    decreases s.len(),
{
    if s.len() > 0 && s.last() != '.' {
        lemma_last_dot_bound(s.drop_last());
    }
}

fn last_dot_exec(s: &[char]) -> (n: usize)
    ensures
        n == last_dot(s@),
{
    let mut j: usize = s.len();
    assert(s@.take(j as int) =~= s@);
    while j > 0 && s[j - 1] != '.'
        invariant
            j <= s.len(),
            last_dot(s@.take(j as int)) == last_dot(s@),
        decreases j,
    {
        assert(s@.take(j as int).drop_last() =~= s@.take(j as int - 1));
        j -= 1;
    }
    proof {
        lemma_last_dot_bound(s@);
    }
    j
}

/// The signal a (lowercased) name contributes: the name without `_`, `-`
/// and spaces.
pub open spec fn signal_text(name: Seq<char>) -> Seq<char> {
    remove_chars(name, seq!['_', '-', ' '])
}

/// The names that may identify the program installed in a directory: the
/// directory's own name, then the stem of each `.exe` file in it.
pub open spec fn raw_signals(target_name: Option<Seq<char>>, entries: Seq<Seq<char>>) -> Seq<
    Seq<char>,
>
    decreases entries.len(),
{
    if entries.len() == 0 {
        match target_name {
            Some(n) => seq![ascii_lower(n)],
            None => Seq::empty(),
        }
    } else {
        let rest = raw_signals(target_name, entries.drop_last());
        let (stem, ext) = split_file_name(entries.last());
        match ext {
            Some(e) => if ascii_lower(e) == "exe"@ {
                rest.push(ascii_lower(stem))
            } else {
                rest
            },
            None => rest,
        }
    }
}

/// A signal is kept when it takes at least five bytes and is not `unins000`.
pub open spec fn keeps_signal(s: Seq<char>) -> bool {
    utf8_len(s) >= 5 && s != "unins000"@
}

/// The signals of a target directory, given its own name (`None` where it
/// has none) and the names of the entries in it.
pub open spec fn is_signal_of(
    target_name: Option<Seq<char>>,
    entries: Seq<Seq<char>>,
    s: Seq<char>,
) -> bool {
    keeps_signal(s) && exists|k: int|
        0 <= k < raw_signals(target_name, entries).len() && #[trigger] signal_text(
            raw_signals(target_name, entries)[k],
        ) == s
}

/// `s` is kept and is the signal text of one of the first `k` raw signals.
pub open spec fn kept_among(raw: Seq<Seq<char>>, k: int, s: Seq<char>) -> bool {
    keeps_signal(s) && exists|m: int| 0 <= m < k && #[trigger] signal_text(raw[m]) == s
}

proof fn lemma_kept_among_step(raw: Seq<Seq<char>>, k: int, s: Seq<char>)
    requires
        0 <= k < raw.len(),
    ensures
        kept_among(raw, k + 1, s) <==> (kept_among(raw, k, s) || (keeps_signal(s) && s
            == signal_text(raw[k]))),
{
    if kept_among(raw, k + 1, s) {
        let m = choose|m: int| 0 <= m < k + 1 && #[trigger] signal_text(raw[m]) == s;
        if m < k {
            assert(kept_among(raw, k, s));
        }
    }
    if kept_among(raw, k, s) {
        let m = choose|m: int| 0 <= m < k && #[trigger] signal_text(raw[m]) == s;
        assert(0 <= m < k + 1 && signal_text(raw[m]) == s);
    }
    if keeps_signal(s) && s == signal_text(raw[k]) {
        assert(0 <= k < k + 1 && signal_text(raw[k]) == s);
    }
}

/// Strictly increasing in the order of `str`.
pub open spec fn strictly_sorted(s: Seq<Seq<char>>) -> bool {
    forall|i: int, j: int| 0 <= i < j < s.len() ==> lex_lt(#[trigger] s[i], #[trigger] s[j])
}

/// Inserts `x` into a strictly sorted list unless it is there already.
fn insert_sorted(list: &mut Vec<Vec<char>>, x: Vec<char>)
    requires
        strictly_sorted(old(list).deep_view()),
    ensures
        strictly_sorted(final(list).deep_view()),
        forall|y: Seq<char>|
            #[trigger] final(list).deep_view().contains(y) <==> (old(list).deep_view().contains(y)
                || y == x@),
{
    let ghost before = list.deep_view();
    let mut p: usize = 0;
    while p < list.len() && crate::text::lex_lt_exec(&list[p], &x)
        invariant
            p <= list.len(),
            list.deep_view() == before,
            strictly_sorted(before),
            forall|k: int| 0 <= k < p ==> lex_lt(#[trigger] before[k], x@),
        decreases list.len() - p,
    {
        assert(before[p as int] == list@[p as int]@);
        p += 1;
    }
    proof {
        if p < list.len() {
            crate::text::lemma_lex_total(before[p as int], x@);
        }
    }
    if p < list.len() {
        assert(before[p as int] == list@[p as int]@);
    }
    if p < list.len() && chars_equal(&list[p], &x) {
        assert(before.contains(x@)) by {
            assert(before[p as int] == x@);
        }
        return;
    }
    let ghost xv = x@;
    assert(x.deep_view() =~= x@);
    list.insert(p, x);
    let ghost after = list.deep_view();
    assert(after =~= before.insert(p as int, xv));
    assert forall|i: int, j: int| 0 <= i < j < after.len() implies lex_lt(
        #[trigger] after[i],
        #[trigger] after[j],
    ) by {
        if j < p {
            assert(after[i] == before[i] && after[j] == before[j]);
        } else if j == p {
            assert(after[i] == before[i]);
        } else if i == p {
            assert(after[j] == before[j - 1]);
            if j - 1 > p {
                assert(lex_lt(before[p as int], before[j - 1]));
                crate::text::lemma_lex_transitive(xv, before[p as int], before[j - 1]);
            }
        } else if i < p {
            assert(after[i] == before[i] && after[j] == before[j - 1]);
            crate::text::lemma_lex_transitive(before[i], xv, before[p as int]);
            if j - 1 > p {
                crate::text::lemma_lex_transitive(before[i], before[p as int], before[j - 1]);
            }
        } else {
            assert(after[i] == before[i - 1] && after[j] == before[j - 1]);
        }
    }
    assert forall|y: Seq<char>| (before.contains(y) || y == xv) implies #[trigger] after.contains(y) by {
        if y == xv {
            assert(after[p as int] == xv);
        } else if before.contains(y) {
            let k = choose|k: int| 0 <= k < before.len() && before[k] == y;
            if k < p {
                assert(after[k] == y);
            } else {
                assert(after[k + 1] == y);
            }
        }
    }
    assert forall|y: Seq<char>| #[trigger] after.contains(y) implies (before.contains(y) || y
        == xv) by {
        let k = choose|k: int| 0 <= k < after.len() && after[k] == y;
        if k < p {
            assert(before[k] == y);
        } else if k > p {
            assert(before[k - 1] == y);
        }
    }
}

/// The names that may identify the program installed in the target
/// directory, sorted and without duplicates: the directory's own name
/// (`target_name`) and the stems of the `.exe` files among `entry_names`,
/// lowercased, without `_`, `-` and spaces, keeping those of at least five
/// bytes other than `unins000`.
pub fn target_signals(target_name: Option<&str>, entry_names: &[String]) -> (out: Vec<String>)
    ensures
        strictly_sorted(out.deep_view()),
        forall|s: Seq<char>|
            #[trigger] out.deep_view().contains(s) <==> is_signal_of(
                match target_name {
                    Some(n) => Some(n@),
                    None => None,
                },
                entry_names.deep_view(),
                s,
            ),
{
    let ghost tn: Option<Seq<char>> = match target_name {
        Some(n) => Some(n@),
        None => None,
    };
    let ghost entries = entry_names.deep_view();
    let mut raw: Vec<Vec<char>> = Vec::new();
    match target_name {
        Some(n) => {
            let chars = chars_of(n);
            let lowered = to_ascii_lower(&chars);
            raw.push(lowered);
        },
        None => {},
    }
    assert(raw.deep_view() =~= raw_signals(tn, entries.take(0)));
    let mut i: usize = 0;
    while i < entry_names.len()
        invariant
            i <= entry_names.len(),
            entries == entry_names.deep_view(),
            raw.deep_view() == raw_signals(tn, entries.take(i as int)),
        decreases entry_names.len() - i,
    {
        let name = chars_of(entry_names[i].as_str());
        let dot = last_dot_exec(&name);
        let ghost prefix = entries.take(i as int + 1);
        assert(prefix.drop_last() =~= entries.take(i as int));
        assert(prefix.last() == name@);
        let dotdot = chars_of("..");
        proof {
            lemma_last_dot_bound(name@);
        }
        if !chars_equal(&name, &dotdot) && dot > 1 {
            let ext = crate::text::slice_chars(&name, dot, name.len());
            let ext_lower = to_ascii_lower(&ext);
            assert(ext@ =~= name@.skip(dot as int));
            if chars_equal(&ext_lower, &chars_of("exe")) {
                let stem = crate::text::slice_chars(&name, 0, dot - 1);
                assert(stem@ =~= name@.take(dot - 1));
                let lowered = to_ascii_lower(&stem);
                raw.push(lowered);
            }
        }
        i += 1;
    }
    assert(entries.take(i as int) =~= entries);
    let ghost raw_all = raw.deep_view();
    assert(forall|s: Seq<char>| !kept_among(raw_all, 0, s));
    let mut out: Vec<Vec<char>> = Vec::new();
    let unins = chars_of("unins000");
    let drop: Vec<char> = vec!['_', '-', ' '];
    assert(drop@ =~= seq!['_', '-', ' ']);
    let mut k: usize = 0;
    while k < raw.len()
        invariant
            k <= raw.len(),
            raw_all == raw.deep_view(),
            raw_all == raw_signals(tn, entries),
            raw_all.len() == raw.len(),
            drop@ == seq!['_', '-', ' '],
            unins@ == "unins000"@,
            strictly_sorted(out.deep_view()),
            forall|s: Seq<char>| #[trigger] out.deep_view().contains(s) <==> kept_among(raw_all, k as int, s),
        decreases raw.len() - k,
    {
        let signal = remove_chars_exec(&raw[k], &drop);
        let long_enough = utf8_len_at_least_five(&signal);
        let ghost sv = signal@;
        if long_enough && !chars_equal(&signal, &unins) {
            insert_sorted(&mut out, signal);
        }
        assert(raw_all[k as int] == raw@[k as int]@);
        assert(sv == signal_text(raw_all[k as int]));
        proof {
            reveal_strlit("unins000");
            assert forall|s: Seq<char>| #[trigger] out.deep_view().contains(s) <==> kept_among(
                raw_all,
                k as int + 1,
                s,
            ) by {
                lemma_kept_among_step(raw_all, k as int, s);
            }
        }
        k += 1;
    }
    let mut result: Vec<String> = Vec::new();
    let mut j: usize = 0;
    while j < out.len()
        invariant
            j <= out.len(),
            result.deep_view() == out.deep_view().take(j as int),
        decreases out.len() - j,
    {
        assert(out.deep_view()[j as int] == out@[j as int]@);
        let ghost before = result.deep_view();
        let item = string_of(&out[j]);
        result.push(item);
        assert(result.deep_view() =~= before.push(out.deep_view()[j as int]));
        j += 1;
        assert(result.deep_view() =~= out.deep_view().take(j as int));
    }
    assert(out.deep_view().take(j as int) =~= out.deep_view());
    result
}

// ---------------------------------------------------------------------------
// Judging one registry key
// ---------------------------------------------------------------------------

/// The last component of a key path (after its last `\`), or the whole path.
pub open spec fn key_leaf(sub_key: Seq<char>) -> Seq<char> {
    sub_key.skip(crate::paths::basename_start_backslash(sub_key) as int)
}

/// The reason given when the key's own name holds a program signal.
pub open spec fn key_signal_reason(signal: Seq<char>) -> Seq<char> {
    "注册表键名包含程序标识 "@ + signal
}

/// The reason given when value `name` refers to the target.
pub open spec fn reference_reason(name: Seq<char>, certain: bool) -> Seq<char> {
    if certain {
        name + " 强匹配目标目录"@
    } else {
        name + " 路径引用目标目录"@
    }
}

/// The reason given when value `name` holds a program signal.
pub open spec fn value_signal_reason(name: Seq<char>, signal: Seq<char>) -> Seq<char> {
    name + " 包含程序标识 "@ + signal
}

/// What the reading of a key's values has gathered so far.
pub struct KeyFindings {
    pub display_name: Seq<char>,
    pub reasons: Seq<Seq<char>>,
    pub certain: bool,
}

/// The findings before any value is read.
pub open spec fn initial_findings(sub_key: Seq<char>, signals: Seq<Seq<char>>) -> KeyFindings {
    KeyFindings {
        display_name: key_leaf(sub_key),
        reasons: match signal_in(sub_key, signals) {
            Some(s) => seq![key_signal_reason(s)],
            None => Seq::empty(),
        },
        certain: false,
    }
}

/// The findings once the value `name` = `value` is read too: a non-empty
/// `DisplayName` names the key; a reference to the target, and a program
/// signal in the value, each give a reason.
pub open spec fn read_value(
    f: KeyFindings,
    name: Seq<char>,
    value: Seq<char>,
    category: Seq<char>,
    target: Seq<char>,
    signals: Seq<Seq<char>>,
    env: EnvModel,
) -> KeyFindings {
    let display = if ascii_lower(name) == "displayname"@ && value.len() > 0 {
        value
    } else {
        f.display_name
    };
    let (matched, certain) = classify(category, name, value, target, env);
    let r1 = if matched {
        f.reasons.push(reference_reason(name, certain))
    } else {
        f.reasons
    };
    let r2 = match signal_in(value, signals) {
        Some(s) => r1.push(value_signal_reason(name, s)),
        None => r1,
    };
    KeyFindings { display_name: display, reasons: r2, certain: f.certain || (matched && certain) }
}

/// The findings once all of `values` are read, in order.
pub open spec fn read_values(
    values: Seq<(Seq<char>, Seq<char>)>,
    sub_key: Seq<char>,
    category: Seq<char>,
    target: Seq<char>,
    signals: Seq<Seq<char>>,
    env: EnvModel,
) -> KeyFindings
    decreases values.len(),
{
    if values.len() == 0 {
        initial_findings(sub_key, signals)
    } else {
        read_value(
            read_values(values.drop_last(), sub_key, category, target, signals, env),
            values.last().0,
            values.last().1,
            category,
            target,
            signals,
            env,
        )
    }
}

/// The candidate a key yields: one exactly when some reason was found.
pub open spec fn key_candidate(
    root: RegistryRoot,
    view: u32,
    sub_key: Seq<char>,
    values: Seq<(Seq<char>, Seq<char>)>,
    category: Seq<char>,
    target: Seq<char>,
    signals: Seq<Seq<char>>,
    env: EnvModel,
) -> Option<CandidateModel> {
    let f = read_values(values, sub_key, category, target, signals, env);
    if f.reasons.len() == 0 {
        None
    } else {
        Some(
            CandidateModel {
                root,
                view,
                sub_key,
                display_name: f.display_name,
                reason: join(f.reasons, "；"@),
                certain: f.certain,
                selected: true,
            },
        )
    }
}

/// Whether some value among `values` is a certain reference to the target.
pub open spec fn has_certain_value(
    values: Seq<(Seq<char>, Seq<char>)>,
    category: Seq<char>,
    target: Seq<char>,
    env: EnvModel,
) -> bool {
    exists|i: int|
        0 <= i < values.len() && #[trigger] classify(category, values[i].0, values[i].1, target, env) == (
        true,
        true,
    )
}

/// A key's findings are certain exactly when one of its values is a certain
/// reference to the target, wherever it stands among the values: a later,
/// weaker reference never takes the certainty back.
pub proof fn law_findings_certain_iff_certain_value(
    values: Seq<(Seq<char>, Seq<char>)>,
    sub_key: Seq<char>,
    category: Seq<char>,
    target: Seq<char>,
    signals: Seq<Seq<char>>,
    env: EnvModel,
)
    ensures
        read_values(values, sub_key, category, target, signals, env).certain == has_certain_value(
            values,
            category,
            target,
            env,
        ),
    decreases values.len(),
{
    if values.len() > 0 {
        let rest = values.drop_last();
        law_findings_certain_iff_certain_value(rest, sub_key, category, target, signals, env);
        let last = values.len() - 1;
        if has_certain_value(rest, category, target, env) {
            let i = choose|i: int|
                0 <= i < rest.len() && #[trigger] classify(category, rest[i].0, rest[i].1, target, env)
                    == (true, true);
            assert(values[i] == rest[i]);
        }
        if has_certain_value(values, category, target, env) {
            let i = choose|i: int|
                0 <= i < values.len() && #[trigger] classify(category, values[i].0, values[i].1, target, env)
                    == (true, true);
            if i < last {
                assert(rest[i] == values[i]);
            }
        }
        let c = classify(category, values[last].0, values[last].1, target, env);
        if c == (true, true) {
            assert(has_certain_value(values, category, target, env));
        }
    }
}

/// The candidate a key yields is certain exactly when one of the key's
/// values is a certain reference to the target.
pub proof fn law_candidate_certain_iff_certain_value(
    root: RegistryRoot,
    view: u32,
    sub_key: Seq<char>,
    values: Seq<(Seq<char>, Seq<char>)>,
    category: Seq<char>,
    target: Seq<char>,
    signals: Seq<Seq<char>>,
    env: EnvModel,
)
    ensures
        key_candidate(root, view, sub_key, values, category, target, signals, env) matches Some(c)
            ==> c.certain == has_certain_value(values, category, target, env),
        has_certain_value(values, category, target, env) ==> key_candidate(
            root,
            view,
            sub_key,
            values,
            category,
            target,
            signals,
            env,
        ) is Some,
{
    law_findings_certain_iff_certain_value(values, sub_key, category, target, signals, env);
    if has_certain_value(values, category, target, env) {
        lemma_reference_found_gives_reason(values, sub_key, category, target, signals, env);
    }
}

proof fn lemma_reference_found_gives_reason(
    values: Seq<(Seq<char>, Seq<char>)>,
    sub_key: Seq<char>,
    category: Seq<char>,
    target: Seq<char>,
    signals: Seq<Seq<char>>,
    env: EnvModel,
)
    requires
        has_certain_value(values, category, target, env),
    ensures
        read_values(values, sub_key, category, target, signals, env).reasons.len() > 0,
    decreases values.len(),
{
    let rest = values.drop_last();
    let last = values.len() - 1;
    let i = choose|i: int|
        0 <= i < values.len() && #[trigger] classify(category, values[i].0, values[i].1, target, env)
            == (true, true);
    if i < last {
        assert(rest[i] == values[i]);
        assert(has_certain_value(rest, category, target, env));
        lemma_reference_found_gives_reason(rest, sub_key, category, target, signals, env);
    }
}

/// How deep below a scan location the walk goes: four levels under the
/// whole-`Software` locations, one level (the entries) elsewhere.
pub open spec fn location_depth(category: Seq<char>) -> u32 {
    if category == "软件键路径引用"@ {
        4
    } else {
        1
    }
}

pub fn registry_location_depth(category: &str) -> (d: u32)
    ensures
        d == location_depth(category@),
{
    let c = chars_of(category);
    if chars_equal(&c, &chars_of("软件键路径引用")) {
        4
    } else {
        1
    }
}

/// Judges the key `sub_key` of the scan location `category`, whose values
/// are `values`: a candidate for removal when its name holds a program
/// signal, or one of its values refers to the target directory or holds a
/// program signal.
pub fn evaluate_registry_key(
    root: RegistryRoot,
    view: u32,
    sub_key: &str,
    values: &[(String, String)],
    category: &str,
    target_norm: &str,
    signals: &[String],
    env: &[(String, String)],
) -> (r: Option<RegistryCandidate>)
    ensures
        r matches Some(c) ==> key_candidate(
            root,
            view,
            sub_key@,
            values.deep_view(),
            category@,
            target_norm@,
            signals.deep_view(),
            env.deep_view(),
        ) == Some(c@),
        r is None ==> key_candidate(
            root,
            view,
            sub_key@,
            values.deep_view(),
            category@,
            target_norm@,
            signals.deep_view(),
            env.deep_view(),
        ) is None,
{
    let ghost vals = values.deep_view();
    let ghost sigs = signals.deep_view();
    let ghost envm = env.deep_view();
    let key_chars = chars_of(sub_key);
    let start = crate::paths::basename_start_backslash_exec(&key_chars);
    let mut display_name = crate::text::slice_chars(&key_chars, start, key_chars.len());
    let mut reasons: Vec<Vec<char>> = Vec::new();
    let mut certain = false;
    match signal_in_chars(&key_chars, signals) {
        Some(s) => {
            let mut r = chars_of("注册表键名包含程序标识 ");
            append_chars(&mut r, &s);
            reasons.push(r);
        },
        None => {},
    }
    assert(reasons.deep_view() =~= initial_findings(sub_key@, sigs).reasons);
    assert(vals.take(0) =~= Seq::<(Seq<char>, Seq<char>)>::empty());
    let mut i: usize = 0;
    while i < values.len()
        invariant
            i <= values.len(),
            vals == values.deep_view(),
            sigs == signals.deep_view(),
            envm == env.deep_view(),
            key_chars@ == sub_key@,
            display_name@ == read_values(
                vals.take(i as int),
                sub_key@,
                category@,
                target_norm@,
                sigs,
                envm,
            ).display_name,
            reasons.deep_view() == read_values(
                vals.take(i as int),
                sub_key@,
                category@,
                target_norm@,
                sigs,
                envm,
            ).reasons,
            certain == read_values(
                vals.take(i as int),
                sub_key@,
                category@,
                target_norm@,
                sigs,
                envm,
            ).certain,
        decreases values.len() - i,
    {
        assert(vals.take(i as int + 1).drop_last() =~= vals.take(i as int));
        let name = values[i].0.as_str();
        let value = values[i].1.as_str();
        let name_chars = chars_of(name);
        let value_chars = chars_of(value);
        let lowered = to_ascii_lower(&name_chars);
        if chars_equal(&lowered, &chars_of("displayname")) && value_chars.len() > 0 {
            display_name = copy_chars(&value_chars);
        }
        let (matched, is_certain) = classify_registry_reference(
            category,
            name,
            value,
            target_norm,
            env,
        );
        if matched {
            certain = certain || is_certain;
            let mut r = copy_chars(&name_chars);
            if is_certain {
                append_chars(&mut r, &chars_of(" 强匹配目标目录"));
            } else {
                append_chars(&mut r, &chars_of(" 路径引用目标目录"));
            }
            reasons.push(r);
        }
        match signal_in_chars(&value_chars, signals) {
            Some(s) => {
                let mut r = copy_chars(&name_chars);
                append_chars(&mut r, &chars_of(" 包含程序标识 "));
                append_chars(&mut r, &s);
                reasons.push(r);
            },
            None => {},
        }
        i += 1;
    }
    assert(vals.take(i as int) =~= vals);
    if reasons.len() == 0 {
        return None;
    }
    let sep = chars_of("；");
    let reason = join_exec(&reasons, &sep);
    Some(
        RegistryCandidate {
            root,
            view,
            sub_key: sub_key.to_string(),
            display_name: string_of(&display_name),
            reason: string_of(&reason),
            certain,
            selected: true,
        },
    )
}

// ---------------------------------------------------------------------------
// Enumerating a key
// ---------------------------------------------------------------------------

/// Windows result codes met while reading the registry.
pub const ERROR_SUCCESS: u32 = 0;

pub const ERROR_FILE_NOT_FOUND: u32 = 2;

pub const ERROR_MORE_DATA: u32 = 234;

pub const ERROR_NO_MORE_ITEMS: u32 = 259;

/// What to do after one call that enumerates a key's subkeys or values.
#[derive(PartialEq, Eq, Structural, Clone, Copy, Debug)]
pub enum EnumStep {
    /// There is nothing more to enumerate.
    Stop,
    /// The buffers were too small: make them this large and ask for the same
    /// index again.
    Grow { name_capacity: usize, data_capacity: usize },
    /// The entry was read: take it and go on with the next index.
    Take,
    /// The entry could not be read: go on with the next index.
    Skip,
}

/// The step after enumerating a subkey returned `code`.
pub fn subkey_enum_step(code: u32) -> (step: EnumStep)
    ensures
        step == (if code == ERROR_NO_MORE_ITEMS {
            EnumStep::Stop
        } else if code == ERROR_SUCCESS {
            EnumStep::Take
        } else {
            EnumStep::Skip
        }),
{
    if code == ERROR_NO_MORE_ITEMS {
        EnumStep::Stop
    } else if code == ERROR_SUCCESS {
        EnumStep::Take
    } else {
        EnumStep::Skip
    }
}

/// The step after enumerating a value returned `code`, with the name and
/// data lengths the call reported and the current buffer sizes: on
/// `ERROR_MORE_DATA` the name buffer grows to hold the reported name and its
/// NUL when it was full, and the data buffer to the reported size when that
/// is larger.
pub fn value_enum_step(
    code: u32,
    name_length: u32,
    name_capacity: usize,
    data_length: u32,
    data_capacity: usize,
) -> (step: EnumStep)
    requires
        name_capacity >= 1,
        name_length as nat + 1 <= usize::MAX,
    ensures
        step == (if code == ERROR_NO_MORE_ITEMS {
            EnumStep::Stop
        } else if code == ERROR_MORE_DATA {
            EnumStep::Grow {
                name_capacity: if name_length >= name_capacity - 1 {
                    (name_length + 1) as usize
                } else {
                    name_capacity
                },
                data_capacity: if data_length > data_capacity {
                    data_length as usize
                } else {
                    data_capacity
                },
            }
        } else if code == ERROR_SUCCESS {
            EnumStep::Take
        } else {
            EnumStep::Skip
        }),
{
    if code == ERROR_NO_MORE_ITEMS {
        EnumStep::Stop
    } else if code == ERROR_MORE_DATA {
        let name_len = name_length as usize;
        let data_len = data_length as usize;
        EnumStep::Grow {
            name_capacity: if name_len >= name_capacity - 1 {
                name_len + 1
            } else {
                name_capacity
            },
            data_capacity: if data_len > data_capacity {
                data_len
            } else {
                data_capacity
            },
        }
    } else if code == ERROR_SUCCESS {
        EnumStep::Take
    } else {
        EnumStep::Skip
    }
}

} // verus!

//! Windows path text: normalisation, environment expansion, and deciding
//! whether a registry value refers to a directory.
use vstd::prelude::*;
use vstd::string::*;
use crate::text::{
    CharClass, append_chars, ascii_lower, chars_equal, chars_of, contains, copy_chars, find, find_exec, is_ascii_alnum, is_ascii_alnum_exec, kept_len, lemma_ascii_lower_idempotent, lemma_find_from_sound, lemma_kept_len_bound, lower_char, map_char, remove_chars, remove_chars_exec, replace_all, replace_all_exec, replace_char, slice_chars, starts_with, starts_with_exec, string_of, to_ascii_lower, trim_end, trim_end_exec,
};

verus! {

/// An environment: `(name, value)` pairs in the order the system lists them.
pub type EnvModel = Seq<(Seq<char>, Seq<char>)>;

// ---------------------------------------------------------------------------
// Normalisation
// ---------------------------------------------------------------------------

/// A path as the cleaner compares it: `/` becomes `\`, trailing `\` are cut,
/// ASCII letters are lowercased.
pub open spec fn normalized(s: Seq<char>) -> Seq<char> {
    ascii_lower(trim_end(map_char(s, '/', '\\'), CharClass::Only('\\')))
}

pub fn normalize_chars(s: &[char]) -> (out: Vec<char>)
    ensures
        out@ == normalized(s@),
{
    let replaced = replace_char(s, '/', '\\');
    let trimmed = trim_end_exec(&replaced, &CharClass::Only('\\'));
    to_ascii_lower(&trimmed)
}

/// Normalises a path for comparison: `/` becomes `\`, trailing `\` are
/// removed, and ASCII letters are lowercased.
pub fn normalize_path(path: &str) -> (out: String)
    ensures
        out@ == normalized(path@),
{
    let chars = chars_of(path);
    let out = normalize_chars(&chars);
    string_of(&out)
}

proof fn lemma_map_char_without(s: Seq<char>, from: char, to: char)
    requires
        !s.contains(from),
    ensures
        map_char(s, from, to) == s,
{
    assert forall|i: int| 0 <= i < s.len() implies map_char(s, from, to)[i] == s[i] by {
        if s[i] == from {
            assert(s.contains(from));
        }
    }
    assert(map_char(s, from, to) =~= s);
}

/// A normalised path contains no `/`, does not end with `\`, and has no ASCII
/// capital letter.
pub proof fn lemma_normalized_shape(s: Seq<char>)
    ensures
        !normalized(s).contains('/'),
        normalized(s).len() > 0 ==> normalized(s).last() != '\\',
        ascii_lower(normalized(s)) == normalized(s),
{
    let m = map_char(s, '/', '\\');
    let t = trim_end(m, CharClass::Only('\\'));
    lemma_kept_len_bound(m, CharClass::Only('\\'));
    let n = normalized(s);
    assert forall|i: int| 0 <= i < n.len() implies n[i] != '/' by {
        assert(n[i] == lower_char(t[i]));
        assert(t[i] == m[i]);
    }
    if n.len() > 0 {
        assert(n.last() == lower_char(t.last()));
        assert(t.last() == m[kept_len(m, CharClass::Only('\\')) - 1]);
    }
    lemma_ascii_lower_idempotent(t);
}

/// Normalising a normalised path changes nothing.
pub proof fn lemma_normalize_idempotent(s: Seq<char>)
    ensures
        normalized(normalized(s)) == normalized(s),
{
    let n = normalized(s);
    lemma_normalized_shape(s);
    lemma_map_char_without(n, '/', '\\');
    if n.len() > 0 {
        assert(kept_len(n, CharClass::Only('\\')) == n.len());
    } else {
        assert(kept_len(n, CharClass::Only('\\')) == 0);
    }
    assert(trim_end(n, CharClass::Only('\\')) =~= n);
}

// ---------------------------------------------------------------------------
// Environment variables
// ---------------------------------------------------------------------------

/// The placeholder that names an environment variable: `%NAME%`.
pub open spec fn env_placeholder(name: Seq<char>) -> Seq<char> {
    seq!['%'] + name + seq!['%']
}

/// `value` with each `%NAME%` replaced by the variable's value, one variable
/// after another in the order of `env`.
pub open spec fn expand(value: Seq<char>, env: EnvModel) -> Seq<char>
    decreases env.len(),
{
    if env.len() == 0 {
        value
    } else {
        replace_all(
            expand(value, env.drop_last()),
            env_placeholder(env.last().0),
            env.last().1,
        )
    }
}

pub fn expand_chars(value: &[char], env: &[(String, String)]) -> (out: Vec<char>)
    ensures
        out@ == expand(value@, env.deep_view()),
{
    let mut result = copy_chars(value);
    let mut i: usize = 0;
    while i < env.len()
        invariant
            i <= env.len(),
            result@ == expand(value@, env.deep_view().take(i as int)),
        decreases env.len() - i,
    {
        let ghost dv = env.deep_view();
        assert(dv.take(i as int + 1).drop_last() =~= dv.take(i as int));
        let mut pattern: Vec<char> = Vec::new();
        pattern.push('%');
        let name = chars_of(env[i].0.as_str());
        append_chars(&mut pattern, &name);
        pattern.push('%');
        assert(pattern@ =~= env_placeholder(dv[i as int].0));
        let replacement = chars_of(env[i].1.as_str());
        result = replace_all_exec(&result, &pattern, &replacement);
        i += 1;
    }
    assert(env.deep_view().take(i as int) =~= env.deep_view());
    result
}

/// Replaces each `%NAME%` in `value` by the value of the environment variable
/// `NAME`, taking the variables of `env` one after another.
pub fn expand_environment(value: &str, env: &[(String, String)]) -> (out: String)
    ensures
        out@ == expand(value@, env.deep_view()),
{
    let chars = chars_of(value);
    let out = expand_chars(&chars, env);
    string_of(&out)
}

/// A value without `%` is left alone by expansion.
pub proof fn lemma_expand_without_percent(value: Seq<char>, env: EnvModel)
    requires
        !value.contains('%'),
    ensures
        expand(value, env) == value,
    decreases env.len(),
{
    if env.len() > 0 {
        lemma_expand_without_percent(value, env.drop_last());
        lemma_replace_all_absent(value, env_placeholder(env.last().0), env.last().1);
    }
}

proof fn lemma_replace_all_absent(s: Seq<char>, pat: Seq<char>, rep: Seq<char>)
    requires
        pat.len() > 0,
        pat[0] == '%',
        !s.contains('%'),
    ensures
        replace_all(s, pat, rep) == s,
    decreases s.len(),
{
    if s.len() > 0 {
        if starts_with(s, pat) {
            assert(s.subrange(0, pat.len() as int)[0] == s[0]);
            assert(s.contains(s[0]));
        }
        let rest = s.skip(1);
        assert forall|c: char| rest.contains(c) implies s.contains(c) by {
            let k = choose|k: int| 0 <= k < rest.len() && rest[k] == c;
            assert(s[k + 1] == c);
        }
        lemma_replace_all_absent(rest, pat, rep);
        assert(seq![s[0]] + rest =~= s);
    }
}

// ---------------------------------------------------------------------------
// Does a registry value refer to the target directory?
// ---------------------------------------------------------------------------

/// Whether the text `value` (after environment expansion, without quotes)
/// refers to the directory `target`:
/// - it normalises to the target itself, or
/// - it normalises to a path inside the target (`target\...`), or
/// - it starts with the target and, in the lowercased text with `\`
///   separators, the first occurrence of the target is not glued to a letter
///   or digit on either side (so `...\QuarkCloudDriveBackup\...` is no match
///   for `...\quarkclouddrive`).
pub open spec fn reference_matches(value: Seq<char>, target: Seq<char>, env: EnvModel) -> bool {
    let expanded = remove_chars(expand(value, env), seq!['"']);
    let normal = normalized(expanded);
    let t = trim_end(target, CharClass::Only('\\'));
    if normal == t {
        true
    } else if !starts_with(normal, t) {
        false
    } else if normal.len() > t.len() && normal[t.len() as int] == '\\' {
        true
    } else {
        let text = ascii_lower(map_char(expanded, '/', '\\'));
        match find(text, t) {
            None => false,
            Some(p) => (p == 0 || !is_ascii_alnum(text[p - 1])) && (p + t.len() == text.len()
                || !is_ascii_alnum(text[p + t.len()])),
        }
    }
}

/// Whether the registry value `value` refers to the directory `target`
/// (a normalised path), after expanding `%NAME%` placeholders from `env`.
pub fn path_reference_matches(value: &str, target: &str, env: &[(String, String)]) -> (r: bool)
    ensures
        r == reference_matches(value@, target@, env.deep_view()),
{
    let value_chars = chars_of(value);
    let target_chars = chars_of(target);
    reference_matches_chars(&value_chars, &target_chars, env)
}

pub fn reference_matches_chars(value: &[char], target: &[char], env: &[(String, String)]) -> (r:
    bool)
    ensures
        r == reference_matches(value@, target@, env.deep_view()),
{
    let expanded0 = expand_chars(value, env);
    let quote: Vec<char> = vec!['"'];
    assert(quote@ =~= seq!['"']);
    let expanded = remove_chars_exec(&expanded0, &quote);
    let normal = normalize_chars(&expanded);
    let t = trim_end_exec(target, &CharClass::Only('\\'));
    if chars_equal(&normal, &t) {
        return true;
    }
    if !starts_with_exec(&normal, &t) {
        return false;
    }
    if normal.len() > t.len() && normal[t.len()] == '\\' {
        return true;
    }
    let replaced = replace_char(&expanded, '/', '\\');
    let text = to_ascii_lower(&replaced);
    match find_exec(&text, &t) {
        None => false,
        Some(p) => {
            proof {
                lemma_find_from_sound(text@, t@, 0);
            }
            let before_ok = p == 0 || !is_ascii_alnum_exec(text[p - 1]);
            let end = p + t.len();
            let after_ok = end == text.len() || !is_ascii_alnum_exec(text[end]);
            before_ok && after_ok
        },
    }
}

/// A value that names the target itself refers to it.
pub proof fn lemma_reference_matches_same_path(value: Seq<char>, target: Seq<char>, env: EnvModel)
    requires
        !value.contains('%'),
        !value.contains('"'),
        normalized(value) == trim_end(target, CharClass::Only('\\')),
    ensures
        reference_matches(value, target, env),
{
    lemma_expand_without_percent(value, env);
    lemma_remove_absent(value, seq!['"']);
}

/// A value that names a path inside the target (`target\...`) refers to it.
pub proof fn lemma_reference_matches_inner_path(
    value: Seq<char>,
    target: Seq<char>,
    env: EnvModel,
)
    requires
        !value.contains('%'),
        !value.contains('"'),
        starts_with(normalized(value), trim_end(target, CharClass::Only('\\')) + seq!['\\']),
    ensures
        reference_matches(value, target, env),
{
    lemma_expand_without_percent(value, env);
    lemma_remove_absent(value, seq!['"']);
    let t = trim_end(target, CharClass::Only('\\'));
    let n = normalized(value);
    let ts = t + seq!['\\'];
    assert(n.subrange(0, ts.len() as int) == ts);
    assert(n.subrange(0, t.len() as int) =~= ts.subrange(0, t.len() as int));
    assert(ts.subrange(0, t.len() as int) =~= t);
    assert(n[t.len() as int] == ts[t.len() as int]);
}

/// A value refers to the target only when its text (expanded, without
/// quotes, normalised) begins with the target: a target named somewhere
/// later in the text (say as an argument of another program) is no
/// reference.
pub proof fn law_reference_begins_with_target(value: Seq<char>, target: Seq<char>, env: EnvModel)
    requires
        reference_matches(value, target, env),
    ensures
        starts_with(
            normalized(remove_chars(expand(value, env), seq!['"'])),
            trim_end(target, CharClass::Only('\\')),
        ),
{
    let normal = normalized(remove_chars(expand(value, env), seq!['"']));
    let t = trim_end(target, CharClass::Only('\\'));
    if normal == t {
        assert(normal.subrange(0, t.len() as int) =~= t);
    }
}

proof fn lemma_remove_absent(s: Seq<char>, drop: Seq<char>)
    requires
        forall|c: char| drop.contains(c) ==> !s.contains(c),
    ensures
        remove_chars(s, drop) == s,
    decreases s.len(),
{
    if s.len() > 0 {
        let d = s.drop_last();
        assert forall|c: char| drop.contains(c) implies !d.contains(c) by {
            if d.contains(c) {
                let k = choose|k: int| 0 <= k < d.len() && d[k] == c;
                assert(s[k] == c);
            }
        }
        lemma_remove_absent(d, drop);
        assert(s.contains(s.last()));
        assert(d.push(s.last()) =~= s);
    }
}

// ---------------------------------------------------------------------------
// Classification of one registry value
// ---------------------------------------------------------------------------

/// Whether the value named `name`, in a key of the scan location `category`,
/// refers to the target (first) and does so with certainty (second): an
/// `InstallLocation` equal to the target, an uninstall command, or the
/// default or `Path` value of an `App Paths` entry.
pub open spec fn classify(
    category: Seq<char>,
    name: Seq<char>,
    value: Seq<char>,
    target: Seq<char>,
    env: EnvModel,
) -> (bool, bool) {
    if !reference_matches(value, target, env) {
        (false, false)
    } else {
        let n = ascii_lower(name);
        (
            true,
            (n == "installlocation"@ && normalized(value) == target) || n == "uninstallstring"@ || n
                == "quietuninstallstring"@ || (starts_with(category, "App Paths"@) && (n.len() == 0
                || n == "path"@)),
        )
    }
}

/// Certainty needs a strong name: outside the `App Paths` entries, a value
/// that is not an install location or an uninstall command (a `Path` value
/// among them) is at most a suspicious reference; and whatever is certain
/// is a reference.
pub proof fn law_classify_certain_needs_strong_name(
    category: Seq<char>,
    name: Seq<char>,
    value: Seq<char>,
    target: Seq<char>,
    env: EnvModel,
)
    ensures
        classify(category, name, value, target, env).1 ==> classify(category, name, value, target, env).0,
        !starts_with(category, "App Paths"@) && ascii_lower(name) != "installlocation"@
            && ascii_lower(name) != "uninstallstring"@ && ascii_lower(name) != "quietuninstallstring"@
            ==> !classify(category, name, value, target, env).1,
        classify(category, name, value, target, env).0 == reference_matches(value, target, env),
{
}

/// In an `App Paths` entry, a default or `Path` value (in any case) that
/// refers to the target is a certain reference; so is any uninstall command
/// that refers to it, wherever it is.
pub proof fn law_classify_strong_references(
    category: Seq<char>,
    name: Seq<char>,
    value: Seq<char>,
    target: Seq<char>,
    env: EnvModel,
)
    requires
        reference_matches(value, target, env),
    ensures
        starts_with(category, "App Paths"@) && (name.len() == 0 || ascii_lower(name) == "path"@)
            ==> classify(category, name, value, target, env) == (true, true),
        ascii_lower(name) == "uninstallstring"@ || ascii_lower(name) == "quietuninstallstring"@
            ==> classify(category, name, value, target, env) == (true, true),
{
    if name.len() == 0 {
        assert(ascii_lower(name).len() == 0);
    }
}

/// Classifies one registry value: whether it refers to the target directory,
/// and whether it does so with certainty.
pub fn classify_registry_reference(
    category: &str,
    name: &str,
    value: &str,
    target: &str,
    env: &[(String, String)],
) -> (r: (bool, bool))
    ensures
        r == classify(category@, name@, value@, target@, env.deep_view()),
{
    let value_chars = chars_of(value);
    let target_chars = chars_of(target);
    if !reference_matches_chars(&value_chars, &target_chars, env) {
        return (false, false);
    }
    let name_chars = chars_of(name);
    let n = to_ascii_lower(&name_chars);
    let install_location = chars_of("installlocation");
    let uninstall = chars_of("uninstallstring");
    let quiet_uninstall = chars_of("quietuninstallstring");
    let path_name = chars_of("path");
    let app_paths = chars_of("App Paths");
    let category_chars = chars_of(category);
    let normal_value = normalize_chars(&value_chars);
    let certain = (chars_equal(&n, &install_location) && chars_equal(&normal_value, &target_chars))
        || chars_equal(&n, &uninstall) || chars_equal(&n, &quiet_uninstall) || (starts_with_exec(
        &category_chars,
        &app_paths,
    ) && (n.len() == 0 || chars_equal(&n, &path_name)));
    (true, certain)
}

// ---------------------------------------------------------------------------
// File names
// ---------------------------------------------------------------------------

/// The characters that cannot stand in a Windows file name.
pub open spec fn is_forbidden_in_file_name(c: char) -> bool {
    c == '\\' || c == '/' || c == ':' || c == '*' || c == '?' || c == '"' || c == '<' || c == '>'
        || c == '|'
}

/// The longest file-name part, in characters, that `sanitize_filename` keeps.
pub open spec fn max_file_name_part() -> nat {
    80
}

/// `value` with forbidden characters replaced by `_`, cut to 80 characters;
/// `registry-key` where `value` is empty.
pub open spec fn sanitized(value: Seq<char>) -> Seq<char> {
    let mapped = value.map_values(|c: char| if is_forbidden_in_file_name(c) { '_' } else { c });
    if mapped.len() == 0 {
        "registry-key"@
    } else if mapped.len() <= max_file_name_part() {
        mapped
    } else {
        mapped.take(max_file_name_part() as int)
    }
}

/// Makes `value` usable as part of a file name: each of `\ / : * ? " < > |`
/// becomes `_`, the result is cut to its first 80 characters, and an empty
/// value becomes `registry-key`.
pub fn sanitize_filename(value: &str) -> (out: String)
    ensures
        out@ == sanitized(value@),
{
    let chars = chars_of(value);
    let mut mapped: Vec<char> = Vec::new();
    let mut i: usize = 0;
    while i < chars.len()
        invariant
            i <= chars.len(),
            mapped@ == chars@.take(i as int).map_values(
                |c: char|
                    if is_forbidden_in_file_name(c) {
                        '_'
                    } else {
                        c
                    },
            ),
        decreases chars.len() - i,
    {
        let c = chars[i];
        if c == '\\' || c == '/' || c == ':' || c == '*' || c == '?' || c == '"' || c == '<' || c
            == '>' || c == '|' {
            mapped.push('_');
        } else {
            mapped.push(c);
        }
        i += 1;
        assert(mapped@ =~= chars@.take(i as int).map_values(
            |c: char|
                if is_forbidden_in_file_name(c) {
                    '_'
                } else {
                    c
                },
        ));
    }
    assert(chars@.take(i as int) =~= chars@);
    if mapped.len() == 0 {
        "registry-key".to_string()
    } else if mapped.len() <= 80 {
        string_of(&mapped)
    } else {
        let cut = slice_chars(&mapped, 0, 80);
        string_of(&cut)
    }
}

/// A sanitised name is never empty, holds at most 80 characters, and holds
/// none of the characters that a Windows file name cannot hold.
pub proof fn lemma_sanitized_shape(value: Seq<char>)
    ensures
        sanitized(value).len() > 0,
        sanitized(value).len() <= max_file_name_part(),
        forall|i: int|
            0 <= i < sanitized(value).len() ==> !is_forbidden_in_file_name(
                #[trigger] sanitized(value)[i],
            ),
{
    reveal_strlit("registry-key");
}

/// Sanitising a sanitised name changes nothing.
pub proof fn lemma_sanitize_idempotent(value: Seq<char>)
    ensures
        sanitized(sanitized(value)) == sanitized(value),
{
    let s = sanitized(value);
    lemma_sanitized_shape(value);
    let mapped = s.map_values(|c: char| if is_forbidden_in_file_name(c) { '_' } else { c });
    assert(mapped =~= s);
}

// ---------------------------------------------------------------------------
// Process names
// ---------------------------------------------------------------------------

/// The position just after the last `\` or `/` in `s`, or 0.
pub open spec fn basename_start(s: Seq<char>) -> nat
    decreases s.len(),
{
    if s.len() == 0 {
        0
    } else if s.last() == '\\' || s.last() == '/' {
        s.len()
    } else {
        basename_start(s.drop_last())
    }
}

/// The last component of a process image path.
pub open spec fn basename(s: Seq<char>) -> Seq<char> {
    s.skip(basename_start(s) as int)
}

proof fn lemma_basename_start_bound(s: Seq<char>)
    ensures
        basename_start(s) <= s.len(),
    decreases s.len(),
{
    if s.len() > 0 && !(s.last() == '\\' || s.last() == '/') {
        lemma_basename_start_bound(s.drop_last());
    }
}

/// The part of `name` after its last `\` or `/` (all of it if there is none).
pub fn process_basename(name: &str) -> (out: &str)
    ensures
        out@ == basename(name@),
{
    let chars = chars_of(name);
    let mut j: usize = chars.len();
    assert(chars@.take(j as int) =~= chars@);
    while j > 0 && chars[j - 1] != '\\' && chars[j - 1] != '/'
        invariant
            j <= chars.len(),
            basename_start(chars@.take(j as int)) == basename_start(chars@),
        decreases j,
    {
        assert(chars@.take(j as int).drop_last() =~= chars@.take(j as int - 1));
        j -= 1;
    }
    proof {
        lemma_basename_start_bound(chars@);
    }
    name.substring_char(j, chars.len())
}

/// The position just after the last `\` in `s`, or 0.
pub open spec fn basename_start_backslash(s: Seq<char>) -> nat
    decreases s.len(),
{
    if s.len() == 0 {
        0
    } else if s.last() == '\\' {
        s.len()
    } else {
        basename_start_backslash(s.drop_last())
    }
}

proof fn lemma_basename_start_backslash_bound(s: Seq<char>)
    ensures
        basename_start_backslash(s) <= s.len(),
        basename_start_backslash(s) > 0 ==> s[basename_start_backslash(s) - 1] == '\\',
        forall|k: int|
            basename_start_backslash(s) <= k < s.len() ==> #[trigger] s[k] != '\\',
    decreases s.len(),
{
    if s.len() > 0 && s.last() != '\\' {
        lemma_basename_start_backslash_bound(s.drop_last());
        assert forall|k: int| basename_start_backslash(s) <= k < s.len() implies #[trigger] s[k]
            != '\\' by {
            if k < s.len() - 1 {
                assert(s[k] == s.drop_last()[k]);
            }
        }
    }
}

pub fn basename_start_backslash_exec(s: &[char]) -> (n: usize)
    ensures
        n == basename_start_backslash(s@),
        n <= s@.len(),
        n > 0 ==> s@[n - 1] == '\\',
        forall|k: int| n <= k < s@.len() ==> #[trigger] s@[k] != '\\',
{
    let mut j: usize = s.len();
    assert(s@.take(j as int) =~= s@);
    while j > 0 && s[j - 1] != '\\'
        invariant
            j <= s.len(),
            basename_start_backslash(s@.take(j as int)) == basename_start_backslash(s@),
        decreases j,
    {
        assert(s@.take(j as int).drop_last() =~= s@.take(j as int - 1));
        j -= 1;
    }
    proof {
        lemma_basename_start_backslash_bound(s@);
    }
    j
}

/// Whether `name` (lowercased) is one of the system processes the cleaner
/// never terminates.
pub open spec fn is_system_process_name(n: Seq<char>) -> bool {
    ||| n == "system"@
    ||| n == "system idle process"@
    ||| n == "registry"@
    ||| n == "smss.exe"@
    ||| n == "csrss.exe"@
    ||| n == "wininit.exe"@
    ||| n == "services.exe"@
    ||| n == "lsass.exe"@
    ||| n == "svchost.exe"@
    ||| n == "winlogon.exe"@
    ||| n == "dwm.exe"@
}

/// Whether a process must not be terminated: process 0, process 4, the
/// cleaner itself (`current_pid`), or one whose image is a system process.
pub open spec fn protected_process(pid: u32, name: Seq<char>, current_pid: u32) -> bool {
    pid == 0 || pid == 4 || pid == current_pid || is_system_process_name(ascii_lower(basename(name)))
}

proof fn lemma_lower_keeps_separators(c: char)
    ensures
        (lower_char(c) == '\\') == (c == '\\'),
        (lower_char(c) == '/') == (c == '/'),
{
    if 'A' <= c && c <= 'Z' {
        assert(65 <= (c as u32) <= 90);
        let l = ((c as u32) + 32) as char;
        assert(97 <= (l as u32) <= 122);
    }
}

proof fn lemma_basename_start_lower(s: Seq<char>)
    ensures
        basename_start(ascii_lower(s)) == basename_start(s),
    decreases s.len(),
{
    if s.len() > 0 {
        let l = ascii_lower(s);
        assert(l.drop_last() =~= ascii_lower(s.drop_last()));
        assert(l.last() == lower_char(s.last()));
        lemma_lower_keeps_separators(s.last());
        lemma_basename_start_lower(s.drop_last());
    }
}

proof fn lemma_basename_lower(s: Seq<char>)
    ensures
        ascii_lower(basename(ascii_lower(s))) == ascii_lower(basename(s)),
{
    lemma_basename_start_lower(s);
    lemma_basename_start_bound(s);
    let k = basename_start(s) as int;
    assert(basename(ascii_lower(s)) =~= ascii_lower(s.skip(k)));
    lemma_ascii_lower_idempotent(s.skip(k));
}

proof fn lemma_basename_plain(s: Seq<char>)
    requires
        !s.contains('\\'),
        !s.contains('/'),
    ensures
        basename_start(s) == 0,
        basename(s) == s,
    decreases s.len(),
{
    if s.len() > 0 {
        assert(s.contains(s.last()));
        assert forall|c: char| s.drop_last().contains(c) implies s.contains(c) by {
            let k = choose|k: int| 0 <= k < s.drop_last().len() && s.drop_last()[k] == c;
            assert(s[k] == c);
        }
        lemma_basename_plain(s.drop_last());
    }
    assert(s.skip(0) =~= s);
}

/// Protection does not depend on the ASCII case of the process name, and a
/// process whose plain image name is a listed system process in any ASCII
/// case (`Registry`, `CSRSS.EXE`, ...) is always protected.
pub proof fn law_protection_ignores_case(pid: u32, name: Seq<char>, current_pid: u32)
    ensures
        protected_process(pid, name, current_pid) == protected_process(pid, ascii_lower(name), current_pid),
        !name.contains('\\') && !name.contains('/') && is_system_process_name(ascii_lower(name))
            ==> protected_process(pid, name, current_pid),
        pid == 0 || pid == 4 || pid == current_pid ==> protected_process(pid, name, current_pid),
{
    lemma_basename_lower(name);
    if !name.contains('\\') && !name.contains('/') {
        lemma_basename_plain(name);
    }
}

/// Whether the process `pid` named `name` must not be terminated;
/// `current_pid` is the cleaner's own process.
pub fn is_protected_process(pid: u32, name: &str, current_pid: u32) -> (r: bool)
    ensures
        r == protected_process(pid, name@, current_pid),
{
    if pid == 0 || pid == 4 || pid == current_pid {
        return true;
    }
    let base = process_basename(name);
    let chars = chars_of(base);
    let n = to_ascii_lower(&chars);
    chars_equal(&n, &chars_of("system")) || chars_equal(&n, &chars_of("system idle process"))
        || chars_equal(&n, &chars_of("registry")) || chars_equal(&n, &chars_of("smss.exe"))
        || chars_equal(&n, &chars_of("csrss.exe")) || chars_equal(&n, &chars_of("wininit.exe"))
        || chars_equal(&n, &chars_of("services.exe")) || chars_equal(&n, &chars_of("lsass.exe"))
        || chars_equal(&n, &chars_of("svchost.exe")) || chars_equal(&n, &chars_of("winlogon.exe"))
        || chars_equal(&n, &chars_of("dwm.exe"))
}

/// Whether a process image is Windows Explorer (`explorer.exe` or `explorer`,
/// in any case).
pub open spec fn is_explorer_name(name: Seq<char>) -> bool {
    let n = ascii_lower(basename(name));
    n == "explorer.exe"@ || n == "explorer"@
}

pub fn is_explorer(name: &str) -> (r: bool)
    ensures
        r == is_explorer_name(name@),
{
    let base = process_basename(name);
    let chars = chars_of(base);
    let n = to_ascii_lower(&chars);
    chars_equal(&n, &chars_of("explorer.exe")) || chars_equal(&n, &chars_of("explorer"))
}

} // verus!

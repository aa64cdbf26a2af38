//! The scan's bookkeeping: which scan is current, when progress is reported,
//! and how sizes and progress are shown.
use vstd::prelude::*;
use crate::text::{
    append_chars, chars_of, decimal, decimal_exec, digit_char, digit_char_exec, string_of,
    zero_padded, zero_padded_exec,
};

verus! {

// ---------------------------------------------------------------------------
// Which scan is current
// ---------------------------------------------------------------------------

/// The scan counter and whether a scan is running. Every scan gets a new
/// generation number; messages from a scan are shown only while its
/// generation is the current one.
pub struct ScanState {
    generation: u64,
    active: bool,
}

impl ScanState {
    pub closed spec fn current(&self) -> u64 {
        self.generation
    }

    /// Whether a scan is running that can still be cancelled.
    pub closed spec fn running(&self) -> bool {
        self.active
    }

    /// No scan yet, generation 0.
    pub fn new() -> (s: Self)
        ensures
            s.current() == 0,
            !s.running(),
    {
        ScanState { generation: 0, active: false }
    }

    /// The current generation.
    pub fn generation(&self) -> (g: u64)
        ensures
            g == self.current(),
    {
        self.generation
    }

    /// Cancels the running scan, if any; says whether there was one (the
    /// caller then raises that scan's cancellation flag).
    pub fn cancel_active_scan(&mut self) -> (was_running: bool)
        ensures
            was_running == old(self).running(),
            !final(self).running(),
            final(self).current() == old(self).current(),
    {
        let was = self.active;
        self.active = false;
        was
    }

    /// Starts a new generation, so that messages of earlier scans are
    /// ignored, and cancels the running scan; returns the new generation.
    pub fn invalidate_scan(&mut self) -> (g: u64)
        ensures
            g == final(self).current(),
            final(self).current() == (old(self).current() + 1) % 0x1_0000_0000_0000_0000,
            !final(self).running(),
    {
        self.generation = self.generation.wrapping_add(1);
        self.active = false;
        self.generation
    }

    /// Starts a scan: a new generation, which is running; returns it.
    pub fn start_scan(&mut self) -> (g: u64)
        ensures
            g == final(self).current(),
            final(self).current() == (old(self).current() + 1) % 0x1_0000_0000_0000_0000,
            final(self).running(),
    {
        let g = self.invalidate_scan();
        self.active = true;
        g
    }

    /// The user asked to cancel: the running scan (if any) is cancelled and a
    /// new generation begins; says whether a scan was running.
    pub fn cancel_scan_clicked(&mut self) -> (was_running: bool)
        ensures
            was_running == old(self).running(),
            !final(self).running(),
            final(self).current() == (old(self).current() + 1) % 0x1_0000_0000_0000_0000,
    {
        let was = self.cancel_active_scan();
        self.generation = self.generation.wrapping_add(1);
        was
    }

    /// Whether a message of the scan of generation `g` is to be shown.
    pub fn accepts(&self, g: u64) -> (r: bool)
        ensures
            r == (g == self.current()),
    {
        g == self.generation
    }

    /// The scan of generation `g` finished: its result is taken (and the scan
    /// stops running) only when `g` is current.
    pub fn scan_completed(&mut self, g: u64) -> (taken: bool)
        ensures
            taken == (g == old(self).current()),
            final(self).current() == old(self).current(),
            final(self).running() == (old(self).running() && !taken),
    {
        if g == self.generation {
            self.active = false;
            true
        } else {
            false
        }
    }
}

/// Once a new generation has begun, no message of an earlier scan is shown.
pub proof fn lemma_stale_scans_ignored(before: ScanState, after: ScanState, g: u64)
    requires
        before.current() < u64::MAX,
        after.current() == (before.current() + 1) % 0x1_0000_0000_0000_0000,
        g <= before.current(),
    ensures
        g != after.current(),
{
}

// ---------------------------------------------------------------------------
// Progress reports
// ---------------------------------------------------------------------------

/// Limits progress reports: the first key, then every 64 keys or more.
pub struct ProgressThrottle {
    last_reported: u64,
}

impl ProgressThrottle {
    pub closed spec fn last(&self) -> u64 {
        self.last_reported
    }

    pub fn new() -> (t: Self)
        ensures
            t.last() == 0,
    {
        ProgressThrottle { last_reported: 0 }
    }

    /// Whether to report `scanned` keys: for the first one, and whenever 64
    /// or more were scanned since the last report (which this one becomes).
    pub fn should_report(&mut self, scanned: u64) -> (r: bool)
        ensures
            r == (scanned == 1 || (scanned >= old(self).last() && scanned - old(self).last()
                >= 64)),
            final(self).last() == (if r {
                scanned
            } else {
                old(self).last()
            }),
    {
        if scanned == 1 || scanned.saturating_sub(self.last_reported) >= 64 {
            self.last_reported = scanned;
            true
        } else {
            false
        }
    }
}

// ---------------------------------------------------------------------------
// Sizes
// ---------------------------------------------------------------------------

/// `n / d` rounded to the nearest integer, ties to the even one.
pub open spec fn round_half_even(n: nat, d: nat) -> nat
    recommends
        d > 0,
{
    let q = n / d;
    let r = n % d;
    if 2 * r > d {
        q + 1
    } else if 2 * r < d {
        q
    } else if q % 2 == 0 {
        q
    } else {
        q + 1
    }
}

pub open spec fn pow2(k: nat) -> nat
    decreases k,
{
    if k == 0 {
        1
    } else {
        2 * pow2((k - 1) as nat)
    }
}

/// How many low bits of `x` do not fit in the 53-bit significand of an `f64`.
pub open spec fn excess_bits(x: nat) -> nat
    decreases x,
{
    if x < 0x20_0000_0000_0000 {
        0
    } else {
        1 + excess_bits(x / 2)
    }
}

/// `x as f64`: rounded to 53 significant bits, ties to even.
pub open spec fn as_f64(x: nat) -> nat {
    let p = pow2(excess_bits(x));
    round_half_even(x, p) * p
}

/// `n` with one decimal: `int.d`.
pub open spec fn one_decimal(q: nat) -> Seq<char> {
    decimal(q / 10) + seq!['.', digit_char((q % 10) as int)]
}

/// `n` with two decimals: `int.dd`.
pub open spec fn two_decimals(q: nat) -> Seq<char> {
    decimal(q / 100) + seq!['.'] + zero_padded(q % 100, 2)
}

/// A byte count as the cleaner shows it: bytes below 1 KiB, else KB or MB
/// with one decimal, GB with two, each rounded as `{:.1}` / `{:.2}` round the
/// `f64` quotient.
pub open spec fn size_text(size: u64) -> Seq<char> {
    if size >= 1_073_741_824 {
        two_decimals(round_half_even(as_f64(size as nat) * 100, 1_073_741_824)) + " GB"@
    } else if size >= 1_048_576 {
        one_decimal(round_half_even(size as nat * 10, 1_048_576)) + " MB"@
    } else if size >= 1024 {
        one_decimal(round_half_even(size as nat * 10, 1024)) + " KB"@
    } else {
        decimal(size as nat) + " B"@
    }
}

fn round_half_even_exec(n: u128, d: u128) -> (q: u128)
    requires
        d > 0,
        n / d + 1 <= u128::MAX,
    ensures
        q == round_half_even(n as nat, d as nat),
        q <= n / d + 1,
{
    let q = n / d;
    let r = n % d;
    assert(r < d);
    if r > d - r {
        q + 1
    } else if r < d - r {
        q
    } else if q % 2 == 0 {
        q
    } else {
        q + 1
    }
}

proof fn lemma_pow2_positive(k: nat)
    ensures
        pow2(k) >= 1,
    decreases k,
{
    if k > 0 {
        lemma_pow2_positive((k - 1) as nat);
    }
}

/// `x as f64`, as an integer.
fn as_f64_exec(x: u64) -> (v: u128)
    ensures
        v == as_f64(x as nat),
        v <= 0x2_0000_0000_0000_0000,
{
    let mut t: u64 = x;
    let mut p: u128 = 1;
    let ghost mut s: nat = 0;
    while t >= 0x20_0000_0000_0000
        invariant
            excess_bits(x as nat) == s + excess_bits(t as nat),
            p == pow2(s),
            p >= 1,
            t >= 1 || p == 1,
            p * (t as nat) <= x,
            x < p * (t as nat) + p,
        decreases t,
    {
        assert(p * (t as nat) == 2 * p * ((t / 2) as nat) + p * ((t % 2) as nat)) by (nonlinear_arith)
            requires
                t as nat == 2 * ((t / 2) as nat) + ((t % 2) as nat),
        ;
        assert(p * ((t % 2) as nat) <= p) by (nonlinear_arith)
            requires
                (t % 2) as nat <= 1,
                p >= 1,
        ;
        assert(p <= x) by (nonlinear_arith)
            requires
                p * (t as nat) <= x,
                t >= 1,
                p >= 1,
        ;
        t = t / 2;
        p = p * 2;
        proof {
            s = s + 1;
        }
    }
    if t >= 1 {
        assert(p <= p * (t as nat)) by (nonlinear_arith)
            requires
                t >= 1,
                p >= 1,
        ;
    }
    assert(p <= x + 1);
    let q = round_half_even_exec(x as u128, p);
    assert(q * p <= x + p) by (nonlinear_arith)
        requires
            q <= x as nat / p as nat + 1,
            p >= 1,
    ;
    q * p
}

/// Shows a byte count: `123 B`, `1.5 KB`, `12.3 MB`, `1.25 GB`.
pub fn format_size(size: u64) -> (out: String)
    ensures
        out@ == size_text(size),
{
    let mut text: Vec<char> = Vec::new();
    if size >= 1_073_741_824 {
        let v = as_f64_exec(size);
        let q = round_half_even_exec(v * 100, 1_073_741_824);
        assert(q / 100 <= u64::MAX) by (nonlinear_arith)
            requires
                q <= (v * 100) / 1_073_741_824 + 1,
                v <= 0x2_0000_0000_0000_0000,
        ;
        let whole: u64 = (q / 100) as u64;
        let cents: u64 = (q % 100) as u64;
        text = decimal_exec(whole);
        text.push('.');
        let frac = zero_padded_exec(cents, 2);
        append_chars(&mut text, &frac);
        append_chars(&mut text, &chars_of(" GB"));
    } else if size >= 1_048_576 {
        let q = round_half_even_exec((size as u128) * 10, 1_048_576);
        text = one_decimal_exec(q);
        append_chars(&mut text, &chars_of(" MB"));
    } else if size >= 1024 {
        let q = round_half_even_exec((size as u128) * 10, 1024);
        text = one_decimal_exec(q);
        append_chars(&mut text, &chars_of(" KB"));
    } else {
        text = decimal_exec(size);
        append_chars(&mut text, &chars_of(" B"));
    }
    string_of(&text)
}

fn one_decimal_exec(q: u128) -> (out: Vec<char>)
    requires
        q / 10 <= u64::MAX,
    ensures
        out@ == one_decimal(q as nat),
{
    let whole: u64 = (q / 10) as u64;
    let tenth: u64 = (q % 10) as u64;
    let mut out = decimal_exec(whole);
    out.push('.');
    out.push(digit_char_exec(tenth));
    out
}

// ---------------------------------------------------------------------------
// Messages
// ---------------------------------------------------------------------------

/// The progress text while the registry is searched.
pub open spec fn progress_text(files: u64, size: u64, scanned: u64) -> Seq<char> {
    "目录统计完成："@ + decimal(files as nat) + " 个文件，"@ + size_text(size)
        + "。\n\n正在搜索注册表……\n已搜索到 "@ + decimal(scanned as nat) + " 个注册表项。"@
}

/// The progress text shown while the registry of a directory of `files`
/// files and `size` bytes is searched, after `scanned` keys.
pub fn registry_progress_message(files: u64, size: u64, scanned: u64) -> (out: String)
    ensures
        out@ == progress_text(files, size, scanned),
{
    let mut text = chars_of("目录统计完成：");
    append_chars(&mut text, &decimal_exec(files));
    append_chars(&mut text, &chars_of(" 个文件，"));
    let size_chars = chars_of(format_size(size).as_str());
    append_chars(&mut text, &size_chars);
    append_chars(&mut text, &chars_of("。\n\n正在搜索注册表……\n已搜索到 "));
    append_chars(&mut text, &decimal_exec(scanned));
    append_chars(&mut text, &chars_of(" 个注册表项。"));
    string_of(&text)
}

/// The text shown when a scan completes.
pub open spec fn summary_text(
    target: Seq<char>,
    files: u64,
    size: u64,
    scanned: u64,
    permission: Seq<char>,
    candidates: nat,
) -> Seq<char> {
    "扫描完成\n\n目录："@ + target + "\n文件："@ + decimal(files as nat) + "\n大小："@ + size_text(size)
        + "\n已搜索注册表项："@ + decimal(scanned as nat) + "\n当前权限："@ + permission + "\n\n"@ + if candidates
        == 0 {
        "注册表：未发现路径引用。\n"@
    } else {
        "注册表候选："@ + decimal(candidates) + " 项；上方为确定垃圾，下方为可疑项。\n\n"@
    }
}

/// The summary of a completed scan of `target`.
pub fn scan_summary(
    target: &str,
    files: u64,
    size: u64,
    scanned: u64,
    permission: &str,
    candidates: usize,
) -> (out: String)
    ensures
        out@ == summary_text(target@, files, size, scanned, permission@, candidates as nat),
{
    let mut text = chars_of("扫描完成\n\n目录：");
    append_chars(&mut text, &chars_of(target));
    append_chars(&mut text, &chars_of("\n文件："));
    append_chars(&mut text, &decimal_exec(files));
    append_chars(&mut text, &chars_of("\n大小："));
    append_chars(&mut text, &chars_of(format_size(size).as_str()));
    append_chars(&mut text, &chars_of("\n已搜索注册表项："));
    append_chars(&mut text, &decimal_exec(scanned));
    append_chars(&mut text, &chars_of("\n当前权限："));
    append_chars(&mut text, &chars_of(permission));
    append_chars(&mut text, &chars_of("\n\n"));
    if candidates == 0 {
        append_chars(&mut text, &chars_of("注册表：未发现路径引用。\n"));
    } else {
        let mut tail = chars_of("注册表候选：");
        append_chars(&mut tail, &decimal_exec(candidates as u64));
        append_chars(&mut tail, &chars_of(" 项；上方为确定垃圾，下方为可疑项。\n\n"));
        append_chars(&mut text, &tail);
    }
    string_of(&text)
}

} // verus!

//! UTF-16 text as the Windows API passes it: NUL-terminated wide strings,
//! their lossy decoding, and the string values of registry entries.
use vstd::prelude::*;
use crate::paths::{expand, expand_chars};
use crate::text::{
    CharClass, append_chars, chars_of, join, string_of, trim_both, trim_both_exec,
};

verus! {

// ---------------------------------------------------------------------------
// Encoding
// ---------------------------------------------------------------------------

/// The UTF-16 code units of one character.
pub open spec fn utf16_of_char(c: char) -> Seq<u16> {
    let v = c as u32;
    if v < 0x10000 {
        seq![v as u16]
    } else {
        let w = v - 0x10000;
        seq![(0xD800 + w / 0x400) as u16, (0xDC00 + w % 0x400) as u16]
    }
}

/// The UTF-16 encoding of a character sequence.
pub open spec fn utf16_encode(s: Seq<char>) -> Seq<u16>
    decreases s.len(),
{
    if s.len() == 0 {
        Seq::empty()
    } else {
        utf16_of_char(s[0]) + utf16_encode(s.drop_first())
    }
}

/// `s` as a NUL-terminated UTF-16 string, as the Windows API takes it.
pub open spec fn wide_spec(s: Seq<char>) -> Seq<u16> {
    utf16_encode(s).push(0)
}

pub proof fn lemma_encode_add(a: Seq<char>, b: Seq<char>)
    ensures
        utf16_encode(a + b) == utf16_encode(a) + utf16_encode(b),
    decreases a.len(),
{
    if a.len() == 0 {
        assert(a + b =~= b);
    } else {
        lemma_encode_add(a.drop_first(), b);
        assert((a + b).drop_first() =~= a.drop_first() + b);
        assert((a + b)[0] == a[0]);
    }
}

proof fn lemma_encode_push(a: Seq<char>, c: char)
    ensures
        utf16_encode(a.push(c)) == utf16_encode(a) + utf16_of_char(c),
{
    lemma_encode_add(a, seq![c]);
    assert(a + seq![c] =~= a.push(c));
    assert(seq![c].drop_first() =~= Seq::<char>::empty());
    assert(utf16_encode(Seq::<char>::empty()) =~= Seq::<u16>::empty());
    assert(seq![c][0] == c);
    assert(utf16_encode(seq![c]) =~= utf16_of_char(c) + utf16_encode(seq![c].drop_first()));
    assert(utf16_encode(seq![c]) =~= utf16_of_char(c));
}

/// Appends the UTF-16 units of `c` to `out`.
pub fn push_utf16(out: &mut Vec<u16>, c: char)
    ensures
        final(out)@ == old(out)@ + utf16_of_char(c),
{
    let v: u32 = c as u32;
    if v < 0x10000 {
        out.push(v as u16);
        assert(final(out)@ =~= old(out)@ + utf16_of_char(c));
    } else {
        let w: u32 = v - 0x10000;
        assert(w < 0x100000);
        out.push((0xD800 + w / 0x400) as u16);
        out.push((0xDC00 + w % 0x400) as u16);
        assert(final(out)@ =~= old(out)@ + utf16_of_char(c));
    }
}

/// `text` as a NUL-terminated UTF-16 string.
pub fn wide(text: &str) -> (out: Vec<u16>)
    ensures
        out@ == wide_spec(text@),
{
    let chars = chars_of(text);
    let mut out: Vec<u16> = Vec::new();
    let mut i: usize = 0;
    while i < chars.len()
        invariant
            i <= chars.len(),
            out@ == utf16_encode(chars@.take(i as int)),
        decreases chars.len() - i,
    {
        proof {
            lemma_encode_push(chars@.take(i as int), chars@[i as int]);
            assert(chars@.take(i as int).push(chars@[i as int]) =~= chars@.take(i as int + 1));
        }
        push_utf16(&mut out, chars[i]);
        i += 1;
    }
    assert(chars@.take(i as int) =~= chars@);
    out.push(0);
    out
}

// ---------------------------------------------------------------------------
// Lossy decoding
// ---------------------------------------------------------------------------

pub open spec fn is_high_surrogate(u: u16) -> bool {
    0xD800 <= u && u <= 0xDBFF
}

pub open spec fn is_low_surrogate(u: u16) -> bool {
    0xDC00 <= u && u <= 0xDFFF
}

/// The scalar value of a surrogate pair.
pub open spec fn pair_value(hi: u16, lo: u16) -> u32 {
    (0x10000 + (hi - 0xD800) * 0x400 + (lo - 0xDC00)) as u32
}

/// `String::from_utf16_lossy`: a well-formed surrogate pair gives its
/// character, any other surrogate gives U+FFFD, any other unit gives itself.
pub open spec fn utf16_decode(w: Seq<u16>) -> Seq<char>
    decreases w.len(),
{
    if w.len() == 0 {
        Seq::empty()
    } else if w.len() >= 2 && is_high_surrogate(w[0]) && is_low_surrogate(w[1]) {
        seq![pair_value(w[0], w[1]) as char] + utf16_decode(w.skip(2))
    } else if 0xD800 <= w[0] && w[0] <= 0xDFFF {
        seq!['\u{FFFD}'] + utf16_decode(w.skip(1))
    } else {
        seq![w[0] as char] + utf16_decode(w.skip(1))
    }
}

/// The position of the first NUL unit, or the length when there is none.
pub open spec fn nul_position(w: Seq<u16>) -> nat
    decreases w.len(),
{
    if w.len() == 0 {
        0
    } else if w[0] == 0 {
        0
    } else {
        1 + nul_position(w.drop_first())
    }
}

/// The text of a NUL-terminated (or unterminated) UTF-16 buffer.
pub open spec fn from_wide_spec(w: Seq<u16>) -> Seq<char> {
    utf16_decode(w.take(nul_position(w) as int))
}

/// The character with scalar value `v`, where there is one.
///
/// Trusted: `char::from_u32` returns `Some` exactly for Unicode scalar values
/// (below 0xD800, or from 0xE000 to 0x10FFFF), and then the character whose
/// value is `v`, as its documentation says.
#[verifier::external_body]
fn char_from_scalar(v: u32) -> (r: Option<char>)
    ensures
        r is Some <==> (v < 0xD800 || (0xE000 <= v && v <= 0x10FFFF)),
        r matches Some(c) ==> c as u32 == v,
{
    char::from_u32(v)
}

fn scalar_char(v: u32) -> (c: char)
    requires
        v < 0xD800 || (0xE000 <= v && v <= 0x10FFFF),
    ensures
        c == v as char,
{
    let r = char_from_scalar(v);
    match r {
        Some(c) => {
            proof {
                lemma_char_of_value(c, v);
            }
            c
        },
        None => '\u{FFFD}',
    }
}

proof fn lemma_char_of_value(c: char, v: u32)
    requires
        c as u32 == v,
    ensures
        c == v as char,
{
}

/// Decodes UTF-16 units, replacing each unpaired surrogate by U+FFFD.
pub fn decode_utf16_lossy(w: &[u16]) -> (out: Vec<char>)
    ensures
        out@ == utf16_decode(w@),
{
    let mut out: Vec<char> = Vec::new();
    let mut i: usize = 0;
    assert(w@.skip(0) =~= w@);
    while i < w.len()
        invariant
            i <= w.len(),
            out@ + utf16_decode(w@.skip(i as int)) == utf16_decode(w@),
        decreases w.len() - i,
    {
        let ghost rest = w@.skip(i as int);
        let u = w[i];
        if i + 1 < w.len() && 0xD800 <= u && u <= 0xDBFF && 0xDC00 <= w[i + 1] && w[i + 1]
            <= 0xDFFF {
            let lo = w[i + 1];
            let v: u32 = 0x10000 + ((u - 0xD800) as u32) * 0x400 + ((lo - 0xDC00) as u32);
            assert(v == pair_value(rest[0], rest[1]));
            out.push(scalar_char(v));
            assert(rest.skip(2) =~= w@.skip(i + 2));
            i += 2;
        } else if 0xD800 <= u && u <= 0xDFFF {
            out.push('\u{FFFD}');
            assert(rest.skip(1) =~= w@.skip(i + 1));
            i += 1;
        } else {
            let v: u32 = u as u32;
            out.push(scalar_char(v));
            assert(rest.skip(1) =~= w@.skip(i + 1));
            i += 1;
        }
        assert(out@ + utf16_decode(w@.skip(i as int)) =~= utf16_decode(w@));
    }
    assert(out@ + utf16_decode(w@.skip(i as int)) =~= out@);
    out
}

/// The position of the first NUL unit in `w`, or its length.
pub fn nul_position_exec(w: &[u16]) -> (n: usize)
    ensures
        n == nul_position(w@),
        n <= w@.len(),
{
    let mut i: usize = 0;
    assert(w@.skip(0) =~= w@);
    while i < w.len() && w[i] != 0
        invariant
            i <= w.len(),
            nul_position(w@) == i + nul_position(w@.skip(i as int)),
        decreases w.len() - i,
    {
        assert(w@.skip(i as int).drop_first() =~= w@.skip(i as int + 1));
        i += 1;
    }
    i
}

/// The text of a UTF-16 buffer up to its first NUL unit (all of it when it
/// holds none); unpaired surrogates become U+FFFD.
pub fn from_wide(text: &[u16]) -> (out: String)
    ensures
        out@ == from_wide_spec(text@),
{
    let chars = from_wide_chars(text);
    string_of(&chars)
}

pub fn from_wide_chars(text: &[u16]) -> (out: Vec<char>)
    ensures
        out@ == from_wide_spec(text@),
{
    let end = nul_position_exec(text);
    let mut head: Vec<u16> = Vec::new();
    let mut i: usize = 0;
    while i < end
        invariant
            i <= end <= text@.len(),
            head@ == text@.take(i as int),
        decreases end - i,
    {
        head.push(text[i]);
        i += 1;
        assert(head@ =~= text@.take(i as int));
    }
    decode_utf16_lossy(&head)
}

// ---------------------------------------------------------------------------
// Round trip
// ---------------------------------------------------------------------------

proof fn lemma_decode_char_then(c: char, rest: Seq<u16>)
    ensures
        utf16_decode(utf16_of_char(c) + rest) == seq![c] + utf16_decode(rest),
{
    let v = c as u32;
    let w = utf16_of_char(c) + rest;
    if v < 0x10000 {
        assert(w[0] == v as u16);
        assert(w.skip(1) =~= rest);
        assert((w[0] as char) == c);
    } else {
        let x = v - 0x10000;
        assert(x < 0x100000);
        let hi = (0xD800 + x / 0x400) as u16;
        let lo = (0xDC00 + x % 0x400) as u16;
        assert(w[0] == hi);
        assert(w[1] == lo);
        assert(w.skip(2) =~= rest);
        assert(is_high_surrogate(hi));
        assert(is_low_surrogate(lo));
        assert(pair_value(hi, lo) == v);
    }
}

proof fn lemma_char_bound(c: char)
    ensures
        (c as u32) <= 0x10FFFF,
        !(0xD800 <= (c as u32) && (c as u32) <= 0xDFFF),
{
}

proof fn lemma_nonnul_char(c: char)
    requires
        c != '\0',
    ensures
        c as u32 != 0,
{
}

/// Decoding inverts encoding.
pub proof fn lemma_decode_encode(s: Seq<char>)
    ensures
        utf16_decode(utf16_encode(s)) == s,
    decreases s.len(),
{
    if s.len() > 0 {
        lemma_decode_encode(s.drop_first());
        lemma_decode_char_then(s[0], utf16_encode(s.drop_first()));
        assert(seq![s[0]] + s.drop_first() =~= s);
    }
}

proof fn lemma_encode_no_nul(s: Seq<char>)
    requires
        !s.contains('\0'),
    ensures
        nul_position(utf16_encode(s).push(0)) == utf16_encode(s).len(),
    decreases s.len(),
{
    if s.len() == 0 {
        assert(utf16_encode(s) =~= Seq::<u16>::empty());
        assert(utf16_encode(s).push(0)[0] == 0);
    } else {
        let rest = s.drop_first();
        assert forall|c: char| rest.contains(c) implies s.contains(c) by {
            let k = choose|k: int| 0 <= k < rest.len() && rest[k] == c;
            assert(s[k + 1] == c);
        }
        lemma_encode_no_nul(rest);
        assert(s.contains(s[0]));
        assert(s[0] != '\0');
        lemma_nonnul_char(s[0]);
        let head = utf16_of_char(s[0]);
        let tail = utf16_encode(rest).push(0);
        let whole = utf16_encode(s).push(0);
        assert(whole =~= head + tail);
        assert(utf16_encode(s) == head + utf16_encode(rest));
        lemma_char_bound(s[0]);
        assert(whole.len() > 0);
        if (s[0] as u32) < 0x10000 {
            assert(whole[0] != 0);
            assert(whole.drop_first() =~= tail);
            assert(nul_position(whole) == 1 + nul_position(tail));
            assert(head.len() == 1);
        } else {
            let x = (s[0] as u32) - 0x10000;
            assert(x < 0x100000);
            assert(x / 0x400 < 0x400);
            assert(whole[0] == (0xD800 + x / 0x400) as u16);
            assert(whole[0] != 0);
            assert(whole.drop_first()[0] != 0);
            assert(whole.drop_first().drop_first() =~= tail);
            assert(nul_position(whole.drop_first()) == 1 + nul_position(tail));
            assert(nul_position(whole) == 1 + nul_position(whole.drop_first()));
            assert(head.len() == 2);
        }
    }
}

/// Reading back a string written with `wide` gives the string again, for any
/// string without a NUL character.
pub proof fn lemma_from_wide_wide(s: Seq<char>)
    requires
        !s.contains('\0'),
    ensures
        from_wide_spec(wide_spec(s)) == s,
{
    lemma_encode_no_nul(s);
    assert(wide_spec(s).take(utf16_encode(s).len() as int) =~= utf16_encode(s));
    lemma_decode_encode(s);
}

// ---------------------------------------------------------------------------
// Registry string values
// ---------------------------------------------------------------------------

/// Registry value type: a NUL-terminated string.
pub const REG_SZ: u32 = 1;

/// Registry value type: a string with `%NAME%` placeholders.
pub const REG_EXPAND_SZ: u32 = 2;

/// Registry value type: a sequence of strings, each NUL-terminated.
pub const REG_MULTI_SZ: u32 = 7;

/// `data` read as little-endian 16-bit units (a trailing odd byte is dropped).
pub open spec fn le_units(data: Seq<u8>) -> Seq<u16> {
    Seq::new(data.len() / 2, |i: int| (data[2 * i] + 256 * data[2 * i + 1]) as u16)
}

/// `slice::split` at NUL units: the runs between NULs, empty ones included.
pub open spec fn split_at_nul(w: Seq<u16>) -> Seq<Seq<u16>>
    decreases w.len(),
{
    if w.len() == 0 {
        seq![Seq::empty()]
    } else if w.last() == 0 {
        split_at_nul(w.drop_last()).push(Seq::empty())
    } else {
        let parts = split_at_nul(w.drop_last());
        parts.update(parts.len() - 1, parts.last().push(w.last()))
    }
}

/// The non-empty entries of `parts`, each decoded.
pub open spec fn decode_nonempty(parts: Seq<Seq<u16>>) -> Seq<Seq<char>>
    decreases parts.len(),
{
    if parts.len() == 0 {
        Seq::empty()
    } else if parts.last().len() == 0 {
        decode_nonempty(parts.drop_last())
    } else {
        decode_nonempty(parts.drop_last()).push(from_wide_spec(parts.last()))
    }
}

/// The text of a registry value of type `value_type` holding `data`, with
/// `%NAME%` placeholders of `REG_EXPAND_SZ` expanded from `env`: `None` for a
/// type that holds no text, `""` for less than two bytes, the entries of a
/// `REG_MULTI_SZ` joined with `;`, and the text up to the first NUL for the
/// other two types; surrounding white space is trimmed.
pub open spec fn registry_text(
    value_type: u32,
    data: Seq<u8>,
    env: Seq<(Seq<char>, Seq<char>)>,
) -> Option<Seq<char>> {
    if value_type != REG_SZ && value_type != REG_EXPAND_SZ && value_type != REG_MULTI_SZ {
        None
    } else if data.len() < 2 {
        Some(Seq::empty())
    } else {
        let words = le_units(data);
        let value = if value_type == REG_MULTI_SZ {
            join(decode_nonempty(split_at_nul(words)), seq![';'])
        } else {
            from_wide_spec(words)
        };
        if value_type == REG_EXPAND_SZ {
            Some(expand(trim_both(value, CharClass::White), env))
        } else {
            Some(trim_both(value, CharClass::White))
        }
    }
}

fn le_units_exec(data: &[u8]) -> (out: Vec<u16>)
    ensures
        out@ == le_units(data@),
{
    let n = data.len() / 2;
    let mut out: Vec<u16> = Vec::new();
    let mut i: usize = 0;
    assert(2 * n <= data@.len());
    while i < n
        invariant
            n == data@.len() / 2,
            2 * n <= data@.len(),
            i <= n,
            out@ == le_units(data@).take(i as int),
        decreases n - i,
    {
        assert(i + i + 1 < data.len());
        let idx: usize = i + i;
        let lo = data[idx] as u16;
        let hi = data[idx + 1] as u16;
        out.push(lo + 256 * hi);
        i += 1;
        assert(out@ =~= le_units(data@).take(i as int));
    }
    assert(le_units(data@).take(n as int) =~= le_units(data@));
    out
}

proof fn lemma_split_nonempty(w: Seq<u16>)
    ensures
        split_at_nul(w).len() > 0,
    decreases w.len(),
{
    if w.len() > 0 {
        lemma_split_nonempty(w.drop_last());
    }
}

/// The entries of a `REG_MULTI_SZ` buffer, decoded, empty ones left out.
fn multi_string_entries(w: &[u16]) -> (out: Vec<Vec<char>>)
    ensures
        out.deep_view() == decode_nonempty(split_at_nul(w@)),
{
    let mut done: Vec<Vec<char>> = Vec::new();
    let mut current: Vec<u16> = Vec::new();
    let mut i: usize = 0;
    while i < w.len()
        invariant
            i <= w.len(),
            split_at_nul(w@.take(i as int)).len() > 0,
            split_at_nul(w@.take(i as int)).last() == current@,
            done.deep_view() == decode_nonempty(split_at_nul(w@.take(i as int)).drop_last()),
        decreases w.len() - i,
    {
        let ghost before = w@.take(i as int);
        let ghost parts = split_at_nul(before);
        assert(w@.take(i as int + 1).drop_last() =~= before);
        proof {
            lemma_split_nonempty(before);
        }
        if w[i] == 0 {
            if current.len() > 0 {
                let decoded = from_wide_chars(&current);
                assert(decoded.deep_view() =~= decoded@);
                done.push(decoded);
                assert(done.deep_view() =~= decode_nonempty(parts.drop_last()).push(
                    from_wide_spec(current@),
                ));
            }
            let ghost next = parts.push(Seq::<u16>::empty());
            assert(next.drop_last() =~= parts);
            assert(next.drop_last().drop_last() =~= parts.drop_last());
            current = Vec::new();
        } else {
            current.push(w[i]);
            let ghost next = parts.update(parts.len() - 1, parts.last().push(w@[i as int]));
            assert(next.drop_last() =~= parts.drop_last());
        }
        i += 1;
    }
    assert(w@.take(i as int) =~= w@);
    let ghost parts = split_at_nul(w@);
    if current.len() > 0 {
        let decoded = from_wide_chars(&current);
        assert(decoded.deep_view() =~= decoded@);
        done.push(decoded);
        assert(done.deep_view() =~= decode_nonempty(parts));
    } else {
        assert(decode_nonempty(parts) == decode_nonempty(parts.drop_last()));
    }
    done
}

/// The text of a registry value of type `value_type` holding `data`;
/// `%NAME%` placeholders of an expandable string are expanded from `env`.
pub fn registry_data_to_string(value_type: u32, data: &[u8], env: &[(String, String)]) -> (r:
    Option<String>)
    ensures
        r matches Some(s) ==> registry_text(value_type, data@, env.deep_view()) == Some(s@),
        r is None ==> registry_text(value_type, data@, env.deep_view()) is None,
{
    if value_type != REG_SZ && value_type != REG_EXPAND_SZ && value_type != REG_MULTI_SZ {
        return None;
    }
    if data.len() < 2 {
        return Some(String::new());
    }
    let words = le_units_exec(data);
    let value: Vec<char> = if value_type == REG_MULTI_SZ {
        let entries = multi_string_entries(&words);
        let mut joined: Vec<char> = Vec::new();
        let mut k: usize = 0;
        while k < entries.len()
            invariant
                k <= entries.len(),
                joined@ == join(entries.deep_view().take(k as int), seq![';']),
            decreases entries.len() - k,
        {
            let ghost dv = entries.deep_view();
            assert(dv.take(k as int + 1).drop_last() =~= dv.take(k as int));
            if k > 0 {
                joined.push(';');
                assert(joined@ =~= join(dv.take(k as int), seq![';']) + seq![';']);
            }
            append_chars(&mut joined, &entries[k]);
            k += 1;
            if k == 1 {
                assert(joined@ =~= dv.take(1)[0]);
            }
        }
        assert(entries.deep_view().take(k as int) =~= entries.deep_view());
        joined
    } else {
        from_wide_chars(&words)
    };
    let trimmed = trim_both_exec(&value, &CharClass::White);
    if value_type == REG_EXPAND_SZ {
        let expanded = expand_chars(&trimmed, env);
        Some(string_of(&expanded))
    } else {
        Some(string_of(&trimmed))
    }
}

} // verus!

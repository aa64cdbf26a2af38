//! The list of registry candidates of a scan: one entry per key, and the
//! order in which they are shown.
use vstd::prelude::*;
use crate::registry::{
    CandidateModel, RegistryCandidate, RegistryRoot, full_name, full_name_chars, root_label,
};
use crate::text::{
    append_chars, ascii_lower, chars_equal, chars_of, contains, contains_exec, lex_lt,
    lex_lt_exec, string_of, to_ascii_lower,
};

verus! {

broadcast use crate::text::lemma_chars_deep_view;

// ---------------------------------------------------------------------------
// Identity and merging
// ---------------------------------------------------------------------------

/// Two candidates name the same key when hive, view and path (ignoring ASCII
/// case) agree.
pub open spec fn identity(c: CandidateModel) -> (RegistryRoot, u32, Seq<char>) {
    (c.root, c.view, ascii_lower(c.sub_key))
}

/// No two entries name the same key.
pub open spec fn distinct_identities(s: Seq<CandidateModel>) -> bool {
    forall|i: int, j: int|
        0 <= i < s.len() && 0 <= j < s.len() && i != j ==> identity(#[trigger] s[i])
            != identity(#[trigger] s[j])
}

/// The first position at or after `i` of an entry naming the key `id`.
pub open spec fn identity_index_from(
    s: Seq<CandidateModel>,
    id: (RegistryRoot, u32, Seq<char>),
    i: int,
) -> Option<int>
    decreases s.len() - i,
{
    if i < 0 || i >= s.len() {
        None
    } else if identity(s[i]) == id {
        Some(i)
    } else {
        identity_index_from(s, id, i + 1)
    }
}

pub open spec fn identity_index(s: Seq<CandidateModel>, id: (RegistryRoot, u32, Seq<char>)) -> Option<
    int,
> {
    identity_index_from(s, id, 0)
}

/// The separator between reasons.
pub open spec fn reason_separator() -> Seq<char> {
    "；"@
}

/// `existing` after another finding `found` for the same key: certain if
/// either is, and with `found`'s reason appended unless already there.
pub open spec fn absorbed(existing: CandidateModel, found: CandidateModel) -> CandidateModel {
    CandidateModel {
        certain: existing.certain || found.certain,
        reason: if contains(existing.reason, found.reason) {
            existing.reason
        } else {
            existing.reason + reason_separator() + found.reason
        },
        ..existing
    }
}

/// `list` once `found` is merged into it: absorbed by the entry for the same
/// key where there is one, appended otherwise.
pub open spec fn merged(list: Seq<CandidateModel>, found: CandidateModel) -> Seq<CandidateModel> {
    match identity_index(list, identity(found)) {
        Some(i) => list.update(i, absorbed(list[i], found)),
        None => list.push(found),
    }
}

pub proof fn lemma_identity_index_from(
    s: Seq<CandidateModel>,
    id: (RegistryRoot, u32, Seq<char>),
    i: int,
)
    ensures
        identity_index_from(s, id, i) matches Some(k) ==> i <= k < s.len() && identity(s[k]) == id
            && forall|j: int| i <= j < k ==> identity(#[trigger] s[j]) != id,
        identity_index_from(s, id, i) is None ==> i >= 0 ==> forall|j: int|
            i <= j < s.len() ==> identity(#[trigger] s[j]) != id,
    decreases s.len() - i,
{
    if i >= 0 && i < s.len() && identity(s[i]) != id {
        lemma_identity_index_from(s, id, i + 1);
    }
}

/// Whether two candidates name the same key.
pub fn same_identity(a: &RegistryCandidate, b: &RegistryCandidate) -> (r: bool)
    ensures
        r == (identity(a@) == identity(b@)),
{
    if a.root != b.root || a.view != b.view {
        return false;
    }
    let ka = to_ascii_lower(&chars_of(a.sub_key.as_str()));
    let kb = to_ascii_lower(&chars_of(b.sub_key.as_str()));
    chars_equal(&ka, &kb)
}

/// Adds a finding to the candidate list: where the list already has an entry
/// for the same key (hive, view, and path ignoring ASCII case), that entry
/// becomes certain if the finding is and takes the finding's reason unless it
/// holds it already; otherwise the finding is appended.
pub fn merge_registry_candidate(candidates: &mut Vec<RegistryCandidate>, candidate: RegistryCandidate)
    ensures
        final(candidates).deep_view() == merged(old(candidates).deep_view(), candidate@),
{
    let ghost list = candidates.deep_view();
    let mut i: usize = 0;
    while i < candidates.len()
        invariant
            i <= candidates.len(),
            list == candidates.deep_view(),
            list == old(candidates).deep_view(),
            identity_index(list, identity(candidate@)) == identity_index_from(
                list,
                identity(candidate@),
                i as int,
            ),
        decreases candidates.len() - i,
    {
        assert(list[i as int] == candidates@[i as int]@);
        if same_identity(&candidates[i], &candidate) {
            let existing = &candidates[i];
            let existing_reason = chars_of(existing.reason.as_str());
            let found_reason = chars_of(candidate.reason.as_str());
            let reason = if contains_exec(&existing_reason, &found_reason) {
                existing.reason.clone()
            } else {
                let mut joined = existing_reason;
                append_chars(&mut joined, &chars_of("；"));
                append_chars(&mut joined, &found_reason);
                string_of(&joined)
            };
            let updated = RegistryCandidate {
                root: existing.root,
                view: existing.view,
                sub_key: existing.sub_key.clone(),
                display_name: existing.display_name.clone(),
                reason,
                certain: existing.certain || candidate.certain,
                selected: existing.selected,
            };
            assert(updated@ == absorbed(list[i as int], candidate@));
            assert(identity_index(list, identity(candidate@)) == Some(i as int));
            candidates.set(i, updated);
            assert(candidates.deep_view() =~= list.update(i as int, absorbed(
                list[i as int],
                candidate@,
            )));
            assert(merged(list, candidate@) == list.update(i as int, absorbed(
                list[i as int],
                candidate@,
            )));
            assert(list == old(candidates).deep_view());
            return;
        }
        i += 1;
    }
    candidates.push(candidate);
    assert(candidates.deep_view() =~= list.push(candidate@));
}

proof fn lemma_contains_suffix(a: Seq<char>, b: Seq<char>)
    ensures
        contains(a + b, b),
{
    let s = a + b;
    assert(s.subrange(a.len() as int, (a.len() + b.len()) as int) =~= b);
    assert(crate::text::occurs_at(s, b, a.len() as int));
    crate::text::lemma_contains_iff(s, b);
}

/// Merging keeps the entries' keys distinct.
pub proof fn lemma_merge_keeps_distinct(list: Seq<CandidateModel>, found: CandidateModel)
    requires
        distinct_identities(list),
    ensures
        distinct_identities(merged(list, found)),
{
    lemma_identity_index_from(list, identity(found), 0);
    let m = merged(list, found);
    match identity_index(list, identity(found)) {
        Some(k) => {
            assert forall|i: int, j: int|
                0 <= i < m.len() && 0 <= j < m.len() && i != j implies identity(#[trigger] m[i])
                != identity(#[trigger] m[j]) by {
                assert(identity(m[i]) == identity(list[i]));
                assert(identity(m[j]) == identity(list[j]));
            }
        },
        None => {
            assert forall|i: int, j: int|
                0 <= i < m.len() && 0 <= j < m.len() && i != j implies identity(#[trigger] m[i])
                != identity(#[trigger] m[j]) by {
                if i < list.len() && j < list.len() {
                    assert(m[i] == list[i] && m[j] == list[j]);
                } else if i == list.len() {
                    assert(m[j] == list[j]);
                } else {
                    assert(m[i] == list[i]);
                }
            }
        },
    }
}

/// Merging the same finding twice is merging it once.
pub proof fn lemma_merge_idempotent(list: Seq<CandidateModel>, found: CandidateModel)
    ensures
        merged(merged(list, found), found) == merged(list, found),
{
    let id = identity(found);
    let m = merged(list, found);
    lemma_identity_index_from(list, id, 0);
    lemma_identity_index_from(m, id, 0);
    let k = match identity_index(list, id) {
        Some(k) => k,
        None => list.len() as int,
    };
    // In the merged list the entry for `found`'s key sits at `k`, first.
    assert(identity(m[k]) == id);
    assert forall|j: int| 0 <= j < k implies identity(#[trigger] m[j]) != id by {
        assert(m[j] == list[j]);
    }
    assert(identity_index(m, id) == Some(k)) by {
        if identity_index(m, id) is None {
            assert(identity(m[k]) != id);
        } else {
            let k2 = identity_index(m, id)->0;
            if k2 < k {
                assert(identity(m[k2]) != id);
            }
            if k2 > k {
                assert(identity(m[k]) != id);
            }
        }
    }
    let e = m[k];
    assert(e.certain || !found.certain);
    match identity_index(list, id) {
        Some(_) => {
            let old_e = list[k];
            if !contains(old_e.reason, found.reason) {
                lemma_contains_suffix(old_e.reason + reason_separator(), found.reason);
            }
        },
        None => {
            assert(e == found);
            assert(crate::text::occurs_at(found.reason, found.reason, 0)) by {
                assert(found.reason.subrange(0, found.reason.len() as int) =~= found.reason);
            }
            crate::text::lemma_contains_iff(found.reason, found.reason);
        },
    }
    assert(contains(e.reason, found.reason));
    assert(absorbed(e, found) == e);
    assert(m.update(k, e) =~= m);
}

// ---------------------------------------------------------------------------
// Order
// ---------------------------------------------------------------------------

/// The order of the list: certain entries first, then by full key name, then
/// by view.
pub open spec fn shown_before(a: CandidateModel, b: CandidateModel) -> bool {
    (a.certain && !b.certain) || (a.certain == b.certain && (lex_lt(full_name(a), full_name(b))
        || (full_name(a) == full_name(b) && a.view < b.view)))
}

/// Strictly in the order of `shown_before`.
pub open spec fn in_shown_order(s: Seq<CandidateModel>) -> bool {
    forall|i: int, j: int| 0 <= i < j < s.len() ==> shown_before(#[trigger] s[i], #[trigger] s[j])
}

proof fn lemma_shown_before_transitive(a: CandidateModel, b: CandidateModel, c: CandidateModel)
    requires
        shown_before(a, b),
        shown_before(b, c),
    ensures
        shown_before(a, c),
{
    if a.certain == b.certain && b.certain == c.certain {
        if lex_lt(full_name(a), full_name(b)) && lex_lt(full_name(b), full_name(c)) {
            crate::text::lemma_lex_transitive(full_name(a), full_name(b), full_name(c));
        }
    }
}

proof fn lemma_root_label_shape(r: RegistryRoot)
    ensures
        root_label(r).len() == 4,
        root_label(r)[2] == (if r == RegistryRoot::CurrentUser {
            'C'
        } else {
            'L'
        }),
{
    reveal_strlit("HKCU");
    reveal_strlit("HKLM");
}

/// Equal full names mean the same hive and the same path.
proof fn lemma_full_name_injective(a: CandidateModel, b: CandidateModel)
    requires
        full_name(a) == full_name(b),
    ensures
        a.root == b.root,
        a.sub_key == b.sub_key,
{
    lemma_root_label_shape(a.root);
    lemma_root_label_shape(b.root);
    assert(full_name(a)[2] == root_label(a.root)[2]);
    assert(full_name(b)[2] == root_label(b.root)[2]);
    assert(full_name(a).skip(5) =~= a.sub_key);
    assert(full_name(b).skip(5) =~= b.sub_key);
}

/// Entries for different keys are always ordered one way or the other.
proof fn lemma_shown_before_total(a: CandidateModel, b: CandidateModel)
    requires
        identity(a) != identity(b),
    ensures
        shown_before(a, b) || shown_before(b, a),
{
    crate::text::lemma_lex_total(full_name(a), full_name(b));
    if full_name(a) == full_name(b) {
        lemma_full_name_injective(a, b);
    }
}

/// Whether `a` is shown before `b`.
pub fn shown_before_exec(a: &RegistryCandidate, b: &RegistryCandidate) -> (r: bool)
    ensures
        r == shown_before(a@, b@),
{
    if a.certain && !b.certain {
        return true;
    }
    if a.certain != b.certain {
        return false;
    }
    let fa = full_name_chars(a);
    let fb = full_name_chars(b);
    if lex_lt_exec(&fa, &fb) {
        return true;
    }
    chars_equal(&fa, &fb) && a.view < b.view
}

/// Puts `c` in its place in a list in shown order, for a key that the list
/// does not hold.
fn insert_in_order(list: &mut Vec<RegistryCandidate>, c: RegistryCandidate)
    requires
        in_shown_order(old(list).deep_view()),
        distinct_identities(old(list).deep_view().push(c@)),
    ensures
        in_shown_order(final(list).deep_view()),
        final(list).deep_view().to_multiset() == old(list).deep_view().to_multiset().insert(c@),
        distinct_identities(final(list).deep_view()),
{
    let ghost before = list.deep_view();
    let ghost cv = c@;
    let mut p: usize = 0;
    while p < list.len() && shown_before_exec(&list[p], &c)
        invariant
            p <= list.len(),
            list.deep_view() == before,
            cv == c@,
            forall|k: int| 0 <= k < p ==> shown_before(#[trigger] before[k], cv),
        decreases list.len() - p,
    {
        assert(before[p as int] == list@[p as int]@);
        p += 1;
    }
    if p < list.len() {
        assert(before[p as int] == list@[p as int]@);
        assert(before.push(cv)[p as int] == before[p as int]);
        assert(before.push(cv)[before.len() as int] == cv);
        proof {
            lemma_shown_before_total(before[p as int], cv);
        }
    }
    list.insert(p, c);
    let ghost after = list.deep_view();
    assert(after =~= before.insert(p as int, cv));
    proof {
        vstd::seq_lib::to_multiset_insert(before, p as int, cv);
    }
    assert forall|i: int, j: int| 0 <= i < j < after.len() implies shown_before(
        #[trigger] after[i],
        #[trigger] after[j],
    ) by {
        if j < p {
            assert(after[i] == before[i] && after[j] == before[j]);
        } else if j == p {
            assert(after[i] == before[i]);
        } else if i == p {
            assert(after[j] == before[j - 1]);
            if j - 1 > p {
                lemma_shown_before_transitive(cv, before[p as int], before[j - 1]);
            }
        } else if i < p {
            assert(after[i] == before[i] && after[j] == before[j - 1]);
            lemma_shown_before_transitive(before[i], cv, before[p as int]);
            if j - 1 > p {
                lemma_shown_before_transitive(before[i], before[p as int], before[j - 1]);
            }
        } else {
            assert(after[i] == before[i - 1] && after[j] == before[j - 1]);
        }
    }
    assert forall|i: int, j: int|
        0 <= i < after.len() && 0 <= j < after.len() && i != j implies identity(
        #[trigger] after[i],
    ) != identity(#[trigger] after[j]) by {
        let bp = before.push(cv);
        let ii = if i < p {
            i
        } else if i == p {
            before.len() as int
        } else {
            i - 1
        };
        let jj = if j < p {
            j
        } else if j == p {
            before.len() as int
        } else {
            j - 1
        };
        assert(after[i] == bp[ii]);
        assert(after[j] == bp[jj]);
    }
}

/// All findings of all scan locations, in the order they arrived.
pub open spec fn all_findings(batches: Seq<Seq<CandidateModel>>) -> Seq<CandidateModel>
    decreases batches.len(),
{
    if batches.len() == 0 {
        Seq::empty()
    } else {
        all_findings(batches.drop_last()) + batches.last()
    }
}

/// The candidate list built from `findings` merged one after another.
pub open spec fn merge_all(findings: Seq<CandidateModel>) -> Seq<CandidateModel>
    decreases findings.len(),
{
    if findings.len() == 0 {
        Seq::empty()
    } else {
        merged(merge_all(findings.drop_last()), findings.last())
    }
}

proof fn lemma_merge_all_distinct(findings: Seq<CandidateModel>)
    ensures
        distinct_identities(merge_all(findings)),
    decreases findings.len(),
{
    if findings.len() > 0 {
        lemma_merge_all_distinct(findings.drop_last());
        lemma_merge_keeps_distinct(merge_all(findings.drop_last()), findings.last());
    }
}

/// The candidates of a whole scan: the findings of all locations (`batches`,
/// in the order they arrived) merged into one entry per key, then sorted with
/// certain entries first, then by full key name, then by view.
pub fn collect_registry_candidates(batches: Vec<Vec<RegistryCandidate>>) -> (out: Vec<
    RegistryCandidate,
>)
    ensures
        in_shown_order(out.deep_view()),
        distinct_identities(out.deep_view()),
        out.deep_view().to_multiset() == merge_all(all_findings(batches.deep_view())).to_multiset(),
{
    let ghost bs = batches.deep_view();
    let mut merged_list: Vec<RegistryCandidate> = Vec::new();
    let ghost mut seen: Seq<CandidateModel> = Seq::empty();
    let mut b: usize = 0;
    assert(merge_all(seen) =~= merged_list.deep_view());
    assert(all_findings(bs.take(0)) =~= seen);
    while b < batches.len()
        invariant
            b <= batches.len(),
            bs == batches.deep_view(),
            seen == all_findings(bs.take(b as int)),
            merged_list.deep_view() == merge_all(seen),
        decreases batches.len() - b,
    {
        let batch = &batches[b];
        assert(bs[b as int] == batch.deep_view());
        let ghost start = seen;
        let mut k: usize = 0;
        while k < batch.len()
            invariant
                k <= batch.len(),
                b < batches.len(),
                bs.len() == batches.len(),
                bs[b as int] == batch.deep_view(),
                seen == start + batch.deep_view().take(k as int),
                merged_list.deep_view() == merge_all(seen),
            decreases batch.len() - k,
        {
            let item = batch[k].clone();
            let ghost next = seen.push(item@);
            assert(next.drop_last() =~= seen);
            merge_registry_candidate(&mut merged_list, item);
            proof {
                seen = next;
            }
            k += 1;
            assert(seen =~= start + batch.deep_view().take(k as int));
        }
        assert(batch.deep_view().take(k as int) =~= batch.deep_view());
        assert(bs.take(b as int + 1).drop_last() =~= bs.take(b as int));
        b += 1;
    }
    assert(bs.take(b as int) =~= bs);
    proof {
        lemma_merge_all_distinct(seen);
    }
    let ghost all = merged_list.deep_view();
    let mut out: Vec<RegistryCandidate> = Vec::new();
    let mut i: usize = 0;
    assert(out.deep_view() =~= all.take(0));
    while i < merged_list.len()
        invariant
            i <= merged_list.len(),
            all == merged_list.deep_view(),
            distinct_identities(all),
            in_shown_order(out.deep_view()),
            distinct_identities(out.deep_view()),
            out.deep_view().to_multiset() == all.take(i as int).to_multiset(),
        decreases merged_list.len() - i,
    {
        let item = merged_list[i].clone();
        assert(item@ == all[i as int]);
        proof {
            let o = out.deep_view();
            // `out` holds exactly the first `i` entries, whose keys differ from this one.
            assert forall|x: int, y: int|
                0 <= x < o.push(item@).len() && 0 <= y < o.push(item@).len() && x != y implies identity(
                #[trigger] o.push(item@)[x],
            ) != identity(#[trigger] o.push(item@)[y]) by {
                if x < o.len() && y < o.len() {
                    assert(o.push(item@)[x] == o[x] && o.push(item@)[y] == o[y]);
                } else {
                    let other = if x < o.len() {
                        x
                    } else {
                        y
                    };
                    assert(o.push(item@)[other] == o[other]);
                    assert(o.to_multiset().count(o[other]) > 0) by {
                        vstd::seq_lib::to_multiset_contains(o, o[other]);
                        assert(o.contains(o[other]));
                    }
                    let t = all.take(i as int);
                    vstd::seq_lib::to_multiset_contains(t, o[other]);
                    let w = choose|w: int| 0 <= w < t.len() && t[w] == o[other];
                    assert(all[w] == o[other]);
                    assert(w != i as int);
                }
            }
        }
        insert_in_order(&mut out, item);
        proof {
            assert(all.take(i as int + 1) =~= all.take(i as int).push(all[i as int]));
            vstd::seq_lib::to_multiset_build(all.take(i as int), all[i as int]);
        }
        i += 1;
    }
    assert(all.take(i as int) =~= all);
    out
}

/// The end of a registry scan: nothing when it was cancelled, otherwise the
/// collected candidates (see `collect_registry_candidates`) and the number of
/// keys searched.
pub fn finish_registry_scan(batches: Vec<Vec<RegistryCandidate>>, scanned: u64, cancelled: bool) -> (r:
    Option<(Vec<RegistryCandidate>, u64)>)
    ensures
        cancelled ==> r is None,
        !cancelled ==> (r matches Some((c, n)) && n == scanned && in_shown_order(c.deep_view())
            && distinct_identities(c.deep_view()) && c.deep_view().to_multiset() == merge_all(
            all_findings(batches.deep_view()),
        ).to_multiset()),
{
    if cancelled {
        return None;
    }
    Some((collect_registry_candidates(batches), scanned))
}

/// The candidates of a scan's outcome; none when the scan gave nothing.
pub fn scan_registry_for_target(outcome: Option<(Vec<RegistryCandidate>, u64)>) -> (out: Vec<
    RegistryCandidate,
>)
    ensures
        out.deep_view() == match outcome {
            Some((c, _)) => c.deep_view(),
            None => Seq::<CandidateModel>::empty(),
        },
{
    match outcome {
        Some((candidates, _)) => candidates,
        None => {
            let v: Vec<RegistryCandidate> = Vec::new();
            assert(v.deep_view() =~= Seq::<CandidateModel>::empty());
            v
        },
    }
}

} // verus!

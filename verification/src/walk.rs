//! Depth-limited walks: over the subkeys of a registry key, and over the
//! entries of a directory tree. The caller performs the reads and reports
//! what it found; the walk decides what comes next.
use vstd::prelude::*;
use crate::text::{append_chars, chars_of, starts_with, string_of};

verus! {

broadcast use crate::text::lemma_chars_deep_view;

// ---------------------------------------------------------------------------
// Registry key walk
// ---------------------------------------------------------------------------

/// Pending work of a registry walk.
pub enum WalkItem {
    /// List the subkeys of `path`; each is visited with the remaining depth.
    List(String, u32),
    /// Visit the key `path`; with remaining depth above 1 its subkeys follow.
    Visit(String, u32),
}

/// The mathematical value of a pending item.
pub enum ItemModel {
    List(Seq<char>, u32),
    Visit(Seq<char>, u32),
}

impl DeepView for WalkItem {
    type V = ItemModel;

    open spec fn deep_view(&self) -> ItemModel {
        match self {
            WalkItem::List(p, d) => ItemModel::List(p@, *d),
            WalkItem::Visit(p, d) => ItemModel::Visit(p@, *d),
        }
    }
}

/// What the caller is to do next.
pub enum WalkAction {
    /// Enumerate the subkeys of this key and report them with
    /// `children_listed`.
    ListChildren(String),
    /// Process this key.
    Visit(String),
    /// The walk is over.
    Done,
}

/// A pre-order walk over the subkeys of `base`, down to `depth` levels:
/// each subkey is visited before its own subkeys, siblings in the order they
/// were listed.
pub struct RegistryWalk {
    base: String,
    depth: u32,
    pending: Vec<WalkItem>,
    awaiting: Option<(String, u32)>,
}

pub open spec fn item_path(item: ItemModel) -> Seq<char> {
    match item {
        ItemModel::List(p, _) => p,
        ItemModel::Visit(p, _) => p,
    }
}

pub open spec fn item_depth(item: ItemModel) -> u32 {
    match item {
        ItemModel::List(_, d) => d,
        ItemModel::Visit(_, d) => d,
    }
}

/// `parent\child`.
pub open spec fn child_path(parent: Seq<char>, child: Seq<char>) -> Seq<char> {
    parent + seq!['\\'] + child
}

/// The visits that the listing of `parent`'s subkeys adds: stacked so that
/// the first child comes out first.
pub open spec fn child_visits(parent: Seq<char>, depth: u32, children: Seq<Seq<char>>) -> Seq<
    ItemModel,
>
    decreases children.len(),
{
    if children.len() == 0 {
        Seq::empty()
    } else {
        child_visits(parent, depth, children.drop_first()).push(
            ItemModel::Visit(child_path(parent, children[0]), depth),
        )
    }
}

impl RegistryWalk {
    pub closed spec fn base_path(&self) -> Seq<char> {
        self.base@
    }

    pub closed spec fn max_depth(&self) -> u32 {
        self.depth
    }

    /// The pending items; the last one comes next.
    pub closed spec fn pending_items(&self) -> Seq<ItemModel> {
        self.pending.deep_view()
    }

    /// The key whose subkeys the walk waits for, with its remaining depth.
    pub closed spec fn awaiting(&self) -> Option<(Seq<char>, u32)> {
        match self.awaiting {
            Some((p, d)) => Some((p@, d)),
            None => None,
        }
    }

    /// Every pending key lies under the base key (or is it), with a remaining
    /// depth between 1 and the limit.
    pub open spec fn well_formed(&self) -> bool {
        &&& forall|i: int|
            0 <= i < self.pending_items().len() ==> {
                &&& 1 <= item_depth(#[trigger] self.pending_items()[i]) <= self.max_depth()
                &&& starts_with(item_path(self.pending_items()[i]), self.base_path())
            }
        &&& match self.awaiting() {
            Some((p, d)) => 1 <= d <= self.max_depth() && starts_with(p, self.base_path()),
            None => true,
        }
    }

    /// A walk of the subkeys of `base`, `depth` levels deep (none for 0).
    pub fn new(base: &str, depth: u32) -> (w: Self)
        ensures
            w.base_path() == base@,
            w.max_depth() == depth,
            w.awaiting() is None,
            w.pending_items() == (if depth > 0 {
                seq![ItemModel::List(base@, depth)]
            } else {
                Seq::empty()
            }),
            w.well_formed(),
    {
        let mut pending: Vec<WalkItem> = Vec::new();
        if depth > 0 {
            pending.push(WalkItem::List(base.to_string(), depth));
        }
        let w = RegistryWalk { base: base.to_string(), depth, pending, awaiting: None };
        assert(w.pending_items() =~= (if depth > 0 {
            seq![ItemModel::List(base@, depth)]
        } else {
            Seq::empty()
        }));
        proof {
            if depth > 0 {
                assert(base@.subrange(0, base@.len() as int) =~= base@);
            }
        }
        w
    }

    /// The next thing to do. A listing is answered with `children_listed`
    /// before the walk goes on; a visit of a key with depth left schedules the
    /// listing of its own subkeys.
    pub fn next_action(&mut self) -> (action: WalkAction)
        requires
            old(self).awaiting() is None,
            old(self).well_formed(),
        ensures
            final(self).well_formed(),
            final(self).base_path() == old(self).base_path(),
            final(self).max_depth() == old(self).max_depth(),
            old(self).pending_items().len() == 0 ==> action is Done && final(self).pending_items()
                == old(self).pending_items() && final(self).awaiting() == old(self).awaiting(),
            old(self).pending_items().len() > 0 ==> {
                let top = old(self).pending_items().last();
                let rest = old(self).pending_items().drop_last();
                match top {
                    ItemModel::List(p, d) => (action matches WalkAction::ListChildren(q) && q@ == p)
                        && final(self).awaiting() == Some((p, d)) && final(self).pending_items()
                        == rest,
                    ItemModel::Visit(p, d) => (action matches WalkAction::Visit(q) && q@ == p)
                        && final(self).awaiting() is None && final(self).pending_items() == (
                    if d > 1 {
                        rest.push(ItemModel::List(p, (d - 1) as u32))
                    } else {
                        rest
                    }),
                }
            },
    {
        let ghost before = self.pending.deep_view();
        match self.pending.pop() {
            None => WalkAction::Done,
            Some(item) => {
                assert(self.pending.deep_view() =~= before.drop_last());
                match item {
                    WalkItem::List(path, d) => {
                        let action = WalkAction::ListChildren(path.clone());
                        self.awaiting = Some((path, d));
                        action
                    },
                    WalkItem::Visit(path, d) => {
                        let action = WalkAction::Visit(path.clone());
                        if d > 1 {
                            self.pending.push(WalkItem::List(path, d - 1));
                            assert(self.pending.deep_view() =~= before.drop_last().push(
                                ItemModel::List(before.last()->Visit_0, (d - 1) as u32),
                            ));
                        }
                        action
                    },
                }
            },
        }
    }

    /// Reports the subkeys of the key the walk waits for, in the order the
    /// registry lists them; each becomes a visit, the first one next.
    pub fn children_listed(&mut self, children: &[String])
        requires
            old(self).awaiting() is Some,
            old(self).well_formed(),
        ensures
            final(self).well_formed(),
            final(self).base_path() == old(self).base_path(),
            final(self).max_depth() == old(self).max_depth(),
            final(self).awaiting() is None,
            match old(self).awaiting() {
                Some((p, d)) => final(self).pending_items() == old(self).pending_items()
                    + child_visits(p, d, children.deep_view()),
                None => true,
            },
    {
        let (parent, d) = match self.awaiting.take() {
            Some(x) => x,
            None => {
                return;
            },
        };
        let ghost start = self.pending.deep_view();
        let ghost kids = children.deep_view();
        assert(old(self).awaiting() == Some((parent@, d)));
        assert(start == old(self).pending_items());
        assert(1 <= d <= self.depth);
        let parent_chars = chars_of(parent.as_str());
        let mut i: usize = children.len();
        assert(kids.skip(i as int) =~= Seq::<Seq<char>>::empty());
        while i > 0
            invariant
                i <= children.len(),
                kids == children.deep_view(),
                parent_chars@ == parent@,
                self.pending.deep_view() == start + child_visits(parent@, d, kids.skip(i as int)),
                self.base == old(self).base,
                self.depth == old(self).depth,
                self.awaiting is None,
            decreases i,
        {
            i -= 1;
            let mut path = parent_chars.clone();
            assert(path@ == parent@);
            path.push('\\');
            let child = chars_of(children[i].as_str());
            append_chars(&mut path, &child);
            let ghost before = self.pending.deep_view();
            assert(path@ =~= child_path(parent@, kids[i as int]));
            self.pending.push(WalkItem::Visit(string_of(&path), d));
            assert(kids.skip(i as int).drop_first() =~= kids.skip(i as int + 1));
            assert(kids.skip(i as int)[0] == kids[i as int]);
            assert(self.pending.deep_view() =~= before.push(
                ItemModel::Visit(child_path(parent@, kids[i as int]), d),
            ));
        }
        assert(kids.skip(0) =~= kids);
        proof {
            lemma_child_visits_shape(parent@, d, kids, self.base@);
            let cv = child_visits(parent@, d, kids);
            let all = self.pending.deep_view();
            assert forall|j: int| 0 <= j < all.len() implies {
                &&& 1 <= item_depth(#[trigger] all[j]) <= self.depth
                &&& starts_with(item_path(all[j]), self.base@)
            } by {
                if j < start.len() {
                    assert(all[j] == start[j]);
                } else {
                    assert(all[j] == cv[j - start.len()]);
                }
            }
        }
    }
}

/// Starts the pre-order walk of the subkeys of `base`, `depth` levels deep.
pub fn walk_registry_key_paths(base: &str, depth: u32) -> (w: RegistryWalk)
    ensures
        w.base_path() == base@,
        w.max_depth() == depth,
        w.awaiting() is None,
        w.pending_items() == (if depth > 0 {
            seq![ItemModel::List(base@, depth)]
        } else {
            Seq::empty()
        }),
        w.well_formed(),
{
    RegistryWalk::new(base, depth)
}

/// The listing of a key under the base adds visits under the base, with the
/// key's remaining depth.
proof fn lemma_child_visits_shape(parent: Seq<char>, d: u32, kids: Seq<Seq<char>>, base: Seq<char>)
    requires
        starts_with(parent, base),
    ensures
        forall|i: int|
            0 <= i < child_visits(parent, d, kids).len() ==> {
                &&& item_depth(#[trigger] child_visits(parent, d, kids)[i]) == d
                &&& starts_with(item_path(child_visits(parent, d, kids)[i]), base)
            },
    decreases kids.len(),
{
    if kids.len() > 0 {
        lemma_child_visits_shape(parent, d, kids.drop_first(), base);
        let p = child_path(parent, kids[0]);
        assert(p.subrange(0, base.len() as int) =~= parent.subrange(0, base.len() as int));
        let rest = child_visits(parent, d, kids.drop_first());
        let all = child_visits(parent, d, kids);
        assert(all == rest.push(ItemModel::Visit(p, d)));
        assert forall|i: int| 0 <= i < all.len() implies {
            &&& item_depth(#[trigger] all[i]) == d
            &&& starts_with(item_path(all[i]), base)
        } by {
            if i < rest.len() {
                assert(all[i] == rest[i]);
            } else {
                assert(all[i] == ItemModel::Visit(p, d));
            }
        }
    }
}

// ---------------------------------------------------------------------------
// What a registry walk visits
// ---------------------------------------------------------------------------

/// The keys that the recursive traversal of `base`, `depth` levels deep,
/// visits, when the subkeys of each key `k` are `tree(k)`: each subkey in
/// order, each followed by its own subkeys while depth is left.
pub open spec fn traversal(tree: spec_fn(Seq<char>) -> Seq<Seq<char>>, base: Seq<char>, depth: nat) -> Seq<
    Seq<char>,
>
    decreases depth, 1nat, 0nat,
{
    if depth == 0 {
        Seq::empty()
    } else {
        traversal_of_children(tree, base, tree(base), depth)
    }
}

/// The part of the traversal of `base` that starts at the subkey `kids[0]`.
pub open spec fn traversal_of_children(
    tree: spec_fn(Seq<char>) -> Seq<Seq<char>>,
    base: Seq<char>,
    kids: Seq<Seq<char>>,
    depth: nat,
) -> Seq<Seq<char>>
    decreases depth, 0nat, kids.len(),
{
    if kids.len() == 0 {
        Seq::empty()
    } else {
        let p = child_path(base, kids[0]);
        seq![p] + (if depth > 1 {
            traversal(tree, p, (depth - 1) as nat)
        } else {
            Seq::empty()
        }) + traversal_of_children(tree, base, kids.drop_first(), depth)
    }
}

/// What a pending item still has to visit.
pub open spec fn item_visits(tree: spec_fn(Seq<char>) -> Seq<Seq<char>>, item: ItemModel) -> Seq<
    Seq<char>,
> {
    match item {
        ItemModel::List(p, d) => traversal(tree, p, d as nat),
        ItemModel::Visit(p, d) => seq![p] + (if d > 1 {
            traversal(tree, p, (d - 1) as nat)
        } else {
            Seq::empty()
        }),
    }
}

/// What the pending items still have to visit, the top one (the last) first.
pub open spec fn stack_visits(tree: spec_fn(Seq<char>) -> Seq<Seq<char>>, items: Seq<ItemModel>) -> Seq<
    Seq<char>,
>
    decreases items.len(),
{
    if items.len() == 0 {
        Seq::empty()
    } else {
        item_visits(tree, items.last()) + stack_visits(tree, items.drop_last())
    }
}

/// What a walk in this state still has to visit: first the key it waits
/// for, then the pending items.
pub open spec fn remaining_visits(
    tree: spec_fn(Seq<char>) -> Seq<Seq<char>>,
    pending: Seq<ItemModel>,
    awaiting: Option<(Seq<char>, u32)>,
) -> Seq<Seq<char>> {
    match awaiting {
        Some((p, d)) => traversal(tree, p, d as nat) + stack_visits(tree, pending),
        None => stack_visits(tree, pending),
    }
}

proof fn lemma_stack_visits_children(
    tree: spec_fn(Seq<char>) -> Seq<Seq<char>>,
    start: Seq<ItemModel>,
    p: Seq<char>,
    d: u32,
    kids: Seq<Seq<char>>,
)
    ensures
        stack_visits(tree, start + child_visits(p, d, kids)) == traversal_of_children(
            tree,
            p,
            kids,
            d as nat,
        ) + stack_visits(tree, start),
    decreases kids.len(),
{
    if kids.len() == 0 {
        assert(start + child_visits(p, d, kids) =~= start);
    } else {
        let rest = kids.drop_first();
        lemma_stack_visits_children(tree, start, p, d, rest);
        let v = ItemModel::Visit(child_path(p, kids[0]), d);
        let all = start + child_visits(p, d, kids);
        assert(all =~= (start + child_visits(p, d, rest)).push(v));
        assert(all.last() == v);
        assert(all.drop_last() =~= start + child_visits(p, d, rest));
        assert(stack_visits(tree, all) == item_visits(tree, v) + stack_visits(
            tree,
            start + child_visits(p, d, rest),
        ));
        assert(stack_visits(tree, all) =~= traversal_of_children(tree, p, kids, d as nat)
            + stack_visits(tree, start));
    }
}

/// A new walk has the whole traversal ahead of it.
pub proof fn lemma_walk_starts_with_traversal(
    tree: spec_fn(Seq<char>) -> Seq<Seq<char>>,
    base: Seq<char>,
    depth: u32,
)
    ensures
        remaining_visits(
            tree,
            if depth > 0 {
                seq![ItemModel::List(base, depth)]
            } else {
                Seq::empty()
            },
            None,
        ) == traversal(tree, base, depth as nat),
{
    if depth > 0 {
        let items = seq![ItemModel::List(base, depth)];
        assert(items.drop_last() =~= Seq::<ItemModel>::empty());
        assert(items.last() == ItemModel::List(base, depth));
        assert(stack_visits(tree, items.drop_last()) =~= Seq::<Seq<char>>::empty());
        assert(stack_visits(tree, items) =~= traversal(tree, base, depth as nat));
    }
}

/// Taking a listing off the stack changes nothing of what is left to visit.
pub proof fn lemma_walk_list_step(tree: spec_fn(Seq<char>) -> Seq<Seq<char>>, pending: Seq<ItemModel>)
    requires
        pending.len() > 0,
        pending.last() matches ItemModel::List(_, _),
    ensures
        match pending.last() {
            ItemModel::List(p, d) => remaining_visits(tree, pending, None) == remaining_visits(
                tree,
                pending.drop_last(),
                Some((p, d)),
            ),
            _ => true,
        },
{
}

/// A visit is the next key of what is left to visit; the listing it
/// schedules stands for the rest of its subtree.
pub proof fn lemma_walk_visit_step(tree: spec_fn(Seq<char>) -> Seq<Seq<char>>, pending: Seq<ItemModel>)
    requires
        pending.len() > 0,
        pending.last() matches ItemModel::Visit(_, _),
    ensures
        match pending.last() {
            ItemModel::Visit(p, d) => remaining_visits(tree, pending, None) == seq![p]
                + remaining_visits(
                tree,
                if d > 1 {
                    pending.drop_last().push(ItemModel::List(p, (d - 1) as u32))
                } else {
                    pending.drop_last()
                },
                None,
            ),
            _ => true,
        },
{
    match pending.last() {
        ItemModel::Visit(p, d) => {
            let rest = pending.drop_last();
            if d > 1 {
                let after = rest.push(ItemModel::List(p, (d - 1) as u32));
                assert(after.drop_last() =~= rest);
                assert(remaining_visits(tree, pending, None) =~= seq![p] + remaining_visits(
                    tree,
                    after,
                    None,
                ));
            } else {
                assert(remaining_visits(tree, pending, None) =~= seq![p] + remaining_visits(
                    tree,
                    rest,
                    None,
                ));
            }
        },
        _ => {},
    }
}

/// Reporting the true subkeys of the awaited key changes nothing of what is
/// left to visit.
pub proof fn lemma_walk_children_step(
    tree: spec_fn(Seq<char>) -> Seq<Seq<char>>,
    pending: Seq<ItemModel>,
    p: Seq<char>,
    d: u32,
)
    requires
        d >= 1,
    ensures
        remaining_visits(tree, pending + child_visits(p, d, tree(p)), None) == remaining_visits(
            tree,
            pending,
            Some((p, d)),
        ),
{
    lemma_stack_visits_children(tree, pending, p, d, tree(p));
}

/// A walk with nothing pending and nothing awaited has nothing left to visit.
pub proof fn lemma_walk_done(tree: spec_fn(Seq<char>) -> Seq<Seq<char>>)
    ensures
        remaining_visits(tree, Seq::empty(), None) == Seq::<Seq<char>>::empty(),
{
}

// ---------------------------------------------------------------------------
// Directory tree walk
// ---------------------------------------------------------------------------

/// What an entry of a directory is, as its own metadata says (links are not
/// followed).
#[derive(PartialEq, Eq, Structural, Clone, Copy, Debug)]
pub enum EntryKind {
    Directory,
    File,
    Other,
}

/// A walk over a directory tree: directories still to read are kept on a
/// stack, files are counted with their sizes and, on request, collected.
pub struct DirectoryWalk {
    pending: Vec<String>,
    files: u64,
    size: u64,
    keep_paths: bool,
    found: Vec<String>,
}

impl DirectoryWalk {
    /// The directories still to read; the last one is read next.
    pub closed spec fn pending_directories(&self) -> Seq<Seq<char>> {
        self.pending.deep_view()
    }

    pub closed spec fn file_count(&self) -> u64 {
        self.files
    }

    pub closed spec fn total_size(&self) -> u64 {
        self.size
    }

    pub closed spec fn keeps_paths(&self) -> bool {
        self.keep_paths
    }

    /// The files found so far, in the order they were found (empty unless
    /// paths are kept).
    pub closed spec fn found_files(&self) -> Seq<Seq<char>> {
        self.found.deep_view()
    }

    /// A walk of the tree under `root`; `keep_paths` asks for the files' paths.
    pub fn new(root: &str, keep_paths: bool) -> (w: Self)
        ensures
            w.pending_directories() == seq![root@],
            w.file_count() == 0,
            w.total_size() == 0,
            w.keeps_paths() == keep_paths,
            w.found_files() == Seq::<Seq<char>>::empty(),
    {
        let mut pending: Vec<String> = Vec::new();
        pending.push(root.to_string());
        let w = DirectoryWalk { pending, files: 0, size: 0, keep_paths, found: Vec::new() };
        assert(w.pending_directories() =~= seq![root@]);
        assert(w.found_files() =~= Seq::<Seq<char>>::empty());
        w
    }

    /// The next directory to read, taken off the stack; `None` when the walk
    /// is over.
    pub fn next_directory(&mut self) -> (d: Option<String>)
        ensures
            old(self).pending_directories().len() == 0 ==> d is None
                && final(self).pending_directories() == old(self).pending_directories(),
            old(self).pending_directories().len() > 0 ==> (d matches Some(p) && p@ == old(
                self).pending_directories().last()),
            old(self).pending_directories().len() > 0 ==> final(self).pending_directories() == old(
                self).pending_directories().drop_last(),
            final(self).file_count() == old(self).file_count(),
            final(self).total_size() == old(self).total_size(),
            final(self).keeps_paths() == old(self).keeps_paths(),
            final(self).found_files() == old(self).found_files(),
    {
        let ghost before = self.pending.deep_view();
        let d = self.pending.pop();
        assert(before.len() > 0 ==> self.pending.deep_view() =~= before.drop_last());
        d
    }

    /// Whether one more file of `len` bytes can be counted without overflow.
    pub open spec fn can_count(&self, len: u64) -> bool {
        self.file_count() < u64::MAX && self.total_size() + len <= u64::MAX
    }

    /// Reports an entry of the directory being read: a directory is read
    /// later, a file is counted (and its path kept when asked), anything else
    /// is ignored.
    pub fn entry_found(&mut self, path: String, kind: EntryKind, len: u64)
        requires
            kind == EntryKind::File ==> old(self).can_count(len),
        ensures
            final(self).keeps_paths() == old(self).keeps_paths(),
            kind == EntryKind::Directory ==> final(self).pending_directories() == old(self).pending_directories().push(path@) && final(self).file_count() == old(self).file_count() && final(self).total_size() == old(self).total_size()
                && final(self).found_files() == old(self).found_files(),
            kind == EntryKind::File ==> final(self).pending_directories() == old(self).pending_directories() && final(self).file_count() == old(self).file_count() + 1
                && final(self).total_size() == old(self).total_size() + len && final(self).found_files() == (if old(self).keeps_paths() {
                old(self).found_files().push(path@)
            } else {
                old(self).found_files()
            }),
            kind == EntryKind::Other ==> *final(self) == *old(self),
    {
        match kind {
            EntryKind::Directory => {
                let ghost before = self.pending.deep_view();
                self.pending.push(path);
                assert(self.pending.deep_view() =~= before.push(path@));
            },
            EntryKind::File => {
                self.files = self.files + 1;
                self.size = self.size + len;
                if self.keep_paths {
                    let ghost before = self.found.deep_view();
                    self.found.push(path);
                    assert(self.found.deep_view() =~= before.push(path@));
                }
            },
            EntryKind::Other => {},
        }
    }

    /// `(total size, file count)` so far.
    pub fn totals(&self) -> (r: (u64, u64))
        ensures
            r == (self.total_size(), self.file_count()),
    {
        (self.size, self.files)
    }

    /// The files found, in the order they were found.
    pub fn into_files(self) -> (r: Vec<String>)
        ensures
            r.deep_view() == self.found_files(),
    {
        self.found
    }
}

// ---------------------------------------------------------------------------
// What a directory walk covers
// ---------------------------------------------------------------------------

/// The directories among `entries` (full path, kind, length), in order.
pub open spec fn entry_dirs(entries: Seq<(Seq<char>, EntryKind, u64)>) -> Seq<Seq<char>>
    decreases entries.len(),
{
    if entries.len() == 0 {
        Seq::empty()
    } else if entries.last().1 == EntryKind::Directory {
        entry_dirs(entries.drop_last()).push(entries.last().0)
    } else {
        entry_dirs(entries.drop_last())
    }
}

/// The regular files among `entries`, with their lengths, in order.
pub open spec fn entry_files(entries: Seq<(Seq<char>, EntryKind, u64)>) -> Seq<(Seq<char>, u64)>
    decreases entries.len(),
{
    if entries.len() == 0 {
        Seq::empty()
    } else if entries.last().1 == EntryKind::File {
        entry_files(entries.drop_last()).push((entries.last().0, entries.last().2))
    } else {
        entry_files(entries.drop_last())
    }
}

/// The total length of `files`.
pub open spec fn sizes(files: Seq<(Seq<char>, u64)>) -> int
    decreases files.len(),
{
    if files.len() == 0 {
        0
    } else {
        sizes(files.drop_last()) + files.last().1
    }
}

/// The paths of `files`.
pub open spec fn paths(files: Seq<(Seq<char>, u64)>) -> Seq<Seq<char>> {
    files.map_values(|f: (Seq<char>, u64)| f.0)
}

/// Whether the tree under `d` (`tree` gives the entries of each directory)
/// is at most `h` levels deep, `d` itself being the first.
pub open spec fn within(tree: spec_fn(Seq<char>) -> Seq<(Seq<char>, EntryKind, u64)>, d: Seq<char>, h: nat) -> bool
    decreases h,
{
    if h == 0 {
        false
    } else {
        forall|i: int|
            0 <= i < entry_dirs(tree(d)).len() ==> within(tree, #[trigger] entry_dirs(tree(d))[i], (h - 1) as nat)
    }
}

/// The directories a walk reads, starting from the stack `pending`
/// (its last directory first), looking at most `h` levels down from each.
pub open spec fn pending_reads(
    tree: spec_fn(Seq<char>) -> Seq<(Seq<char>, EntryKind, u64)>,
    pending: Seq<Seq<char>>,
    h: nat,
) -> Seq<Seq<char>>
    decreases h, pending.len(),
{
    if pending.len() == 0 {
        Seq::empty()
    } else {
        directory_reads(tree, pending.last(), h) + pending_reads(tree, pending.drop_last(), h)
    }
}

/// The directories a walk of `d` reads: `d`, then its subdirectories' trees,
/// the last listed first.
pub open spec fn directory_reads(
    tree: spec_fn(Seq<char>) -> Seq<(Seq<char>, EntryKind, u64)>,
    d: Seq<char>,
    h: nat,
) -> Seq<Seq<char>>
    decreases h, 0nat,
{
    if h == 0 {
        Seq::empty()
    } else {
        seq![d] + pending_reads(tree, entry_dirs(tree(d)), (h - 1) as nat)
    }
}

/// The regular files a walk counts, starting from the stack `pending`, in
/// the order it counts them.
pub open spec fn pending_files(
    tree: spec_fn(Seq<char>) -> Seq<(Seq<char>, EntryKind, u64)>,
    pending: Seq<Seq<char>>,
    h: nat,
) -> Seq<(Seq<char>, u64)>
    decreases h, pending.len(),
{
    if pending.len() == 0 {
        Seq::empty()
    } else {
        directory_files(tree, pending.last(), h) + pending_files(tree, pending.drop_last(), h)
    }
}

/// The regular files a walk of `d` counts: those listed in `d`, then those
/// of its subdirectories' trees, the last listed first.
pub open spec fn directory_files(
    tree: spec_fn(Seq<char>) -> Seq<(Seq<char>, EntryKind, u64)>,
    d: Seq<char>,
    h: nat,
) -> Seq<(Seq<char>, u64)>
    decreases h, 0nat,
{
    if h == 0 {
        Seq::empty()
    } else {
        entry_files(tree(d)) + pending_files(tree, entry_dirs(tree(d)), (h - 1) as nat)
    }
}

proof fn lemma_pending_concat(
    tree: spec_fn(Seq<char>) -> Seq<(Seq<char>, EntryKind, u64)>,
    a: Seq<Seq<char>>,
    b: Seq<Seq<char>>,
    h: nat,
)
    ensures
        pending_reads(tree, a + b, h) == pending_reads(tree, b, h) + pending_reads(tree, a, h),
        pending_files(tree, a + b, h) == pending_files(tree, b, h) + pending_files(tree, a, h),
    decreases b.len(),
{
    if b.len() == 0 {
        assert(a + b =~= a);
        assert(pending_reads(tree, b, h) + pending_reads(tree, a, h) =~= pending_reads(tree, a, h));
        assert(pending_files(tree, b, h) + pending_files(tree, a, h) =~= pending_files(tree, a, h));
    } else {
        let ab = a + b;
        assert(ab.last() == b.last());
        assert(ab.drop_last() =~= a + b.drop_last());
        lemma_pending_concat(tree, a, b.drop_last(), h);
        assert(pending_reads(tree, a + b, h) =~= pending_reads(tree, b, h) + pending_reads(tree, a, h));
        assert(pending_files(tree, a + b, h) =~= pending_files(tree, b, h) + pending_files(tree, a, h));
    }
}

proof fn lemma_within_mono(
    tree: spec_fn(Seq<char>) -> Seq<(Seq<char>, EntryKind, u64)>,
    d: Seq<char>,
    h: nat,
    h2: nat,
)
    requires
        within(tree, d, h),
        h <= h2,
    ensures
        within(tree, d, h2),
    decreases h,
{
    let ds = entry_dirs(tree(d));
    assert forall|i: int| 0 <= i < ds.len() implies within(tree, #[trigger] ds[i], (h2 - 1) as nat) by {
        lemma_within_mono(tree, ds[i], (h - 1) as nat, (h2 - 1) as nat);
    }
}

proof fn lemma_directory_stable(
    tree: spec_fn(Seq<char>) -> Seq<(Seq<char>, EntryKind, u64)>,
    d: Seq<char>,
    h: nat,
    h2: nat,
)
    requires
        within(tree, d, h),
        h <= h2,
    ensures
        directory_reads(tree, d, h) == directory_reads(tree, d, h2),
        directory_files(tree, d, h) == directory_files(tree, d, h2),
    decreases h, 0nat,
{
    lemma_pending_stable(tree, entry_dirs(tree(d)), (h - 1) as nat, (h2 - 1) as nat);
}

proof fn lemma_pending_stable(
    tree: spec_fn(Seq<char>) -> Seq<(Seq<char>, EntryKind, u64)>,
    pending: Seq<Seq<char>>,
    h: nat,
    h2: nat,
)
    requires
        forall|i: int| 0 <= i < pending.len() ==> within(tree, #[trigger] pending[i], h),
        h <= h2,
    ensures
        pending_reads(tree, pending, h) == pending_reads(tree, pending, h2),
        pending_files(tree, pending, h) == pending_files(tree, pending, h2),
    decreases h, pending.len(),
{
    if pending.len() > 0 {
        assert(within(tree, pending[pending.len() - 1], h));
        lemma_directory_stable(tree, pending.last(), h, h2);
        lemma_pending_stable(tree, pending.drop_last(), h, h2);
    }
}

proof fn lemma_sizes_concat(a: Seq<(Seq<char>, u64)>, b: Seq<(Seq<char>, u64)>)
    ensures
        sizes(a + b) == sizes(a) + sizes(b),
    decreases b.len(),
{
    if b.len() == 0 {
        assert(a + b =~= a);
    } else {
        assert((a + b).drop_last() =~= a + b.drop_last());
        lemma_sizes_concat(a, b.drop_last());
    }
}

proof fn lemma_paths_concat(a: Seq<(Seq<char>, u64)>, b: Seq<(Seq<char>, u64)>)
    ensures
        paths(a + b) == paths(a) + paths(b),
{
    assert(paths(a + b) =~= paths(a) + paths(b));
}

/// Reading the directory `d` on top of the stack `pending` and stacking its
/// subdirectories leaves exactly the rest of the walk: `d` is read now and
/// never again, its files are counted now, and everything else is still to
/// come, once.
pub proof fn lemma_directory_read_step(
    tree: spec_fn(Seq<char>) -> Seq<(Seq<char>, EntryKind, u64)>,
    pending: Seq<Seq<char>>,
    d: Seq<char>,
    h: nat,
)
    requires
        within(tree, d, h),
    ensures
        pending_reads(tree, pending.push(d), h) == seq![d] + pending_reads(
            tree,
            pending + entry_dirs(tree(d)),
            h,
        ),
        pending_files(tree, pending.push(d), h) == entry_files(tree(d)) + pending_files(
            tree,
            pending + entry_dirs(tree(d)),
            h,
        ),
        forall|i: int|
            0 <= i < entry_dirs(tree(d)).len() ==> within(tree, #[trigger] entry_dirs(tree(d))[i], h),
{
    let ds = entry_dirs(tree(d));
    let p = pending.push(d);
    assert(p.last() == d);
    assert(p.drop_last() =~= pending);
    assert forall|i: int| 0 <= i < ds.len() implies within(tree, #[trigger] ds[i], h) by {
        lemma_within_mono(tree, ds[i], (h - 1) as nat, h);
    }
    lemma_pending_stable(tree, ds, (h - 1) as nat, h);
    lemma_pending_concat(tree, pending, ds, h);
    assert(h > 0);
    assert(pending_reads(tree, p, h) == directory_reads(tree, d, h) + pending_reads(tree, pending, h));
    assert(pending_files(tree, p, h) == directory_files(tree, d, h) + pending_files(tree, pending, h));
    assert(directory_reads(tree, d, h) == seq![d] + pending_reads(tree, ds, (h - 1) as nat));
    assert(directory_files(tree, d, h) == entry_files(tree(d)) + pending_files(tree, ds, (h - 1) as nat));
    assert(pending_reads(tree, p, h) =~= seq![d] + pending_reads(tree, pending + ds, h));
    assert(pending_files(tree, p, h) =~= entry_files(tree(d)) + pending_files(tree, pending + ds, h));
}

impl DirectoryWalk {
    /// What the walk has counted, together with what its stack still holds,
    /// is exactly the tree under `root` (at most `h` levels deep): the
    /// files counted and still to count make up its files, once each.
    pub open spec fn accounts_for(
        &self,
        tree: spec_fn(Seq<char>) -> Seq<(Seq<char>, EntryKind, u64)>,
        root: Seq<char>,
        h: nat,
    ) -> bool {
        let rest = pending_files(tree, self.pending_directories(), h);
        let all = directory_files(tree, root, h);
        &&& forall|i: int|
            0 <= i < self.pending_directories().len() ==> within(
                tree,
                #[trigger] self.pending_directories()[i],
                h,
            )
        &&& self.file_count() + rest.len() == all.len()
        &&& self.total_size() + sizes(rest) == sizes(all)
        &&& self.keeps_paths() ==> self.found_files() + paths(rest) == paths(all)
    }
}

/// A new walk of `root` accounts for the whole tree under it, and has all
/// of its directories still to read.
pub proof fn law_directory_walk_start(
    w: DirectoryWalk,
    tree: spec_fn(Seq<char>) -> Seq<(Seq<char>, EntryKind, u64)>,
    root: Seq<char>,
    h: nat,
)
    requires
        within(tree, root, h),
        w.pending_directories() == seq![root],
        w.file_count() == 0,
        w.total_size() == 0,
        w.found_files() == Seq::<Seq<char>>::empty(),
    ensures
        w.accounts_for(tree, root, h),
        pending_reads(tree, w.pending_directories(), h) == directory_reads(tree, root, h),
{
    let p = w.pending_directories();
    assert(p.drop_last() =~= Seq::<Seq<char>>::empty());
    assert(p[0] == root);
    assert(p.last() == root);
    assert(pending_files(tree, p.drop_last(), h) == Seq::<(Seq<char>, u64)>::empty());
    assert(pending_reads(tree, p.drop_last(), h) == Seq::<Seq<char>>::empty());
    assert(pending_files(tree, p, h) == directory_files(tree, root, h) + pending_files(tree, p.drop_last(), h));
    assert(pending_reads(tree, p, h) == directory_reads(tree, root, h) + pending_reads(tree, p.drop_last(), h));
    assert(pending_files(tree, p, h) =~= directory_files(tree, root, h));
    assert(pending_reads(tree, p, h) =~= directory_reads(tree, root, h));
    assert(w.found_files() + paths(directory_files(tree, root, h)) =~= paths(directory_files(tree, root, h)));
}

/// Taking the directory `d` off the stack and reporting its entries (as
/// `next_directory` and `entry_found` do: subdirectories stacked, regular
/// files counted) keeps the walk accounting for the tree; `d` was the next
/// directory to read, and the ones left to read are all the others.
pub proof fn law_directory_walk_read(
    w1: DirectoryWalk,
    w2: DirectoryWalk,
    tree: spec_fn(Seq<char>) -> Seq<(Seq<char>, EntryKind, u64)>,
    root: Seq<char>,
    h: nat,
)
    requires
        w1.accounts_for(tree, root, h),
        w1.pending_directories().len() > 0,
        w2.pending_directories() == w1.pending_directories().drop_last() + entry_dirs(
            tree(w1.pending_directories().last()),
        ),
        w2.file_count() == w1.file_count() + entry_files(tree(w1.pending_directories().last())).len(),
        w2.total_size() == w1.total_size() + sizes(entry_files(tree(w1.pending_directories().last()))),
        w2.keeps_paths() == w1.keeps_paths(),
        w2.found_files() == (if w1.keeps_paths() {
            w1.found_files() + paths(entry_files(tree(w1.pending_directories().last())))
        } else {
            w1.found_files()
        }),
    ensures
        w2.accounts_for(tree, root, h),
        pending_reads(tree, w1.pending_directories(), h) == seq![w1.pending_directories().last()]
            + pending_reads(tree, w2.pending_directories(), h),
{
    let p1 = w1.pending_directories();
    let d = p1.last();
    let rest = p1.drop_last();
    assert(rest.push(d) =~= p1);
    assert(within(tree, p1[p1.len() - 1], h));
    lemma_directory_read_step(tree, rest, d, h);
    let ef = entry_files(tree(d));
    let r2 = pending_files(tree, w2.pending_directories(), h);
    lemma_sizes_concat(ef, r2);
    lemma_paths_concat(ef, r2);
    let ds = entry_dirs(tree(d));
    let p2 = w2.pending_directories();
    assert forall|i: int| 0 <= i < p2.len() implies within(tree, #[trigger] p2[i], h) by {
        if i < rest.len() {
            assert(p2[i] == p1[i]);
        } else {
            assert(p2[i] == ds[i - rest.len()]);
        }
    }
    if w1.keeps_paths() {
        assert(w2.found_files() + paths(r2) =~= w1.found_files() + (paths(ef) + paths(r2)));
    }
}

/// A walk with nothing left on its stack has counted every regular file of
/// the tree once: its count, total size and kept paths are the tree's.
pub proof fn law_directory_walk_done(
    w: DirectoryWalk,
    tree: spec_fn(Seq<char>) -> Seq<(Seq<char>, EntryKind, u64)>,
    root: Seq<char>,
    h: nat,
)
    requires
        w.accounts_for(tree, root, h),
        w.pending_directories().len() == 0,
    ensures
        w.file_count() == directory_files(tree, root, h).len(),
        w.total_size() == sizes(directory_files(tree, root, h)),
        w.keeps_paths() ==> w.found_files() == paths(directory_files(tree, root, h)),
        pending_reads(tree, w.pending_directories(), h) == Seq::<Seq<char>>::empty(),
{
    let e: Seq<(Seq<char>, u64)> = Seq::empty();
    assert(pending_files(tree, w.pending_directories(), h) == e);
    assert(paths(e) =~= Seq::<Seq<char>>::empty());
    assert(w.found_files() + paths(e) =~= w.found_files());
}

} // verus!

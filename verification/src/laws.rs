//! General properties of the traversal, stated and proved over the
//! specification functions of [`crate::scan`].

use vstd::prelude::*;

use crate::policy::ScanPolicy;
use crate::scan::{
    child_item, is_hidden_name, items_wf, lemma_scan_items_wf, own_item, paths_of, reparented,
    scan_entry, scan_items, scan_paths, ScanItem,
};
use crate::tree::{
    count_entry, count_from, entry_leads_to, path_reachable, EntryKind, FsEntry, FsNode,
};

verus! {

/// The policy with `include_files` disabled and everything else kept.
pub open spec fn without_files(p: ScanPolicy) -> ScanPolicy {
    ScanPolicy { include_files: false, ..p }
}

/// The policy with `recursive` disabled and everything else kept.
pub open spec fn without_recursion(p: ScanPolicy) -> ScanPolicy {
    ScanPolicy { recursive: false, ..p }
}

/// An item admitted as a plain file: kind `File` and a non-hidden name.
pub open spec fn plain_file_item(it: ScanItem) -> bool {
    it.kind is File && !is_hidden_name(it.segments.last())
}

/// Keeps everything but plain-file items.
pub open spec fn not_plain_file() -> spec_fn(ScanItem) -> bool {
    |it: ScanItem| !plain_file_item(it)
}

/// Keeps the items found directly in the scanned directory.
pub open spec fn top_level() -> spec_fn(ScanItem) -> bool {
    |it: ScanItem| it.segments.len() == 1
}

proof fn lemma_filter_singleton<A>(x: A, pred: spec_fn(A) -> bool)
    ensures
        seq![x].filter(pred) == (if pred(x) {
            seq![x]
        } else {
            Seq::<A>::empty()
        }),
{
    reveal(Seq::filter);
    let s = seq![x];
    assert(s.drop_last() =~= Seq::<A>::empty());
    assert(Seq::<A>::empty().filter(pred) == Seq::<A>::empty());
    assert(Seq::<A>::empty().push(x) =~= seq![x]);
}

proof fn lemma_filter_none<A>(s: Seq<A>, pred: spec_fn(A) -> bool)
    requires
        forall|k: int| 0 <= k < s.len() ==> !pred(#[trigger] s[k]),
    ensures
        s.filter(pred) == Seq::<A>::empty(),
    decreases s.len(),
{
    reveal(Seq::filter);
    if s.len() == 0 {
        assert(s.filter(pred) =~= Seq::<A>::empty());
    } else {
        assert(forall|k: int|
            0 <= k < s.drop_last().len() ==> !pred(#[trigger] s.drop_last()[k]));
        lemma_filter_none(s.drop_last(), pred);
        assert(!pred(s.last()));
    }
}

proof fn lemma_reparented_add(n: Seq<char>, a: Seq<ScanItem>, b: Seq<ScanItem>)
    ensures
        reparented(n, a + b) == reparented(n, a) + reparented(n, b),
{
    assert(reparented(n, a + b) =~= reparented(n, a) + reparented(n, b));
}

/// Reparenting commutes with dropping plain-file items: whether an item is a
/// plain file depends on its kind and its last segment, and both survive
/// reparenting.
proof fn lemma_reparented_not_plain_file(n: Seq<char>, items: Seq<ScanItem>)
    requires
        items_wf(items),
    ensures
        reparented(n, items.filter(not_plain_file())) == reparented(n, items).filter(
            not_plain_file(),
        ),
    decreases items.len(),
{
    reveal(Seq::filter);
    let pred = not_plain_file();
    if items.len() == 0 {
        assert(items.filter(pred) =~= Seq::<ScanItem>::empty());
        assert(reparented(n, items) =~= Seq::<ScanItem>::empty());
        assert(reparented(n, items.filter(pred)) =~= Seq::<ScanItem>::empty());
        assert(Seq::<ScanItem>::empty().filter(pred) == Seq::<ScanItem>::empty());
    } else {
        let a = items.drop_last();
        let x = items.last();
        assert(items =~= a + seq![x]);
        assert(forall|k: int| 0 <= k < a.len() ==> (#[trigger] a[k]) == items[k]);
        lemma_reparented_not_plain_file(n, a);
        let cx = child_item(n, x);
        assert((seq![n] + x.segments).last() == x.segments.last());
        assert(plain_file_item(cx) == plain_file_item(x));
        lemma_filter_singleton(x, pred);
        lemma_filter_singleton(cx, pred);
        assert(reparented(n, seq![x]) =~= seq![cx]);
        if pred(x) {
            assert(reparented(n, seq![x].filter(pred)) =~= seq![cx]);
        } else {
            assert(reparented(n, seq![x].filter(pred)) =~= Seq::<ScanItem>::empty());
        }
        lemma_reparented_add(n, a, seq![x]);
        lemma_reparented_add(n, a.filter(pred), seq![x].filter(pred));
        assert((a + seq![x]).filter(pred) == a.filter(pred) + seq![x].filter(pred));
        assert((reparented(n, a) + seq![cx]).filter(pred) == reparented(n, a).filter(pred)
            + seq![cx].filter(pred));
        assert(items.filter(pred) == a.filter(pred) + seq![x].filter(pred));
        assert(reparented(n, items.filter(pred)) == reparented(n, a.filter(pred)) + reparented(
            n,
            seq![x].filter(pred),
        ));
        assert(reparented(n, items).filter(pred) == (reparented(n, a) + seq![cx]).filter(pred));
    }
}

proof fn lemma_without_files_entry(p: ScanPolicy, e: FsEntry)
    ensures
        scan_entry(without_files(p), e) == scan_entry(p, e).filter(not_plain_file()),
    decreases e, 0int, 0int,
{
    reveal(Seq::filter);
    let q = without_files(p);
    let pred = not_plain_file();
    match e.node {
        FsNode::Directory(children) => {
            if is_hidden_name(e.name@) && !p.include_dotfiles {
                assert(Seq::<ScanItem>::empty().filter(pred) == Seq::<ScanItem>::empty());
            } else {
                let own: Seq<ScanItem> = if p.include_directories {
                    seq![own_item(e.name@, EntryKind::Directory)]
                } else {
                    Seq::empty()
                };
                let nested: Seq<ScanItem> = if p.recursive {
                    reparented(e.name@, scan_items(p, children, 0))
                } else {
                    Seq::empty()
                };
                lemma_without_files_items(p, children, 0);
                lemma_scan_items_wf(p, children, 0);
                lemma_reparented_not_plain_file(e.name@, scan_items(p, children, 0));
                if p.include_directories {
                    lemma_filter_singleton(own_item(e.name@, EntryKind::Directory), pred);
                } else {
                    assert(own.filter(pred) == Seq::<ScanItem>::empty());
                }
                assert(own.filter(pred) == own);
                assert((own + nested).filter(pred) == own.filter(pred) + nested.filter(pred));
                assert(scan_entry(q, e) == own + nested.filter(pred));
            }
        },
        _ => {
            if leaf_admitted(p, e) {
                let it = own_item(e.name@, e.node.kind());
                lemma_filter_singleton(it, pred);
                if !pred(it) {
                    // A plain file admitted under `p`: dropped under `q`.
                    assert(scan_entry(q, e) =~= Seq::<ScanItem>::empty());
                } else {
                    // Admitted for a reason `include_files` does not govern.
                    assert(scan_entry(q, e) == seq![it]);
                }
            } else {
                assert(Seq::<ScanItem>::empty().filter(pred) == Seq::<ScanItem>::empty());
            }
        },
    }
}

/// Whether [`crate::scan::leaf_included`] admits the non-directory entry.
spec fn leaf_admitted(p: ScanPolicy, e: FsEntry) -> bool {
    crate::scan::leaf_included(p, e.node.kind(), e.name@)
}

/// Disabling `include_files` removes exactly the plain-file, non-hidden
/// items from the listing; every other item keeps its relative position.
pub proof fn lemma_without_files_items(p: ScanPolicy, entries: Vec<FsEntry>, i: int)
    ensures
        scan_items(without_files(p), entries, i) == scan_items(p, entries, i).filter(
            not_plain_file(),
        ),
    decreases entries, entries.len() - i, 1int,
{
    reveal(Seq::filter);
    let pred = not_plain_file();
    if i < 0 || i >= entries.len() {
        assert(Seq::<ScanItem>::empty().filter(pred) == Seq::<ScanItem>::empty());
    } else {
        lemma_without_files_entry(p, entries[i]);
        lemma_without_files_items(p, entries, i + 1);
        assert((scan_entry(p, entries[i]) + scan_items(p, entries, i + 1)).filter(pred)
            == scan_entry(p, entries[i]).filter(pred) + scan_items(p, entries, i + 1).filter(
            pred,
        ));
    }
}

proof fn lemma_without_recursion_entry(p: ScanPolicy, e: FsEntry)
    ensures
        scan_entry(without_recursion(p), e) == scan_entry(p, e).filter(top_level()),
{
    reveal(Seq::filter);
    let q = without_recursion(p);
    let pred = top_level();
    match e.node {
        FsNode::Directory(children) => {
            if is_hidden_name(e.name@) && !p.include_dotfiles {
                assert(Seq::<ScanItem>::empty().filter(pred) == Seq::<ScanItem>::empty());
            } else {
                let own: Seq<ScanItem> = if p.include_directories {
                    seq![own_item(e.name@, EntryKind::Directory)]
                } else {
                    Seq::empty()
                };
                let nested: Seq<ScanItem> = if p.recursive {
                    reparented(e.name@, scan_items(p, children, 0))
                } else {
                    Seq::empty()
                };
                if p.include_directories {
                    lemma_filter_singleton(own_item(e.name@, EntryKind::Directory), pred);
                } else {
                    assert(own.filter(pred) == Seq::<ScanItem>::empty());
                }
                assert(own.filter(pred) == own);
                lemma_scan_items_wf(p, children, 0);
                assert forall|k: int| 0 <= k < nested.len() implies !pred(
                    #[trigger] nested[k],
                ) by {
                    if p.recursive {
                        assert(nested[k] == child_item(e.name@, scan_items(p, children, 0)[k]));
                    }
                }
                lemma_filter_none(nested, pred);
                assert((own + nested).filter(pred) == own.filter(pred) + nested.filter(pred));
                assert(scan_entry(q, e) == own);
                assert(own + Seq::<ScanItem>::empty() =~= own);
            }
        },
        _ => {
            if leaf_admitted(p, e) {
                let it = own_item(e.name@, e.node.kind());
                lemma_filter_singleton(it, pred);
                assert(pred(it));
            } else {
                assert(Seq::<ScanItem>::empty().filter(pred) == Seq::<ScanItem>::empty());
            }
        },
    }
}

/// Disabling `recursive` yields exactly the depth-one slice of the listing,
/// under the same inclusion flags: the items whose path is a single
/// segment, in unchanged relative order, and nothing nested remains.
pub proof fn lemma_without_recursion_items(p: ScanPolicy, entries: Vec<FsEntry>, i: int)
    ensures
        scan_items(without_recursion(p), entries, i) == scan_items(p, entries, i).filter(
            top_level(),
        ),
        forall|k: int|
            0 <= k < scan_items(without_recursion(p), entries, i).len() ==> (#[trigger] scan_items(
                without_recursion(p),
                entries,
                i,
            )[k]).segments.len() == 1,
    decreases entries.len() - i,
{
    reveal(Seq::filter);
    let q = without_recursion(p);
    let pred = top_level();
    if i < 0 || i >= entries.len() {
        assert(Seq::<ScanItem>::empty().filter(pred) == Seq::<ScanItem>::empty());
    } else {
        lemma_without_recursion_entry(p, entries[i]);
        lemma_without_recursion_items(p, entries, i + 1);
        assert((scan_entry(p, entries[i]) + scan_items(p, entries, i + 1)).filter(pred)
            == scan_entry(p, entries[i]).filter(pred) + scan_items(p, entries, i + 1).filter(
            pred,
        ));
        assert forall|k: int| 0 <= k < scan_items(q, entries, i).len() implies (
        #[trigger] scan_items(q, entries, i)[k]).segments.len() == 1 by {
            assert(scan_items(q, entries, i)[k] == scan_items(p, entries, i).filter(pred)[k]);
        }
    }
}

proof fn lemma_same_flags_entry(p1: ScanPolicy, p2: ScanPolicy, e: FsEntry)
    requires
        p1.same_flags(p2),
    ensures
        scan_entry(p1, e) == scan_entry(p2, e),
    decreases e, 0int, 0int,
{
    match e.node {
        FsNode::Directory(children) => {
            lemma_same_flags_items(p1, p2, children, 0);
        },
        _ => {},
    }
}

/// Which items a listing selects, and in what order, depends on the five
/// flags alone, never on the separator: two policies that agree on the
/// flags select the same items, and their listings differ only in the token
/// joining the segments of nested names.
pub proof fn lemma_separator_only_joins(p1: ScanPolicy, p2: ScanPolicy, entries: Vec<FsEntry>, i: int)
    requires
        p1.same_flags(p2),
    ensures
        scan_items(p1, entries, i) == scan_items(p2, entries, i),
        scan_paths(p1, entries) == paths_of(p1.separator@, scan_items(p1, entries, 0)),
        scan_paths(p2, entries) == paths_of(p2.separator@, scan_items(p1, entries, 0)),
{
    lemma_same_flags_items(p1, p2, entries, i);
    lemma_same_flags_items(p1, p2, entries, 0);
}

proof fn lemma_same_flags_items(p1: ScanPolicy, p2: ScanPolicy, entries: Vec<FsEntry>, i: int)
    requires
        p1.same_flags(p2),
    ensures
        scan_items(p1, entries, i) == scan_items(p2, entries, i),
    decreases entries, entries.len() - i, 1int,
{
    if 0 <= i < entries.len() {
        lemma_same_flags_entry(p1, p2, entries[i]);
        lemma_same_flags_items(p1, p2, entries, i + 1);
    }
}

proof fn lemma_full_inclusion_entry_count(p: ScanPolicy, e: FsEntry)
    requires
        p.full_inclusion(),
    ensures
        scan_entry(p, e).len() == count_entry(e),
    decreases e, 0int, 0int,
{
    match e.node {
        FsNode::Directory(children) => {
            lemma_full_inclusion_count(p, children, 0);
        },
        _ => {},
    }
}

/// Under full inclusion (every flag set) the listing is exhaustive: it holds
/// exactly one item per filesystem object reachable under the root.
pub proof fn lemma_full_inclusion_count(p: ScanPolicy, entries: Vec<FsEntry>, i: int)
    requires
        p.full_inclusion(),
    ensures
        scan_items(p, entries, i).len() == count_from(entries, i),
    decreases entries, entries.len() - i, 1int,
{
    if 0 <= i < entries.len() {
        lemma_full_inclusion_entry_count(p, entries[i]);
        lemma_full_inclusion_count(p, entries, i + 1);
    }
}

/// Subtree contiguity under full inclusion: an admitted directory entry is
/// followed, immediately and as one contiguous block, by the items of its
/// whole subtree, reparented under its name.
pub proof fn lemma_full_inclusion_subtree_contiguity(p: ScanPolicy, e: FsEntry)
    requires
        p.full_inclusion(),
        e.node is Directory,
    ensures
        scan_entry(p, e) == seq![own_item(e.name@, EntryKind::Directory)] + reparented(
            e.name@,
            scan_items(p, e.node->Directory_0, 0),
        ),
{
}

proof fn lemma_scan_entry_leads(p: ScanPolicy, e: FsEntry, k: int)
    requires
        0 <= k < scan_entry(p, e).len(),
    ensures
        entry_leads_to(e, scan_entry(p, e)[k].segments, scan_entry(p, e)[k].kind),
    decreases e, 0int, 0int,
{
    match e.node {
        FsNode::Directory(children) => {
            let own: Seq<ScanItem> = if p.include_directories {
                seq![own_item(e.name@, EntryKind::Directory)]
            } else {
                Seq::empty()
            };
            let nested: Seq<ScanItem> = if p.recursive {
                reparented(e.name@, scan_items(p, children, 0))
            } else {
                Seq::empty()
            };
            assert(scan_entry(p, e) == own + nested);
            if k < own.len() {
                assert(scan_entry(p, e)[k] == own_item(e.name@, EntryKind::Directory));
            } else {
                let k2: int = k - own.len();
                let sub = scan_items(p, children, 0);
                assert(nested[k2] == child_item(e.name@, sub[k2]));
                lemma_scan_items_wf(p, children, 0);
                lemma_scan_items_reachable(p, children, 0, k2);
                let it = child_item(e.name@, sub[k2]);
                assert(it.segments[0] == e.name@);
                assert(it.segments.drop_first() =~= sub[k2].segments);
            }
        },
        _ => {
            assert(scan_entry(p, e)[k] == own_item(e.name@, e.node.kind()));
        },
    }
}

/// Every item of a listing names a real object: its segments form a path
/// from the root, reached by following directory entries only, and the
/// object at its end has the item's kind. Filtered-out directories that
/// were still recursed into contribute no segment a real path lacks.
pub proof fn lemma_scan_items_reachable(p: ScanPolicy, entries: Vec<FsEntry>, i: int, k: int)
    requires
        0 <= k < scan_items(p, entries, i).len(),
    ensures
        path_reachable(
            entries,
            scan_items(p, entries, i)[k].segments,
            scan_items(p, entries, i)[k].kind,
        ),
    decreases entries, entries.len() - i, 1int,
{
    let here = scan_entry(p, entries[i]);
    let rest = scan_items(p, entries, i + 1);
    assert(scan_items(p, entries, i) == here + rest);
    if k < here.len() {
        lemma_scan_entry_leads(p, entries[i], k);
        assert(entry_leads_to(entries[i], here[k].segments, here[k].kind));
    } else {
        lemma_scan_items_reachable(p, entries, i + 1, k - here.len());
    }
}

/// Items contributed by the entry at `j` appear in the listing that starts
/// at any earlier index.
proof fn lemma_scan_items_superset(p: ScanPolicy, entries: Vec<FsEntry>, i: int, j: int, x: ScanItem)
    requires
        0 <= i <= j < entries.len(),
        scan_entry(p, entries[j]).contains(x),
    ensures
        scan_items(p, entries, i).contains(x),
    decreases j - i,
{
    let here = scan_entry(p, entries[i]);
    let rest = scan_items(p, entries, i + 1);
    assert(scan_items(p, entries, i) == here + rest);
    if i == j {
        let k = choose|k: int| 0 <= k < here.len() && here[k] == x;
        assert(scan_items(p, entries, i)[k] == x);
    } else {
        lemma_scan_items_superset(p, entries, i + 1, j, x);
        let k = choose|k: int| 0 <= k < rest.len() && rest[k] == x;
        assert(scan_items(p, entries, i)[here.len() + k] == x);
    }
}

proof fn lemma_full_inclusion_entry_complete(
    p: ScanPolicy,
    e: FsEntry,
    segs: Seq<Seq<char>>,
    kind: EntryKind,
)
    requires
        p.full_inclusion(),
        entry_leads_to(e, segs, kind),
    ensures
        scan_entry(p, e).contains((ScanItem { segments: segs, kind: kind })),
    decreases e, 0int, 0int,
{
    match e.node {
        FsNode::Directory(children) => {
            let own: Seq<ScanItem> = seq![own_item(e.name@, EntryKind::Directory)];
            let nested: Seq<ScanItem> = reparented(e.name@, scan_items(p, children, 0));
            assert(scan_entry(p, e) == own + nested);
            if segs.len() == 1 {
                assert(seq![e.name@] =~= segs);
                assert(scan_entry(p, e)[0] == (ScanItem { segments: segs, kind: kind }));
            } else {
                lemma_full_inclusion_complete(p, children, segs.drop_first(), kind);
                let sub = scan_items(p, children, 0);
                let target = ScanItem { segments: segs.drop_first(), kind: kind };
                let k = choose|k: int| 0 <= k < sub.len() && sub[k] == target;
                assert(nested[k] == child_item(e.name@, target));
                assert(seq![e.name@] + segs.drop_first() =~= segs);
                assert(scan_entry(p, e)[1 + k] == (ScanItem { segments: segs, kind: kind }));
            }
        },
        _ => {
            assert(leaf_admitted(p, e));
            assert(seq![e.name@] =~= segs);
            assert(scan_entry(p, e)[0] == (ScanItem { segments: segs, kind: kind }));
        },
    }
}

/// The other half of exhaustiveness under full inclusion: every path that
/// names a real object under the root appears in the listing, as an item
/// with that path's segments and that object's kind.
pub proof fn lemma_full_inclusion_complete(
    p: ScanPolicy,
    entries: Vec<FsEntry>,
    segs: Seq<Seq<char>>,
    kind: EntryKind,
)
    requires
        p.full_inclusion(),
        path_reachable(entries, segs, kind),
    ensures
        scan_items(p, entries, 0).contains((ScanItem { segments: segs, kind: kind })),
    decreases entries, entries.len(), 1int,
{
    let j = choose|j: int| 0 <= j < entries.len() && entry_leads_to(entries[j], segs, kind);
    lemma_full_inclusion_entry_complete(p, entries[j], segs, kind);
    lemma_scan_items_superset(p, entries, 0, j, ScanItem { segments: segs, kind: kind });
}

/// Idempotence: two enumeration results for the same policy and the same
/// unchanged snapshot are identical, entry for entry and in order.
pub proof fn lemma_enumerate_idempotent(
    p: ScanPolicy,
    entries: Vec<FsEntry>,
    r1: Vec<String>,
    r2: Vec<String>,
)
    requires
        r1.deep_view() == scan_paths(p, entries),
        r2.deep_view() == scan_paths(p, entries),
    ensures
        r1.deep_view() == r2.deep_view(),
{
}

} // verus!

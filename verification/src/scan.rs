use vstd::prelude::*;
use vstd::string::*;

use crate::policy::ScanPolicy;
use crate::tree::{EntryKind, FsEntry, FsNode};

verus! {

/// A name is hidden when it starts with a dot.
pub open spec fn is_hidden_name(name: Seq<char>) -> bool {
    name.len() > 0 && name[0] == '.'
}

/// The inclusion rule for an entry that is not a directory: a symlink is
/// admitted by `include_symlinks` alone; a plain (non-hidden) file by
/// `include_files`; a hidden entry of either kind also by
/// `include_dotfiles`, regardless of the kind flags.
pub open spec fn leaf_included(p: ScanPolicy, kind: EntryKind, name: Seq<char>) -> bool {
    ||| kind is Symlink && p.include_symlinks
    ||| kind is File && !is_hidden_name(name) && p.include_files
    ||| is_hidden_name(name) && p.include_dotfiles
}

/// One selected entry before separator joining: the relative path as a
/// non-empty sequence of segments, plus the entry's kind.
#[verifier::ext_equal]
pub struct ScanItem {
    pub segments: Seq<Seq<char>>,
    pub kind: EntryKind,
}

/// The item of an entry found directly in the scanned directory.
pub open spec fn own_item(name: Seq<char>, kind: EntryKind) -> ScanItem {
    ScanItem { segments: seq![name], kind: kind }
}

/// The item `it` of a subdirectory named `dir_name`, reparented under it.
pub open spec fn child_item(dir_name: Seq<char>, it: ScanItem) -> ScanItem {
    ScanItem { segments: seq![dir_name] + it.segments, kind: it.kind }
}

/// All of `items`, reparented under a subdirectory named `dir_name`.
pub open spec fn reparented(dir_name: Seq<char>, items: Seq<ScanItem>) -> Seq<ScanItem> {
    items.map_values(|it: ScanItem| child_item(dir_name, it))
}

/// The items selected from one entry. A hidden directory is skipped
/// entirely unless `include_dotfiles` is set; an admitted directory
/// contributes its own name under `include_directories` and, under
/// `recursive`, its whole sub-listing immediately after, reparented. Other
/// entries contribute their name when [`leaf_included`] admits them.
pub open spec fn scan_entry(p: ScanPolicy, e: FsEntry) -> Seq<ScanItem>
    decreases e, 0int, 0int,
{
    match e.node {
        FsNode::Directory(children) => {
            if is_hidden_name(e.name@) && !p.include_dotfiles {
                Seq::empty()
            } else {
                let own: Seq<ScanItem> = if p.include_directories {
                    seq![own_item(e.name@, EntryKind::Directory)]
                } else {
                    Seq::empty()
                };
                let nested: Seq<ScanItem> = if p.recursive {
                    reparented(e.name@, scan_items(p, children, 0))
                } else {
                    Seq::empty()
                };
                own + nested
            }
        },
        _ => {
            if leaf_included(p, e.node.kind(), e.name@) {
                seq![own_item(e.name@, e.node.kind())]
            } else {
                Seq::empty()
            }
        },
    }
}

/// The items selected from the entries `entries[i..]`, in listing order.
pub open spec fn scan_items(p: ScanPolicy, entries: Vec<FsEntry>, i: int) -> Seq<ScanItem>
    decreases entries, entries.len() - i, 1int,
{
    if i < 0 || i >= entries.len() {
        Seq::empty()
    } else {
        scan_entry(p, entries[i]) + scan_items(p, entries, i + 1)
    }
}

/// The segments of an item joined with the separator token: no leading or
/// trailing separator, one token between adjacent segments.
pub open spec fn join_segments(sep: Seq<char>, segments: Seq<Seq<char>>) -> Seq<char>
    decreases segments.len(),
{
    if segments.len() == 0 {
        Seq::empty()
    } else if segments.len() == 1 {
        segments[0]
    } else {
        segments[0] + sep + join_segments(sep, segments.drop_first())
    }
}

/// The relative path string of one item under separator `sep`.
pub open spec fn item_path(sep: Seq<char>, it: ScanItem) -> Seq<char> {
    join_segments(sep, it.segments)
}

/// The path strings of `items` under separator `sep`, in order.
pub open spec fn paths_of(sep: Seq<char>, items: Seq<ScanItem>) -> Seq<Seq<char>> {
    items.map_values(|it: ScanItem| item_path(sep, it))
}

/// The full listing of a directory holding `entries` under policy `p`: the
/// selected items, joined with the policy's separator.
pub open spec fn scan_paths(p: ScanPolicy, entries: Vec<FsEntry>) -> Seq<Seq<char>> {
    paths_of(p.separator@, scan_items(p, entries, 0))
}

/// Every item's path has at least one segment.
pub open spec fn items_wf(items: Seq<ScanItem>) -> bool {
    forall|k: int| 0 <= k < items.len() ==> (#[trigger] items[k]).segments.len() >= 1
}

/// Whatever one entry contributes is well-formed: its own name is one
/// segment, and reparenting only adds a segment.
proof fn lemma_scan_entry_wf(p: ScanPolicy, e: FsEntry)
    ensures
        items_wf(scan_entry(p, e)),
{
    match e.node {
        FsNode::Directory(children) => {
            if !(is_hidden_name(e.name@) && !p.include_dotfiles) {
                let sub = scan_items(p, children, 0);
                assert forall|k: int| 0 <= k < reparented(e.name@, sub).len() implies (
                #[trigger] reparented(e.name@, sub)[k]).segments.len() >= 1 by {
                    assert(reparented(e.name@, sub)[k] == child_item(e.name@, sub[k]));
                }
            }
        },
        _ => {},
    }
}

/// Every item of a listing has at least one segment.
pub proof fn lemma_scan_items_wf(p: ScanPolicy, entries: Vec<FsEntry>, i: int)
    ensures
        items_wf(scan_items(p, entries, i)),
    decreases entries.len() - i,
{
    if 0 <= i < entries.len() {
        lemma_scan_entry_wf(p, entries[i]);
        lemma_scan_items_wf(p, entries, i + 1);
    }
}

/// Joining a path of one or more segments under one more leading segment
/// inserts exactly one separator token after the new segment.
proof fn lemma_join_cons(sep: Seq<char>, name: Seq<char>, segs: Seq<Seq<char>>)
    requires
        segs.len() >= 1,
    ensures
        join_segments(sep, seq![name] + segs) == name + sep + join_segments(sep, segs),
{
    let s = seq![name] + segs;
    assert(s[0] == name);
    assert(s.drop_first() =~= segs);
}

/// Joining maps over concatenation of listings.
proof fn lemma_paths_of_add(sep: Seq<char>, a: Seq<ScanItem>, b: Seq<ScanItem>)
    ensures
        paths_of(sep, a + b) == paths_of(sep, a) + paths_of(sep, b),
{
    assert(paths_of(sep, a + b) =~= paths_of(sep, a) + paths_of(sep, b));
}

/// The path of a reparented item: the directory's name, the separator, then
/// the item's own path.
proof fn lemma_reparented_path(sep: Seq<char>, dir: Seq<char>, items: Seq<ScanItem>, j: int)
    requires
        0 <= j < items.len(),
        items[j].segments.len() >= 1,
    ensures
        paths_of(sep, reparented(dir, items)).len() == items.len(),
        paths_of(sep, reparented(dir, items))[j] == dir + sep + item_path(sep, items[j]),
{
    assert(reparented(dir, items)[j] == child_item(dir, items[j]));
    lemma_join_cons(sep, dir, items[j].segments);
}

/// Whether `name` begins with a dot.
pub fn is_hidden(name: &str) -> (b: bool)
    ensures
        b == is_hidden_name(name@),
{
    if name.unicode_len() == 0 {
        false
    } else {
        name.get_char(0) == '.'
    }
}

/// Whether the traversal enters the subdirectory `name`: only under
/// `recursive`, and never into a hidden directory unless `include_dotfiles`
/// is set. The embedding program consults this before listing a
/// subdirectory, so that it reads exactly what the traversal reads.
pub fn should_descend(policy: &ScanPolicy, name: &str) -> (b: bool)
    ensures
        b == (policy.recursive && !(is_hidden_name(name@) && !policy.include_dotfiles)),
{
    policy.recursive && !(is_hidden(name) && !policy.include_dotfiles)
}

/// The depth-first traversal over a snapshot: produces the relative path of
/// every entry of `entries` that the policy admits, in listing order, with a
/// directory's descendants immediately after its own entry.
pub fn get_file_names(policy: &ScanPolicy, entries: &Vec<FsEntry>) -> (result: Vec<String>)
    ensures
        result.deep_view() == scan_paths(*policy, *entries),
    decreases *entries,
{
    let ghost p: ScanPolicy = *policy;
    let ghost sep: Seq<char> = policy.separator@;
    let ghost full: Seq<Seq<char>> = paths_of(sep, scan_items(p, *entries, 0));
    let mut result: Vec<String> = Vec::new();
    let mut i: usize = 0;
    while i < entries.len()
        invariant
            i <= entries.len(),
            p == *policy,
            sep == policy.separator@,
            full == paths_of(sep, scan_items(p, *entries, 0)),
            full == result.deep_view() + paths_of(sep, scan_items(p, *entries, i as int)),
        decreases entries.len() - i,
    {
        let ghost prev: Seq<Seq<char>> = result.deep_view();
        let ghost entry_items: Seq<ScanItem> = scan_entry(p, entries@[i as int]);
        proof {
            assert(scan_items(p, *entries, i as int) == entry_items + scan_items(
                p,
                *entries,
                i as int + 1,
            ));
            lemma_paths_of_add(sep, entry_items, scan_items(p, *entries, i as int + 1));
        }
        let entry = &entries[i];
        match &entry.node {
            FsNode::Directory(children) => {
                let hidden = is_hidden(entry.name.as_str());
                if !(hidden && !policy.include_dotfiles) {
                    let ghost own: Seq<ScanItem> = if p.include_directories {
                        seq![own_item(entry.name@, EntryKind::Directory)]
                    } else {
                        Seq::empty()
                    };
                    let ghost nested: Seq<ScanItem> = if p.recursive {
                        reparented(entry.name@, scan_items(p, *children, 0))
                    } else {
                        Seq::empty()
                    };
                    proof {
                        assert(entry_items == own + nested);
                        lemma_paths_of_add(sep, own, nested);
                    }
                    if policy.include_directories {
                        result.push(entry.name.clone());
                        proof {
                            assert(paths_of(sep, own) =~= seq![entry.name@]);
                            assert(result.deep_view() =~= prev + paths_of(sep, own));
                        }
                    } else {
                        proof {
                            assert(paths_of(sep, own) =~= Seq::<Seq<char>>::empty());
                            assert(result.deep_view() =~= prev + paths_of(sep, own));
                        }
                    }
                    let ghost mid: Seq<Seq<char>> = result.deep_view();
                    if policy.recursive {
                        proof {
                            assert(decreases_to!(*entries => entries@[i as int]));
                            assert(decreases_to!(entries@[i as int] => *children));
                        }
                        let sub = get_file_names(policy, children);
                        let ghost sub_items: Seq<ScanItem> = scan_items(p, *children, 0);
                        proof {
                            lemma_scan_items_wf(p, *children, 0);
                            assert(sub.deep_view().len() == sub@.len());
                            assert(paths_of(sep, sub_items).len() == sub_items.len());
                            assert(paths_of(sep, nested).len() == nested.len());
                            assert(nested.len() == sub_items.len());
                        }
                        let mut j: usize = 0;
                        while j < sub.len()
                            invariant
                                j <= sub.len(),
                                p == *policy,
                                sep == policy.separator@,
                                sub.deep_view() == paths_of(sep, sub_items),
                                sub@.len() == sub_items.len(),
                                nested == reparented(entry.name@, sub_items),
                                paths_of(sep, nested).len() == sub_items.len(),
                                items_wf(sub_items),
                                result.deep_view() == mid + paths_of(sep, nested).take(j as int),
                            decreases sub.len() - j,
                        {
                            let ghost before: Seq<Seq<char>> = result.deep_view();
                            let joined = entry.name.clone().concat(policy.separator.as_str())
                                .concat(sub[j].as_str());
                            result.push(joined);
                            proof {
                                lemma_reparented_path(sep, entry.name@, sub_items, j as int);
                                assert(paths_of(sep, nested)[j as int] == entry.name@ + sep
                                    + sub.deep_view()[j as int]);
                                assert(result.deep_view() =~= before + seq![
                                    paths_of(sep, nested)[j as int],
                                ]);
                                assert(paths_of(sep, nested).take(j as int + 1) =~= paths_of(
                                    sep,
                                    nested,
                                ).take(j as int) + seq![paths_of(sep, nested)[j as int]]);
                                assert(result.deep_view() =~= mid + paths_of(sep, nested).take(
                                    j as int + 1,
                                ));
                            }
                            j += 1;
                        }
                        proof {
                            assert(paths_of(sep, nested).take(sub.len() as int) =~= paths_of(
                                sep,
                                nested,
                            ));
                        }
                    } else {
                        proof {
                            assert(paths_of(sep, nested) =~= Seq::<Seq<char>>::empty());
                        }
                    }
                    proof {
                        assert(result.deep_view() =~= prev + paths_of(sep, entry_items));
                    }
                } else {
                    proof {
                        assert(entry_items =~= Seq::<ScanItem>::empty());
                        assert(paths_of(sep, entry_items) =~= Seq::<Seq<char>>::empty());
                        assert(result.deep_view() =~= prev + paths_of(sep, entry_items));
                    }
                }
            },
            FsNode::File => {
                let hidden = is_hidden(entry.name.as_str());
                if (!hidden && policy.include_files) || (hidden && policy.include_dotfiles) {
                    result.push(entry.name.clone());
                    proof {
                        assert(entry_items =~= seq![own_item(entry.name@, EntryKind::File)]);
                        assert(paths_of(sep, entry_items) =~= seq![entry.name@]);
                        assert(result.deep_view() =~= prev + paths_of(sep, entry_items));
                    }
                } else {
                    proof {
                        assert(entry_items =~= Seq::<ScanItem>::empty());
                        assert(paths_of(sep, entry_items) =~= Seq::<Seq<char>>::empty());
                        assert(result.deep_view() =~= prev + paths_of(sep, entry_items));
                    }
                }
            },
            FsNode::Symlink => {
                let hidden = is_hidden(entry.name.as_str());
                if policy.include_symlinks || (hidden && policy.include_dotfiles) {
                    result.push(entry.name.clone());
                    proof {
                        assert(entry_items =~= seq![own_item(entry.name@, EntryKind::Symlink)]);
                        assert(paths_of(sep, entry_items) =~= seq![entry.name@]);
                        assert(result.deep_view() =~= prev + paths_of(sep, entry_items));
                    }
                } else {
                    proof {
                        assert(entry_items =~= Seq::<ScanItem>::empty());
                        assert(paths_of(sep, entry_items) =~= Seq::<Seq<char>>::empty());
                        assert(result.deep_view() =~= prev + paths_of(sep, entry_items));
                    }
                }
            },
        }
        proof {
            assert(full =~= result.deep_view() + paths_of(sep, scan_items(p, *entries, i as int + 1)));
        }
        i += 1;
    }
    proof {
        assert(scan_items(p, *entries, i as int) =~= Seq::<ScanItem>::empty());
        assert(paths_of(sep, scan_items(p, *entries, i as int)) =~= Seq::<Seq<char>>::empty());
        assert(result.deep_view() =~= full);
    }
    result
}

/// Why an enumeration call failed. Every failure is terminal: no partial
/// listing is ever produced.
#[derive(Debug)]
pub enum ScanError {
    /// The root handed to [`enumerate`] is not a directory; the field is
    /// the offending path.
    NotADirectory(String),
    /// A directory could not be listed while a snapshot was being taken:
    /// the offending path and the underlying cause. Raised by the embedding
    /// program, never by the traversal itself.
    DirectoryReadError(String, String),
    /// An entry's name could not be represented as valid text: the path of
    /// the directory holding it and the underlying cause. Raised by the
    /// embedding program, never by the traversal itself.
    InvalidEntryName(String, String),
}

/// Enumerates the snapshot `root`, which the caller read at `path`. Succeeds
/// with the full listing exactly when the root is a directory; otherwise
/// fails with [`ScanError::NotADirectory`] carrying the path, and produces
/// no output.
pub fn enumerate(policy: &ScanPolicy, path: &str, root: &FsNode) -> (r: Result<
    Vec<String>,
    ScanError,
>)
    ensures
        match r {
            Ok(names) => root is Directory && names.deep_view() == scan_paths(
                *policy,
                root->Directory_0,
            ),
            Err(err) => !(root is Directory) && (err matches ScanError::NotADirectory(q) && q@
                == path@),
        },
{
    match root {
        FsNode::Directory(entries) => Ok(get_file_names(policy, entries)),
        _ => Err(ScanError::NotADirectory(path.to_owned())),
    }
}

} // verus!

//! Blast-radius diff between two generations, keyed by path.
//!
//! Both generations are walked directory by directory and their records
//! compared path by path. Content addressing makes the comparison exact: equal
//! payloads mean equal content.
use vstd::prelude::*;
use crate::digest::GenerationId;
use crate::order::{
    copy_names, lemma_path_order, lemma_path_transitive, path_lt, rank_paths, Rank,
};
use crate::path::{byte_strings, path_from, path_of, HostPath};
use crate::text::bytes_eq;
use crate::vecs::reversed;

verus! {

/// How many entries of a directory are asked for at once.
pub const PAGE_ENTRIES: u32 = 1_024;

/// What an entry of a tree is.
#[derive(Clone, Copy, Debug, PartialEq, Eq, Structural)]
pub enum FileKind {
    Regular,
    Directory,
    SymbolicLink,
    Fifo,
    Socket,
    CharacterDevice,
    BlockDevice,
    ReparsePoint,
    MountBoundary,
}

/// The name of a kind on the wire.
pub open spec fn file_kind_text(kind: FileKind) -> Seq<char> {
    match kind {
        FileKind::Regular => "regular"@,
        FileKind::Directory => "directory"@,
        FileKind::SymbolicLink => "symboliclink"@,
        FileKind::Fifo => "fifo"@,
        FileKind::Socket => "socket"@,
        FileKind::CharacterDevice => "characterdevice"@,
        FileKind::BlockDevice => "blockdevice"@,
        FileKind::ReparsePoint => "reparsepoint"@,
        FileKind::MountBoundary => "mountboundary"@,
    }
}

impl FileKind {
    /// The name of this kind on the wire.
    pub fn as_str(self) -> (r: &'static str)
        ensures
            r@ == file_kind_text(self),
    {
        match self {
            FileKind::Regular => "regular",
            FileKind::Directory => "directory",
            FileKind::SymbolicLink => "symboliclink",
            FileKind::Fifo => "fifo",
            FileKind::Socket => "socket",
            FileKind::CharacterDevice => "characterdevice",
            FileKind::BlockDevice => "blockdevice",
            FileKind::ReparsePoint => "reparsepoint",
            FileKind::MountBoundary => "mountboundary",
        }
    }
}

/// How a path differs between two generations.
#[derive(Clone, Copy, Debug, PartialEq, Eq, Structural)]
pub enum ChangeKind {
    Added,
    Removed,
    Modified,
    MetadataOnly,
}

/// One changed path between two generations.
#[derive(Debug, PartialEq, Eq)]
pub struct FileChange {
    /// The names that lead to the path from the root of the tree.
    pub names: Vec<Vec<u8>>,
    pub change: ChangeKind,
    pub file_kind: FileKind,
}

impl FileChange {
    /// The names that lead to the path.
    pub open spec fn path(&self) -> Seq<Seq<u8>> {
        byte_strings(self.names@)
    }

    /// The path, relative to the root of the tree.
    pub fn host_path(&self) -> (r: HostPath)
        ensures
            r@ == path_of(self.path()),
    {
        path_from(&self.names)
    }
}

/// What a record says of a path.
#[derive(Debug)]
pub struct RecordSummary {
    pub kind: FileKind,
    /// The payload that content is compared by. None for directories: their
    /// payload changes with any descendant.
    pub payload: Option<Vec<u8>>,
    pub metadata: Vec<u8>,
}

/// A record as plain values.
pub struct Summary {
    pub kind: FileKind,
    pub payload: Option<Seq<u8>>,
    pub metadata: Seq<u8>,
}

impl View for RecordSummary {
    type V = Summary;

    open spec fn view(&self) -> Summary {
        Summary {
            kind: self.kind,
            payload: match self.payload {
                Some(b) => Some(b@),
                None => None,
            },
            metadata: self.metadata@,
        }
    }
}

fn same_payload(a: &Option<Vec<u8>>, b: &Option<Vec<u8>>) -> (r: bool)
    ensures
        r == (match (*a, *b) {
            (Some(x), Some(y)) => x@ == y@,
            (None, None) => true,
            _ => false,
        }),
{
    match (a, b) {
        (Some(x), Some(y)) => bytes_eq(x.as_slice(), y.as_slice()),
        (None, None) => true,
        _ => false,
    }
}

/// One record of a tree, under the names that lead to it.
#[derive(Debug)]
pub struct TreeEntry {
    pub names: Vec<Vec<u8>>,
    pub record: RecordSummary,
}

impl TreeEntry {
    /// The names that lead to the record.
    pub open spec fn path(&self) -> Seq<Seq<u8>> {
        byte_strings(self.names@)
    }
}

/// The records of a tree by path; of two under one path the later counts.
pub open spec fn records(entries: Seq<TreeEntry>) -> Map<Seq<Seq<u8>>, Summary>
    decreases entries.len(),
{
    if entries.len() == 0 {
        Map::empty()
    } else {
        records(entries.drop_last()).insert(entries.last().path(), entries.last().record@)
    }
}

/// Whether records stand in the order of their paths, each path once.
pub open spec fn in_order(entries: Seq<TreeEntry>) -> bool {
    forall|i: int, j: int|
        0 <= i < j < entries.len() ==> path_lt(
            (#[trigger] entries[i]).path(),
            (#[trigger] entries[j]).path(),
        )
}

proof fn lemma_records_domain(entries: Seq<TreeEntry>, p: Seq<Seq<u8>>)
    ensures
        records(entries).dom().contains(p) <==> exists|i: int|
            0 <= i < entries.len() && (#[trigger] entries[i]).path() == p,
    decreases entries.len(),
{
    if entries.len() > 0 {
        let rest = entries.drop_last();
        lemma_records_domain(rest, p);
        if records(rest).dom().contains(p) {
            let i = choose|i: int| 0 <= i < rest.len() && (#[trigger] rest[i]).path() == p;
            assert(entries[i].path() == p);
        }
        if entries.last().path() == p {
            assert(entries[entries.len() - 1].path() == p);
        }
        if exists|i: int| 0 <= i < entries.len() && (#[trigger] entries[i]).path() == p {
            let i = choose|i: int| 0 <= i < entries.len() && (#[trigger] entries[i]).path() == p;
            if i < rest.len() {
                assert(rest[i].path() == p);
            }
        }
    }
}

proof fn lemma_records_value(entries: Seq<TreeEntry>, i: int)
    requires
        in_order(entries),
        0 <= i < entries.len(),
    ensures
        records(entries).dom().contains(entries[i].path()),
        records(entries)[entries[i].path()] == entries[i].record@,
    decreases entries.len(),
{
    if i < entries.len() - 1 {
        let rest = entries.drop_last();
        assert(in_order(rest)) by {
            assert forall|a: int, b: int| 0 <= a < b < rest.len() implies path_lt(
                (#[trigger] rest[a]).path(),
                (#[trigger] rest[b]).path(),
            ) by {
                assert(path_lt(entries[a].path(), entries[b].path()));
            }
        }
        lemma_records_value(rest, i);
        assert(rest[i] == entries[i]);
        lemma_path_order(entries[i].path(), entries.last().path());
        assert(path_lt(entries[i].path(), entries[entries.len() - 1].path()));
    }
}

proof fn lemma_records_concat(a: Seq<TreeEntry>, b: Seq<TreeEntry>)
    ensures
        records(a + b) =~= records(a).union_prefer_right(records(b)),
    decreases b.len(),
{
    if b.len() == 0 {
        assert(a + b =~= a);
        assert(records(b) =~= Map::empty());
    } else {
        assert((a + b).drop_last() =~= a + b.drop_last());
        lemma_records_concat(a, b.drop_last());
    }
}

/// Merges two ordered lists; of two records under one path the second list's
/// counts.
fn merge_entries(a: Vec<TreeEntry>, b: Vec<TreeEntry>) -> (out: Vec<TreeEntry>)
    requires
        in_order(a@),
        in_order(b@),
    ensures
        in_order(out@),
        records(out@) == records(a@).union_prefer_right(records(b@)),
{
    let mut a = a;
    let mut b = b;
    let ghost all_a = a@;
    let ghost all_b = b@;
    // The lists are consumed from their ends; what is taken is kept in reverse.
    let mut back: Vec<TreeEntry> = Vec::new();
    while a.len() > 0 || b.len() > 0
        invariant
            in_order(a@),
            in_order(b@),
            in_order(back@.reverse()),
            forall|i: int, j: int|
                0 <= i < a@.len() && 0 <= j < back@.len() ==> path_lt(
                    (#[trigger] a@[i]).path(),
                    (#[trigger] back@[j]).path(),
                ),
            forall|i: int, j: int|
                0 <= i < b@.len() && 0 <= j < back@.len() ==> path_lt(
                    (#[trigger] b@[i]).path(),
                    (#[trigger] back@[j]).path(),
                ),
            records(all_a).union_prefer_right(records(all_b)) =~= records(
                a@,
            ).union_prefer_right(records(b@)).union_prefer_right(records(back@.reverse())),
        decreases a.len() + b.len(),
    {
        let ghost a0 = a@;
        let ghost b0 = b@;
        let ghost back0 = back@;
        let take_b = if a.len() == 0 {
            true
        } else if b.len() == 0 {
            false
        } else {
            match rank_paths(&a[a.len() - 1].names, &b[b.len() - 1].names) {
                Rank::Above => false,
                Rank::Same => {
                    let _ = a.pop();
                    true
                },
                Rank::Below => true,
            }
        };
        let next = if take_b { b.pop() } else { a.pop() };
        if let Some(entry) = next {
            back.push(entry);
            proof {
                lemma_take_last(a0, b0, back0, a@, b@, back@, take_b);
            }
        }
    }
    proof {
        assert(records(a@) =~= Map::empty());
        assert(records(b@) =~= Map::empty());
    }
    reversed(back)
}

/// One step of a merge keeps the records, the order and the distance to what
/// was taken.
proof fn lemma_take_last(
    a0: Seq<TreeEntry>,
    b0: Seq<TreeEntry>,
    back0: Seq<TreeEntry>,
    a: Seq<TreeEntry>,
    b: Seq<TreeEntry>,
    back: Seq<TreeEntry>,
    take_b: bool,
)
    requires
        in_order(a0),
        in_order(b0),
        in_order(back0.reverse()),
        forall|i: int, j: int|
            0 <= i < a0.len() && 0 <= j < back0.len() ==> path_lt(
                (#[trigger] a0[i]).path(),
                (#[trigger] back0[j]).path(),
            ),
        forall|i: int, j: int|
            0 <= i < b0.len() && 0 <= j < back0.len() ==> path_lt(
                (#[trigger] b0[i]).path(),
                (#[trigger] back0[j]).path(),
            ),
        take_b ==> b0.len() > 0 && b == b0.drop_last() && back == back0.push(b0.last()) && {
            ||| a == a0 && (a0.len() == 0 || path_lt(a0.last().path(), b0.last().path()))
            ||| a0.len() > 0 && a == a0.drop_last() && a0.last().path() == b0.last().path()
        },
        !take_b ==> a0.len() > 0 && a == a0.drop_last() && b == b0 && back == back0.push(a0.last())
            && (b0.len() == 0 || path_lt(b0.last().path(), a0.last().path())),
    ensures
        in_order(a),
        in_order(b),
        in_order(back.reverse()),
        forall|i: int, j: int|
            0 <= i < a.len() && 0 <= j < back.len() ==> path_lt(
                (#[trigger] a[i]).path(),
                (#[trigger] back[j]).path(),
            ),
        forall|i: int, j: int|
            0 <= i < b.len() && 0 <= j < back.len() ==> path_lt(
                (#[trigger] b[i]).path(),
                (#[trigger] back[j]).path(),
            ),
        records(a0).union_prefer_right(records(b0)).union_prefer_right(records(back0.reverse()))
            =~= records(a).union_prefer_right(records(b)).union_prefer_right(
            records(back.reverse()),
        ),
{
    let taken = back.last();
    let key = taken.path();
    let kept = back0.reverse();
    assert(back.reverse() =~= seq![taken] + kept);
    lemma_records_concat(seq![taken], kept);
    assert(seq![taken].drop_last() =~= Seq::<TreeEntry>::empty());
    assert(records(seq![taken]) =~= Map::<Seq<Seq<u8>>, Summary>::empty().insert(
        key,
        taken.record@,
    )) by {
        reveal_with_fuel(records, 2);
        assert(seq![taken].last() == taken);
    }
    // Everything left of either list lies below what was taken.
    assert forall|i: int| 0 <= i < a.len() implies path_lt((#[trigger] a[i]).path(), key) by {
        assert(a[i] == a0[i]);
        if a0.len() > a.len() {
            assert(path_lt(a0[i].path(), a0[a0.len() - 1].path()));
        } else {
            if i < a0.len() - 1 {
                assert(path_lt(a0[i].path(), a0[a0.len() - 1].path()));
                lemma_path_transitive(a0[i].path(), a0.last().path(), key);
            }
        }
    }
    assert forall|i: int| 0 <= i < b.len() implies path_lt((#[trigger] b[i]).path(), key) by {
        assert(b[i] == b0[i]);
        if b0.len() > b.len() {
            assert(path_lt(b0[i].path(), b0[b0.len() - 1].path()));
        } else {
            if i < b0.len() - 1 {
                assert(path_lt(b0[i].path(), b0[b0.len() - 1].path()));
                lemma_path_transitive(b0[i].path(), b0.last().path(), key);
            }
        }
    }
    assert forall|j: int| 0 <= j < back0.len() implies path_lt(
        key,
        (#[trigger] back0[j]).path(),
    ) by {
        if take_b {
            assert(path_lt(b0[b0.len() - 1].path(), back0[j].path()));
        } else {
            assert(path_lt(a0[a0.len() - 1].path(), back0[j].path()));
        }
    }
    assert forall|i: int, j: int| 0 <= i < j < back.len() implies path_lt(
        (#[trigger] back.reverse()[i]).path(),
        (#[trigger] back.reverse()[j]).path(),
    ) by {
        if i == 0 {
            assert(back.reverse()[j] == back0[back0.len() - j]);
        } else {
            assert(back.reverse()[i] == kept[i - 1]);
            assert(back.reverse()[j] == kept[j - 1]);
        }
    }
    assert forall|i: int, j: int| 0 <= i < a.len() && 0 <= j < back.len() implies path_lt(
        (#[trigger] a[i]).path(),
        (#[trigger] back[j]).path(),
    ) by {
        assert(a[i] == a0[i]);
        if j < back0.len() {
            assert(back[j] == back0[j]);
            assert(path_lt(a0[i].path(), back0[j].path()));
        }
    }
    assert forall|i: int, j: int| 0 <= i < b.len() && 0 <= j < back.len() implies path_lt(
        (#[trigger] b[i]).path(),
        (#[trigger] back[j]).path(),
    ) by {
        assert(b[i] == b0[i]);
        if j < back0.len() {
            assert(back[j] == back0[j]);
            assert(path_lt(b0[i].path(), back0[j].path()));
        }
    }
    // The records: what was taken is in none of the rest.
    assert(!records(a).dom().contains(key)) by {
        lemma_records_domain(a, key);
        lemma_path_order(key, key);
    }
    assert(!records(b).dom().contains(key)) by {
        lemma_records_domain(b, key);
        lemma_path_order(key, key);
    }
    assert(!records(kept).dom().contains(key)) by {
        lemma_records_domain(kept, key);
        lemma_path_order(key, key);
        if exists|i: int| 0 <= i < kept.len() && (#[trigger] kept[i]).path() == key {
            let i = choose|i: int| 0 <= i < kept.len() && (#[trigger] kept[i]).path() == key;
            assert(kept[i] == back0[back0.len() - 1 - i]);
        }
    }
}

/// The records of a tree in the order of their paths, each path once.
pub fn sort_entries(entries: Vec<TreeEntry>) -> (out: Vec<TreeEntry>)
    ensures
        in_order(out@),
        records(out@) == records(entries@),
    decreases entries.len(),
{
    if entries.len() < 2 {
        return entries;
    }
    let ghost whole = entries@;
    let half: usize = entries.len() / 2;
    let mut left = entries;
    let right = left.split_off(half);
    proof {
        assert(left@ + right@ =~= whole);
        lemma_records_concat(left@, right@);
    }
    let left = sort_entries(left);
    let right = sort_entries(right);
    merge_entries(left, right)
}

/// How a path differs between two trees, and what it is now, or was where it
/// is gone; nothing for a path that does not differ.
pub open spec fn change_of(
    before: Map<Seq<Seq<u8>>, Summary>,
    after: Map<Seq<Seq<u8>>, Summary>,
    p: Seq<Seq<u8>>,
) -> Option<(ChangeKind, FileKind)> {
    if before.dom().contains(p) && after.dom().contains(p) {
        if before[p] == after[p] {
            None
        } else if before[p].kind == after[p].kind && before[p].payload == after[p].payload {
            Some((ChangeKind::MetadataOnly, after[p].kind))
        } else {
            Some((ChangeKind::Modified, after[p].kind))
        }
    } else if before.dom().contains(p) {
        Some((ChangeKind::Removed, before[p].kind))
    } else if after.dom().contains(p) {
        Some((ChangeKind::Added, after[p].kind))
    } else {
        None
    }
}

/// Whether changes stand in the order of their paths, each path once.
pub open spec fn changes_in_order(changes: Seq<FileChange>) -> bool {
    forall|i: int, j: int|
        0 <= i < j < changes.len() ==> path_lt(
            (#[trigger] changes[i]).path(),
            (#[trigger] changes[j]).path(),
        )
}

/// Whether changes are exactly those between two trees.
pub open spec fn are_changes(
    before: Map<Seq<Seq<u8>>, Summary>,
    after: Map<Seq<Seq<u8>>, Summary>,
    changes: Seq<FileChange>,
) -> bool {
    &&& changes_in_order(changes)
    &&& forall|i: int|
        0 <= i < changes.len() ==> change_of(before, after, (#[trigger] changes[i]).path()) == Some(
            (changes[i].change, changes[i].file_kind),
        )
    &&& forall|p: Seq<Seq<u8>>| #[trigger]
        change_of(before, after, p) is Some ==> listed(changes, p)
}

/// Whether a path is among changes.
pub open spec fn listed(changes: Seq<FileChange>, p: Seq<Seq<u8>>) -> bool {
    exists|i: int| 0 <= i < changes.len() && (#[trigger] changes[i]).path() == p
}

/// Whether changes are what a comparison of two generations tells.
pub open spec fn compares(
    before: GenerationId,
    after: GenerationId,
    before_tree: Seq<TreeEntry>,
    after_tree: Seq<TreeEntry>,
    changes: Seq<FileChange>,
) -> bool {
    if before == after {
        changes.len() == 0
    } else {
        are_changes(records(before_tree), records(after_tree), changes)
    }
}

/// The changes between two ordered lists of records.
fn compare_trees(a: &Vec<TreeEntry>, b: &Vec<TreeEntry>) -> (changes: Vec<FileChange>)
    requires
        in_order(a@),
        in_order(b@),
    ensures
        are_changes(records(a@), records(b@), changes@),
{
    let ghost before = records(a@);
    let ghost after = records(b@);
    let mut changes: Vec<FileChange> = Vec::new();
    let mut i: usize = 0;
    let mut j: usize = 0;
    while i < a.len() || j < b.len()
        invariant
            in_order(a@),
            in_order(b@),
            before == records(a@),
            after == records(b@),
            i <= a@.len(),
            j <= b@.len(),
            changes_in_order(changes@),
            forall|k: int|
                0 <= k < changes@.len() ==> change_of(
                    before,
                    after,
                    (#[trigger] changes@[k]).path(),
                ) == Some((changes@[k].change, changes@[k].file_kind)),
            forall|k: int, x: int|
                0 <= k < changes@.len() && i <= x < a@.len() ==> path_lt(
                    (#[trigger] changes@[k]).path(),
                    (#[trigger] a@[x]).path(),
                ),
            forall|k: int, x: int|
                0 <= k < changes@.len() && j <= x < b@.len() ==> path_lt(
                    (#[trigger] changes@[k]).path(),
                    (#[trigger] b@[x]).path(),
                ),
            forall|x: int, y: int|
                0 <= x < i && j <= y < b@.len() ==> path_lt(
                    (#[trigger] a@[x]).path(),
                    (#[trigger] b@[y]).path(),
                ),
            forall|x: int, y: int|
                i <= x < a@.len() && 0 <= y < j ==> path_lt(
                    (#[trigger] b@[y]).path(),
                    (#[trigger] a@[x]).path(),
                ),
            forall|x: int|
                0 <= x < i && change_of(before, after, (#[trigger] a@[x]).path()) is Some
                    ==> listed(changes@, a@[x].path()),
            forall|x: int|
                0 <= x < j && change_of(before, after, (#[trigger] b@[x]).path()) is Some
                    ==> listed(changes@, b@[x].path()),
        decreases a.len() - i + b.len() - j,
    {
        let rank = if i >= a.len() {
            Rank::Above
        } else if j >= b.len() {
            Rank::Below
        } else {
            rank_paths(&a[i].names, &b[j].names)
        };
        let ghost changes0 = changes@;
        match rank {
            Rank::Below => {
                let ghost p = a@[i as int].path();
                proof {
                    lemma_records_value(a@, i as int);
                    lemma_absent(b@, j as int, p);
                }
                changes.push(
                    FileChange {
                        names: copy_names(&a[i].names),
                        change: ChangeKind::Removed,
                        file_kind: a[i].record.kind,
                    },
                );
                proof {
                    lemma_pushed(a@, b@, i as int, j as int, changes0, changes@, p, true, false);
                }
                i += 1;
            },
            Rank::Above => {
                let ghost p = b@[j as int].path();
                proof {
                    lemma_records_value(b@, j as int);
                    lemma_absent(a@, i as int, p);
                }
                changes.push(
                    FileChange {
                        names: copy_names(&b[j].names),
                        change: ChangeKind::Added,
                        file_kind: b[j].record.kind,
                    },
                );
                proof {
                    lemma_pushed(a@, b@, i as int, j as int, changes0, changes@, p, false, true);
                }
                j += 1;
            },
            Rank::Same => {
                let ghost p = a@[i as int].path();
                proof {
                    lemma_records_value(a@, i as int);
                    lemma_records_value(b@, j as int);
                }
                let x = &a[i].record;
                let y = &b[j].record;
                let content = x.kind == y.kind && same_payload(&x.payload, &y.payload);
                let metadata = bytes_eq(x.metadata.as_slice(), y.metadata.as_slice());
                if !(content && metadata) {
                    changes.push(
                        FileChange {
                            names: copy_names(&b[j].names),
                            change: if content {
                                ChangeKind::MetadataOnly
                            } else {
                                ChangeKind::Modified
                            },
                            file_kind: y.kind,
                        },
                    );
                }
                proof {
                    lemma_pushed(a@, b@, i as int, j as int, changes0, changes@, p, true, true);
                }
                i += 1;
                j += 1;
            },
        }
    }
    proof {
        assert forall|p: Seq<Seq<u8>>| #[trigger]
            change_of(before, after, p) is Some implies listed(changes@, p) by {
            if before.dom().contains(p) {
                lemma_records_domain(a@, p);
                let x = choose|x: int| 0 <= x < a@.len() && (#[trigger] a@[x]).path() == p;
                assert(change_of(before, after, a@[x].path()) is Some);
            } else {
                lemma_records_domain(b@, p);
                let x = choose|x: int| 0 <= x < b@.len() && (#[trigger] b@[x]).path() == p;
                assert(change_of(before, after, b@[x].path()) is Some);
            }
        }
    }
    changes
}

/// A path between two neighbours of an ordered list is not in it.
proof fn lemma_absent(entries: Seq<TreeEntry>, at: int, p: Seq<Seq<u8>>)
    requires
        in_order(entries),
        0 <= at <= entries.len(),
        at < entries.len() ==> path_lt(p, entries[at].path()),
        forall|x: int| 0 <= x < at ==> path_lt((#[trigger] entries[x]).path(), p),
    ensures
        !records(entries).dom().contains(p),
{
    lemma_records_domain(entries, p);
    lemma_path_order(p, p);
    assert forall|x: int| 0 <= x < entries.len() implies (#[trigger] entries[x]).path() != p by {
        if x > at {
            assert(path_lt(entries[at].path(), entries[x].path()));
            lemma_path_transitive(p, entries[at].path(), entries[x].path());
        }
    }
}

/// Taking one path off the front of one list or both keeps everything that was
/// taken below everything that is left.
proof fn lemma_pushed(
    a: Seq<TreeEntry>,
    b: Seq<TreeEntry>,
    i: int,
    j: int,
    changes0: Seq<FileChange>,
    changes: Seq<FileChange>,
    p: Seq<Seq<u8>>,
    from_a: bool,
    from_b: bool,
)
    requires
        in_order(a),
        in_order(b),
        0 <= i <= a.len(),
        0 <= j <= b.len(),
        from_a || from_b,
        from_a ==> i < a.len() && a[i].path() == p,
        from_b ==> j < b.len() && b[j].path() == p,
        !from_a && i < a.len() ==> path_lt(p, a[i].path()),
        !from_b && j < b.len() ==> path_lt(p, b[j].path()),
        changes_in_order(changes0),
        forall|k: int| 0 <= k < changes0.len() ==> changes[k] == changes0[k],
        changes.len() == changes0.len() || (changes.len() == changes0.len() + 1
            && changes.last().path() == p),
        forall|k: int|
            0 <= k < changes0.len() ==> path_lt((#[trigger] changes0[k]).path(), p),
        forall|k: int, x: int|
            0 <= k < changes0.len() && i <= x < a.len() ==> path_lt(
                (#[trigger] changes0[k]).path(),
                (#[trigger] a[x]).path(),
            ),
        forall|k: int, x: int|
            0 <= k < changes0.len() && j <= x < b.len() ==> path_lt(
                (#[trigger] changes0[k]).path(),
                (#[trigger] b[x]).path(),
            ),
        forall|x: int, y: int|
            0 <= x < i && j <= y < b.len() ==> path_lt(
                (#[trigger] a[x]).path(),
                (#[trigger] b[y]).path(),
            ),
        forall|x: int, y: int|
            i <= x < a.len() && 0 <= y < j ==> path_lt(
                (#[trigger] b[y]).path(),
                (#[trigger] a[x]).path(),
            ),
    ensures
        changes_in_order(changes),
        forall|q: Seq<Seq<u8>>| #[trigger] listed(changes0, q) ==> listed(changes, q),
        changes.len() > changes0.len() ==> listed(changes, p),
        ({
            let i1 = if from_a { i + 1 } else { i };
            let j1 = if from_b { j + 1 } else { j };
            &&& forall|k: int, x: int|
                0 <= k < changes.len() && i1 <= x < a.len() ==> path_lt(
                    (#[trigger] changes[k]).path(),
                    (#[trigger] a[x]).path(),
                )
            &&& forall|k: int, x: int|
                0 <= k < changes.len() && j1 <= x < b.len() ==> path_lt(
                    (#[trigger] changes[k]).path(),
                    (#[trigger] b[x]).path(),
                )
            &&& forall|x: int, y: int|
                0 <= x < i1 && j1 <= y < b.len() ==> path_lt(
                    (#[trigger] a[x]).path(),
                    (#[trigger] b[y]).path(),
                )
            &&& forall|x: int, y: int|
                i1 <= x < a.len() && 0 <= y < j1 ==> path_lt(
                    (#[trigger] b[y]).path(),
                    (#[trigger] a[x]).path(),
                )
        }),
{
    let i1 = if from_a { i + 1 } else { i };
    let j1 = if from_b { j + 1 } else { j };
    assert forall|q: Seq<Seq<u8>>| #[trigger] listed(changes0, q) implies listed(changes, q) by {
        let k = choose|k: int| 0 <= k < changes0.len() && (#[trigger] changes0[k]).path() == q;
        assert(changes[k].path() == q);
    }
    if changes.len() > changes0.len() {
        assert(changes[changes.len() - 1].path() == p);
    }
    assert forall|x: int| i1 <= x < a.len() implies path_lt(p, (#[trigger] a[x]).path()) by {
        if from_a {
            assert(path_lt(a[i].path(), a[x].path()));
        } else if x > i {
            assert(path_lt(a[i].path(), a[x].path()));
            lemma_path_transitive(p, a[i].path(), a[x].path());
        }
    }
    assert forall|x: int| j1 <= x < b.len() implies path_lt(p, (#[trigger] b[x]).path()) by {
        if from_b {
            assert(path_lt(b[j].path(), b[x].path()));
        } else if x > j {
            assert(path_lt(b[j].path(), b[x].path()));
            lemma_path_transitive(p, b[j].path(), b[x].path());
        }
    }
    assert forall|k: int, l: int| 0 <= k < l < changes.len() implies path_lt(
        (#[trigger] changes[k]).path(),
        (#[trigger] changes[l]).path(),
    ) by {
        assert(changes[k] == changes0[k]);
        if l < changes0.len() {
            assert(changes[l] == changes0[l]);
        }
    }
    assert forall|k: int, x: int| 0 <= k < changes.len() && i1 <= x < a.len() implies path_lt(
        (#[trigger] changes[k]).path(),
        (#[trigger] a[x]).path(),
    ) by {
        if k < changes0.len() {
            assert(changes[k] == changes0[k]);
        }
    }
    assert forall|k: int, x: int| 0 <= k < changes.len() && j1 <= x < b.len() implies path_lt(
        (#[trigger] changes[k]).path(),
        (#[trigger] b[x]).path(),
    ) by {
        if k < changes0.len() {
            assert(changes[k] == changes0[k]);
        }
    }
}

/// The path-keyed diff from one generation to another, given the records of
/// both. A generation does not differ from itself.
pub fn diff(
    before: GenerationId,
    after: GenerationId,
    before_tree: Vec<TreeEntry>,
    after_tree: Vec<TreeEntry>,
) -> (changes: Vec<FileChange>)
    ensures
        compares(before, after, before_tree@, after_tree@, changes@),
        before == after ==> changes@.len() == 0,
        before != after ==> are_changes(records(before_tree@), records(after_tree@), changes@),
{
    if before.same(&after) {
        return Vec::new();
    }
    let a = sort_entries(before_tree);
    let b = sort_entries(after_tree);
    compare_trees(&a, &b)
}

/// Whether no path stands twice in a tree.
pub open spec fn each_once(tree: Seq<TreeEntry>) -> bool {
    forall|i: int, j: int|
        0 <= i < j < tree.len() ==> (#[trigger] tree[i]).path() != (#[trigger] tree[j]).path()
}

/// Whether a path is in a tree.
pub open spec fn in_tree(tree: Seq<TreeEntry>, p: Seq<Seq<u8>>) -> bool {
    exists|i: int| 0 <= i < tree.len() && (#[trigger] tree[i]).path() == p
}

/// Whether a path is told with a kind of change.
pub open spec fn told_as(changes: Seq<FileChange>, p: Seq<Seq<u8>>, change: ChangeKind) -> bool {
    exists|k: int|
        0 <= k < changes.len() && (#[trigger] changes[k]).path() == p && changes[k].change == change
}

proof fn lemma_once_value(tree: Seq<TreeEntry>, i: int)
    requires
        each_once(tree),
        0 <= i < tree.len(),
    ensures
        records(tree)[tree[i].path()] == tree[i].record@,
    decreases tree.len(),
{
    let rest = tree.drop_last();
    assert(each_once(rest));
    if i < rest.len() {
        assert(rest[i] == tree[i]);
        lemma_once_value(rest, i);
        assert(tree[i].path() != tree[tree.len() - 1].path());
    }
}

/// A comparison tells every path for what became of it, and no path twice: one
/// that only the later tree holds was added, one that only the earlier holds was
/// removed; of one that both hold, nothing is told where the records agree, it
/// was modified where its kind or content differs, and otherwise only what is
/// noted about it changed.
pub proof fn law_comparison_tells_what_became_of_a_path(
    before: GenerationId,
    after: GenerationId,
    before_tree: Seq<TreeEntry>,
    after_tree: Seq<TreeEntry>,
    changes: Seq<FileChange>,
    p: Seq<Seq<u8>>,
)
    requires
        before != after,
        each_once(before_tree),
        each_once(after_tree),
        compares(before, after, before_tree, after_tree, changes),
    ensures
        !in_tree(before_tree, p) && in_tree(after_tree, p) <==> told_as(
            changes,
            p,
            ChangeKind::Added,
        ),
        in_tree(before_tree, p) && !in_tree(after_tree, p) <==> told_as(
            changes,
            p,
            ChangeKind::Removed,
        ),
        forall|i: int, j: int|
            #![trigger before_tree[i], after_tree[j]]
            0 <= i < before_tree.len() && 0 <= j < after_tree.len() && before_tree[i].path() == p
                && after_tree[j].path() == p ==> {
                let (old, new) = (before_tree[i].record@, after_tree[j].record@);
                &&& told_as(changes, p, ChangeKind::Modified) <==> old.kind != new.kind
                    || old.payload != new.payload
                &&& told_as(changes, p, ChangeKind::MetadataOnly) <==> old.kind == new.kind
                    && old.payload == new.payload && old.metadata != new.metadata
            },
        forall|k: int, m: int|
            0 <= k < m < changes.len() ==> (#[trigger] changes[k]).path() != (
            #[trigger] changes[m]).path(),
{
    let (a, b) = (records(before_tree), records(after_tree));
    lemma_records_domain(before_tree, p);
    lemma_records_domain(after_tree, p);
    assert forall|i: int, j: int|
        #![trigger before_tree[i], after_tree[j]]
        0 <= i < before_tree.len() && 0 <= j < after_tree.len() && before_tree[i].path() == p
            && after_tree[j].path() == p implies {
        let (old, new) = (before_tree[i].record@, after_tree[j].record@);
        &&& told_as(changes, p, ChangeKind::Modified) <==> old.kind != new.kind || old.payload
            != new.payload
        &&& told_as(changes, p, ChangeKind::MetadataOnly) <==> old.kind == new.kind && old.payload
            == new.payload && old.metadata != new.metadata
    } by {
        lemma_once_value(before_tree, i);
        lemma_once_value(after_tree, j);
        lemma_told(a, b, changes, p);
    }
    lemma_told(a, b, changes, p);
    assert forall|k: int, m: int| 0 <= k < m < changes.len() implies (#[trigger] changes[k]).path()
        != (#[trigger] changes[m]).path() by {
        crate::order::lemma_path_order(changes[k].path(), changes[m].path());
    }
}

proof fn lemma_told(
    before: Map<Seq<Seq<u8>>, Summary>,
    after: Map<Seq<Seq<u8>>, Summary>,
    changes: Seq<FileChange>,
    p: Seq<Seq<u8>>,
)
    requires
        are_changes(before, after, changes),
    ensures
        forall|change: ChangeKind| #[trigger]
            told_as(changes, p, change) <==> (change_of(before, after, p) matches Some((c, _)) && c
                == change),
{
    assert forall|change: ChangeKind| #[trigger]
        told_as(changes, p, change) <==> (change_of(before, after, p) matches Some((c, _)) && c
            == change) by {
        if told_as(changes, p, change) {
            let k = choose|k: int|
                0 <= k < changes.len() && (#[trigger] changes[k]).path() == p && changes[k].change
                    == change;
            assert(change_of(before, after, changes[k].path()) is Some);
        }
        if change_of(before, after, p) matches Some((c, _)) && c == change {
            assert(listed(changes, p));
            let k = choose|k: int| 0 <= k < changes.len() && (#[trigger] changes[k]).path() == p;
            assert(change_of(before, after, changes[k].path()) == Some(
                (changes[k].change, changes[k].file_kind),
            ));
        }
    }
}

/// A tree does not differ from itself.
pub proof fn law_no_changes_to_itself(tree: Map<Seq<Seq<u8>>, Summary>, p: Seq<Seq<u8>>)
    ensures
        change_of(tree, tree, p) is None,
{
}

/// Seen from the other side, what was added is removed and the other way
/// round, and what was modified still is.
pub proof fn law_changes_reverse(
    before: Map<Seq<Seq<u8>>, Summary>,
    after: Map<Seq<Seq<u8>>, Summary>,
    p: Seq<Seq<u8>>,
)
    ensures
        change_of(before, after, p) is None <==> change_of(after, before, p) is None,
        change_of(before, after, p) matches Some((change, _)) ==> change_of(after, before, p)
            matches Some((back, _)) && match change {
            ChangeKind::Added => back == ChangeKind::Removed,
            ChangeKind::Removed => back == ChangeKind::Added,
            other => back == other,
        },
{
}

/// A kind of change as it is seen from the other side.
pub open spec fn turned(change: ChangeKind) -> ChangeKind {
    match change {
        ChangeKind::Added => ChangeKind::Removed,
        ChangeKind::Removed => ChangeKind::Added,
        other => other,
    }
}

/// Two ordered lists of the same paths are lists of the same paths in the same
/// places.
proof fn lemma_same_paths(a: Seq<FileChange>, b: Seq<FileChange>)
    requires
        changes_in_order(a),
        changes_in_order(b),
        forall|p: Seq<Seq<u8>>| #[trigger] listed(a, p) == listed(b, p),
    ensures
        a.len() == b.len(),
        forall|i: int| 0 <= i < a.len() ==> (#[trigger] a[i]).path() == b[i].path(),
    decreases a.len(),
{
    if a.len() == 0 {
        if b.len() > 0 {
            assert(listed(b, b[0].path()));
            assert(listed(a, b[0].path()));
        }
    } else {
        assert(listed(a, a[a.len() - 1].path()));
        assert(listed(b, a[a.len() - 1].path()));
        let p = a.last().path();
        let q = b.last().path();
        assert(listed(b, b[b.len() - 1].path()));
        assert(listed(a, q));
        let i = choose|i: int| 0 <= i < a.len() && (#[trigger] a[i]).path() == q;
        let j = choose|j: int| 0 <= j < b.len() && (#[trigger] b[j]).path() == p;
        assert(p == q) by {
            lemma_path_order(p, q);
            if i < a.len() - 1 {
                assert(path_lt(a[i].path(), a[a.len() - 1].path()));
            }
            if j < b.len() - 1 {
                assert(path_lt(b[j].path(), b[b.len() - 1].path()));
            }
        }
        let x = a.drop_last();
        let y = b.drop_last();
        assert forall|r: Seq<Seq<u8>>| #[trigger] listed(x, r) == listed(y, r) by {
            lemma_listed_before_last(a, r);
            lemma_listed_before_last(b, r);
            assert(listed(a, r) == listed(b, r));
        }
        assert(changes_in_order(x));
        assert(changes_in_order(y));
        lemma_same_paths(x, y);
        assert forall|k: int| 0 <= k < a.len() implies (#[trigger] a[k]).path() == b[k].path() by {
            if k < a.len() - 1 {
                assert(x[k] == a[k] && y[k] == b[k]);
            }
        }
    }
}

/// A list without its last path lists all others.
proof fn lemma_listed_before_last(changes: Seq<FileChange>, p: Seq<Seq<u8>>)
    requires
        changes_in_order(changes),
        changes.len() > 0,
    ensures
        listed(changes.drop_last(), p) <==> listed(changes, p) && p != changes.last().path(),
{
    let rest = changes.drop_last();
    let last = changes.len() - 1;
    if listed(rest, p) {
        let i = choose|i: int| 0 <= i < rest.len() && (#[trigger] rest[i]).path() == p;
        assert(changes[i].path() == p);
        assert(path_lt(changes[i].path(), changes[last].path()));
        lemma_path_order(p, changes.last().path());
    }
    if listed(changes, p) && p != changes.last().path() {
        let i = choose|i: int| 0 <= i < changes.len() && (#[trigger] changes[i]).path() == p;
        assert(rest[i] == changes[i]);
    }
}

/// The diff from the other side lists the same paths in the same order, what was
/// added as removed and the other way round, and the rest as it was.
pub proof fn law_reverse_diff_turns_each_change(
    before: Map<Seq<Seq<u8>>, Summary>,
    after: Map<Seq<Seq<u8>>, Summary>,
    forth: Seq<FileChange>,
    back: Seq<FileChange>,
)
    requires
        are_changes(before, after, forth),
        are_changes(after, before, back),
    ensures
        back.len() == forth.len(),
        forall|i: int|
            0 <= i < forth.len() ==> (#[trigger] back[i]).path() == forth[i].path()
                && back[i].change == turned(forth[i].change),
{
    assert forall|p: Seq<Seq<u8>>| #[trigger] listed(forth, p) == listed(back, p) by {
        law_changes_reverse(before, after, p);
        if listed(forth, p) {
            let i = choose|i: int| 0 <= i < forth.len() && (#[trigger] forth[i]).path() == p;
            assert(change_of(before, after, forth[i].path()) is Some);
            assert(change_of(after, before, p) is Some);
        }
        if listed(back, p) {
            let i = choose|i: int| 0 <= i < back.len() && (#[trigger] back[i]).path() == p;
            assert(change_of(after, before, back[i].path()) is Some);
            assert(change_of(before, after, p) is Some);
        }
    }
    lemma_same_paths(forth, back);
    assert forall|i: int| 0 <= i < forth.len() implies (#[trigger] back[i]).path()
        == forth[i].path() && back[i].change == turned(forth[i].change) by {
        assert(forth[i].path() == back[i].path());
        law_changes_reverse(before, after, forth[i].path());
    }
}

/// Whether a change is one of content, not of metadata alone.
pub open spec fn content_only() -> spec_fn(FileChange) -> bool {
    |c: FileChange| c.change != ChangeKind::MetadataOnly
}

/// The changes of content among changes.
pub open spec fn content_of(changes: Seq<FileChange>) -> Seq<FileChange> {
    changes.filter(content_only())
}

/// Content changes only. A rewind or restore rewrites times on every path it
/// materializes, so metadata-only changes say nothing of what changed.
pub fn content_changes(changes: Vec<FileChange>) -> (r: Vec<FileChange>)
    ensures
        r@ == content_of(changes@),
{
    let mut back: Vec<FileChange> = Vec::new();
    let mut changes = changes;
    let ghost whole = changes@;
    let ghost keep = content_only();
    while changes.len() > 0
        invariant
            keep == content_only(),
            changes@.len() <= whole.len(),
            changes@ == whole.take(changes@.len() as int),
            changes@.filter(keep) + back@.reverse() == whole.filter(keep),
        decreases changes.len(),
    {
        let ghost rest = changes@.drop_last();
        let ghost last = changes@.last();
        let ghost back0 = back@;
        let ghost all = changes@;
        proof {
            reveal(Seq::filter);
            assert(all.filter(keep) == if keep(last) {
                rest.filter(keep).push(last)
            } else {
                rest.filter(keep)
            });
        }
        if let Some(change) = changes.pop() {
            if change.change != ChangeKind::MetadataOnly {
                back.push(change);
                assert(rest.filter(keep) + back@.reverse() =~= rest.filter(keep).push(last)
                    + back0.reverse());
            }
        }
    }
    proof {
        reveal(Seq::filter);
        assert(changes@.filter(keep) =~= Seq::<FileChange>::empty());
        assert(changes@.filter(keep) + back@.reverse() =~= back@.reverse());
    }
    reversed(back)
}

} // verus!

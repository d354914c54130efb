//! The plan of a three-way merge of a fork onto the current head, and the
//! paths that a change of trees comes down to.
use vstd::prelude::*;
use vstd::utf8::*;
use crate::diff::{changes_in_order, FileChange};
use crate::order::{copy_names, path_lt};
use crate::path::{byte_strings, HostPath};
use crate::text::{chars_of, occurs_at, occurs_here};
use crate::vecs::reversed;

verus! {

/// The largest file that a merge reads unless told otherwise, in bytes.
pub const DEFAULT_MAX_FILE_BYTES: u64 = 4194304;

/// What a merge may read.
#[derive(Clone, Copy, Debug, PartialEq, Eq, Structural)]
pub struct MergeLimits {
    /// The largest file that is merged by content; a bigger one is refused.
    pub max_file_bytes: u64,
}

/// A file that both sides changed and whose changes fit together.
#[derive(Debug)]
pub struct MergedFile {
    pub path: HostPath,
    pub bytes: Vec<u8>,
    pub mode: u32,
}

/// A file that both sides changed in the same place, with markers in it.
#[derive(Debug)]
pub struct ConflictedFile {
    pub path: HostPath,
    pub bytes: Vec<u8>,
    pub mode: u32,
    /// What conflicts, in words.
    pub detail: String,
}

/// A path that cannot be merged, and why.
#[derive(Debug)]
pub struct MergeRefusal {
    pub path: HostPath,
    pub reason: String,
}

/// What promoting a fork comes to, path by path.
#[derive(Debug)]
pub struct MergePlan {
    /// Paths that only the fork changed.
    pub take_ours: Vec<HostPath>,
    /// Paths that only the mainline changed.
    pub take_theirs: Vec<HostPath>,
    pub merged: Vec<MergedFile>,
    pub conflicted: Vec<ConflictedFile>,
    pub refusals: Vec<MergeRefusal>,
}

/// Whether a path is among others.
pub open spec fn among(paths: Seq<HostPath>, p: Seq<u8>) -> bool {
    exists|i: int| 0 <= i < paths.len() && (#[trigger] paths[i])@ == p
}

/// Whether a path is among others.
pub fn is_among(paths: &Vec<HostPath>, p: &HostPath) -> (r: bool)
    ensures
        r == among(paths@, p@),
{
    let mut i: usize = 0;
    while i < paths.len()
        invariant
            i <= paths@.len(),
            forall|j: int| 0 <= j < i ==> (#[trigger] paths@[j])@ != p@,
        decreases paths.len() - i,
    {
        if paths[i].same(p) {
            assert(paths@[i as int]@ == p@);
            return true;
        }
        i += 1;
    }
    false
}

/// The refusals that ignored paths do not account for.
pub open spec fn real_refusals(refusals: Seq<MergeRefusal>, ignored: Seq<HostPath>) -> Seq<
    MergeRefusal,
> {
    refusals.filter(|r: MergeRefusal| !among(ignored, r.path@))
}

/// The conflicts that ignored paths do not account for.
pub open spec fn real_conflicts(files: Seq<ConflictedFile>, ignored: Seq<HostPath>) -> Seq<
    ConflictedFile,
> {
    files.filter(|f: ConflictedFile| !among(ignored, f.path@))
}

/// The contested paths that are ignored: refused ones, then conflicting ones.
pub open spec fn kept_paths(plan: MergePlan, ignored: Seq<HostPath>) -> Seq<Seq<u8>> {
    plan.refusals@.filter(|r: MergeRefusal| among(ignored, r.path@)).map_values(
        |r: MergeRefusal| r.path@,
    ) + plan.conflicted@.filter(|f: ConflictedFile| among(ignored, f.path@)).map_values(
        |f: ConflictedFile| f.path@,
    )
}

/// The paths of a list as bytes.
pub open spec fn path_bytes(paths: Seq<HostPath>) -> Seq<Seq<u8>> {
    paths.map_values(|p: HostPath| p@)
}

impl MergePlan {
    /// A plan with nothing in it.
    pub fn empty() -> (r: MergePlan)
        ensures
            r.take_ours@.len() == 0,
            r.take_theirs@.len() == 0,
            r.merged@.len() == 0,
            r.conflicted@.len() == 0,
            r.refusals@.len() == 0,
    {
        MergePlan {
            take_ours: Vec::new(),
            take_theirs: Vec::new(),
            merged: Vec::new(),
            conflicted: Vec::new(),
            refusals: Vec::new(),
        }
    }

    /// The paths that stand in the way of landing as it is: refused ones, then
    /// conflicting ones.
    pub fn contested(&self) -> (r: Vec<HostPath>)
        ensures
            path_bytes(r@) == self.refusals@.map_values(|x: MergeRefusal| x.path@)
                + self.conflicted@.map_values(|x: ConflictedFile| x.path@),
    {
        let mut out: Vec<HostPath> = Vec::new();
        let mut i: usize = 0;
        while i < self.refusals.len()
            invariant
                i <= self.refusals@.len(),
                path_bytes(out@) =~= self.refusals@.take(i as int).map_values(
                    |x: MergeRefusal| x.path@,
                ),
            decreases self.refusals.len() - i,
        {
            let ghost before = out@;
            out.push(self.refusals[i].path.clone());
            i += 1;
            assert(path_bytes(out@) =~= path_bytes(before).push(self.refusals@[i - 1].path@));
        }
        assert(self.refusals@.take(i as int) =~= self.refusals@);
        let ghost first = path_bytes(out@);
        let mut j: usize = 0;
        while j < self.conflicted.len()
            invariant
                j <= self.conflicted@.len(),
                path_bytes(out@) =~= first + self.conflicted@.take(j as int).map_values(
                    |x: ConflictedFile| x.path@,
                ),
            decreases self.conflicted.len() - j,
        {
            let ghost before = out@;
            out.push(self.conflicted[j].path.clone());
            j += 1;
            assert(path_bytes(out@) =~= path_bytes(before).push(self.conflicted@[j - 1].path@));
        }
        assert(self.conflicted@.take(j as int) =~= self.conflicted@);
        out
    }

    /// Leaves ignored paths to the mainline: a fork's copy of one never blocks
    /// a promote. Returns the paths that were contested and are left.
    pub fn keep_mainline_for(&mut self, ignored: &Vec<HostPath>) -> (kept: Vec<HostPath>)
        ensures
            final(self).refusals@ == real_refusals(old(self).refusals@, ignored@),
            final(self).conflicted@ == real_conflicts(old(self).conflicted@, ignored@),
            path_bytes(kept@) == kept_paths(*old(self), ignored@),
            final(self).take_ours == old(self).take_ours,
            final(self).take_theirs == old(self).take_theirs,
            final(self).merged == old(self).merged,
    {
        let mut kept: Vec<HostPath> = Vec::new();
        let mut refusals: Vec<MergeRefusal> = Vec::new();
        std::mem::swap(&mut refusals, &mut self.refusals);
        let ghost all = refusals@;
        let mut rest = reversed(refusals);
        let mut left: Vec<MergeRefusal> = Vec::new();
        let ghost stays = |r: MergeRefusal| !among(ignored@, r.path@);
        let ghost goes = |r: MergeRefusal| among(ignored@, r.path@);
        let ghost path = |r: MergeRefusal| r.path@;
        proof {
            reveal(Seq::filter);
            assert(all.skip(0) =~= all);
            assert(all.take(0).filter(stays) =~= Seq::<MergeRefusal>::empty());
            assert(all.take(0).filter(goes) =~= Seq::<MergeRefusal>::empty());
        }
        while rest.len() > 0
            invariant
                rest@.len() <= all.len(),
                stays == (|r: MergeRefusal| !among(ignored@, r.path@)),
                goes == (|r: MergeRefusal| among(ignored@, r.path@)),
                path == (|r: MergeRefusal| r.path@),
                rest@ == all.skip(all.len() - rest@.len()).reverse(),
                left@ == all.take(all.len() - rest@.len()).filter(stays),
                path_bytes(kept@) =~= all.take(all.len() - rest@.len()).filter(goes).map_values(
                    path,
                ),
            decreases rest.len(),
        {
            let ghost at = all.len() - rest@.len();
            let ghost kept0 = kept@;
            if let Some(refusal) = rest.pop() {
                proof {
                    reveal(Seq::filter);
                    assert(refusal == all[at]);
                    assert(all.skip(at).reverse().drop_last() =~= all.skip(at + 1).reverse());
                    assert(all.take(at + 1).drop_last() =~= all.take(at));
                    assert(all.take(at + 1).last() == refusal);
                }
                if is_among(ignored, &refusal.path) {
                    kept.push(refusal.path.clone());
                    assert(path_bytes(kept@) =~= path_bytes(kept0).push(refusal.path@));
                    assert(all.take(at + 1).filter(goes).map_values(path) =~= all.take(at).filter(
                        goes,
                    ).map_values(path).push(refusal.path@));
                } else {
                    left.push(refusal);
                }
            }
        }
        assert(all.take(all.len() as int) =~= all);
        self.refusals = left;
        let ghost first = path_bytes(kept@);

        let mut files: Vec<ConflictedFile> = Vec::new();
        std::mem::swap(&mut files, &mut self.conflicted);
        let ghost every = files@;
        let mut more = reversed(files);
        let mut open: Vec<ConflictedFile> = Vec::new();
        let ghost holds = |f: ConflictedFile| !among(ignored@, f.path@);
        let ghost leaves = |f: ConflictedFile| among(ignored@, f.path@);
        let ghost place = |f: ConflictedFile| f.path@;
        proof {
            reveal(Seq::filter);
            assert(every.skip(0) =~= every);
            assert(every.take(0).filter(holds) =~= Seq::<ConflictedFile>::empty());
            assert(every.take(0).filter(leaves) =~= Seq::<ConflictedFile>::empty());
            assert(first + Seq::<ConflictedFile>::empty().map_values(place) =~= first);
        }
        while more.len() > 0
            invariant
                more@.len() <= every.len(),
                holds == (|f: ConflictedFile| !among(ignored@, f.path@)),
                leaves == (|f: ConflictedFile| among(ignored@, f.path@)),
                place == (|f: ConflictedFile| f.path@),
                more@ == every.skip(every.len() - more@.len()).reverse(),
                open@ == every.take(every.len() - more@.len()).filter(holds),
                path_bytes(kept@) =~= first + every.take(every.len() - more@.len()).filter(
                    leaves,
                ).map_values(place),
            decreases more.len(),
        {
            let ghost at = every.len() - more@.len();
            let ghost kept0 = kept@;
            if let Some(file) = more.pop() {
                proof {
                    reveal(Seq::filter);
                    assert(file == every[at]);
                    assert(every.skip(at).reverse().drop_last() =~= every.skip(at + 1).reverse());
                    assert(every.take(at + 1).drop_last() =~= every.take(at));
                    assert(every.take(at + 1).last() == file);
                }
                if is_among(ignored, &file.path) {
                    kept.push(file.path.clone());
                    assert(path_bytes(kept@) =~= path_bytes(kept0).push(file.path@));
                    assert(every.take(at + 1).filter(leaves).map_values(place) =~= every.take(
                        at,
                    ).filter(leaves).map_values(place).push(file.path@));
                } else {
                    open.push(file);
                }
            }
        }
        assert(every.take(every.len() as int) =~= every);
        self.conflicted = open;
        kept
    }

    /// Whether the plan changes nothing, neither in the tree nor in the fork.
    pub open spec fn nothing_lands(&self) -> bool {
        self.take_ours@.len() == 0 && self.merged@.len() == 0 && self.conflicted@.len() == 0
    }

    /// Whether the plan changes nothing.
    pub fn lands_nothing(&self) -> (r: bool)
        ensures
            r == self.nothing_lands(),
    {
        self.take_ours.len() == 0 && self.merged.len() == 0 && self.conflicted.len() == 0
    }

    /// How many paths of the tree the plan writes: the fork's own and the
    /// merged ones.
    pub open spec fn landing(&self) -> nat {
        self.take_ours@.len() + self.merged@.len()
    }

    /// The path of a number among those that the plan writes.
    pub open spec fn landing_path(&self, i: int) -> Seq<u8> {
        if i < self.take_ours@.len() {
            self.take_ours@[i]@
        } else {
            self.merged@[i - self.take_ours@.len()].path@
        }
    }

    /// How many paths of the tree the plan writes, where that can be counted.
    pub fn landing_count(&self) -> (r: Option<usize>)
        ensures
            match r {
                Some(n) => n == self.landing(),
                None => self.landing() > usize::MAX,
            },
    {
        self.take_ours.len().checked_add(self.merged.len())
    }

    /// The path of a number among those that the plan writes.
    pub fn path_to_land(&self, i: usize) -> (r: HostPath)
        requires
            i < self.landing(),
        ensures
            r@ == self.landing_path(i as int),
    {
        if i < self.take_ours.len() {
            self.take_ours[i].clone()
        } else {
            self.merged[i - self.take_ours.len()].path.clone()
        }
    }
}

/// Whether a path is another one or stands below it.
pub open spec fn within(root: Seq<Seq<u8>>, p: Seq<Seq<u8>>) -> bool {
    root.len() <= p.len() && p.take(root.len() as int) == root
}

fn is_within(root: &Vec<Vec<u8>>, p: &Vec<Vec<u8>>) -> (r: bool)
    ensures
        r == within(byte_strings(root@), byte_strings(p@)),
{
    if root.len() > p.len() {
        return false;
    }
    let ghost a = byte_strings(root@);
    let ghost b = byte_strings(p@);
    let mut i: usize = 0;
    while i < root.len()
        invariant
            a == byte_strings(root@),
            b == byte_strings(p@),
            i <= root@.len() <= p@.len(),
            forall|j: int| 0 <= j < i ==> a[j] == b[j],
        decreases root.len() - i,
    {
        assert(a[i as int] == root@[i as int]@);
        assert(b[i as int] == p@[i as int]@);
        if !crate::text::bytes_eq(root[i].as_slice(), p[i].as_slice()) {
            assert(b.take(a.len() as int)[i as int] == b[i as int]);
            return false;
        }
        i += 1;
    }
    assert(b.take(a.len() as int) =~= a);
    true
}

/// Whether roots cover changes: each is a changed path, every changed path is
/// one of them or below one, and none is below another.
pub open spec fn are_roots(changes: Seq<FileChange>, roots: Seq<Vec<Vec<u8>>>) -> bool {
    &&& forall|i: int|
        0 <= i < roots.len() ==> crate::diff::listed(changes, byte_strings((#[trigger] roots[i])@))
    &&& forall|k: int|
        0 <= k < changes.len() ==> covered(roots, (#[trigger] changes[k]).path())
    &&& forall|i: int, j: int|
        0 <= i < roots.len() && 0 <= j < roots.len() && i != j ==> !within(
            byte_strings((#[trigger] roots[i])@),
            byte_strings((#[trigger] roots[j])@),
        )
}

/// Whether a path is one of the roots or below one.
pub open spec fn covered(roots: Seq<Vec<Vec<u8>>>, p: Seq<Seq<u8>>) -> bool {
    exists|i: int| 0 <= i < roots.len() && within(byte_strings((#[trigger] roots[i])@), p)
}

/// A path below another sorts after it.
proof fn lemma_within_sorts_after(root: Seq<Seq<u8>>, p: Seq<Seq<u8>>)
    requires
        within(root, p),
        root != p,
    ensures
        path_lt(root, p),
    decreases root.len(),
{
    if root.len() == 0 {
        if p.len() == 0 {
            assert(root =~= p);
        }
    } else {
        assert(p[0] == p.take(root.len() as int)[0]);
        assert(p.skip(1).take(root.len() - 1) =~= root.skip(1)) by {
            assert(p.take(root.len() as int).skip(1) =~= p.skip(1).take(root.len() - 1));
        }
        if root.skip(1) == p.skip(1) {
            assert(root =~= seq![root[0]] + root.skip(1));
            assert(p =~= seq![p[0]] + p.skip(1));
        }
        lemma_within_sorts_after(root.skip(1), p.skip(1));
    }
}

/// The topmost changed paths: restoring each with all that is below it
/// restores every change.
pub fn subtree_roots(changes: &Vec<FileChange>) -> (roots: Vec<Vec<Vec<u8>>>)
    requires
        changes_in_order(changes@),
    ensures
        are_roots(changes@, roots@),
{
    let mut roots: Vec<Vec<Vec<u8>>> = Vec::new();
    let mut k: usize = 0;
    while k < changes.len()
        invariant
            k <= changes@.len(),
            changes_in_order(changes@),
            forall|i: int|
                0 <= i < roots@.len() ==> exists|m: int|
                    0 <= m < k && (#[trigger] changes@[m]).path() == byte_strings(
                        (#[trigger] roots@[i])@,
                    ),
            forall|m: int| 0 <= m < k ==> covered(roots@, (#[trigger] changes@[m]).path()),
            forall|i: int, j: int|
                0 <= i < roots@.len() && 0 <= j < roots@.len() && i != j ==> !within(
                    byte_strings((#[trigger] roots@[i])@),
                    byte_strings((#[trigger] roots@[j])@),
                ),
        decreases changes.len() - k,
    {
        let ghost p = changes@[k as int].path();
        let mut found = false;
        let mut i: usize = 0;
        while i < roots.len() && !found
            invariant
                i <= roots@.len(),
                k < changes@.len(),
                p == changes@[k as int].path(),
                found ==> covered(roots@, p),
                !found ==> forall|j: int|
                    0 <= j < i ==> !within(byte_strings((#[trigger] roots@[j])@), p),
            decreases roots.len() - i + (if found { 0int } else { 1int }),
        {
            if is_within(&roots[i], &changes[k].names) {
                assert(within(byte_strings(roots@[i as int]@), p));
                found = true;
            } else {
                i += 1;
            }
        }
        let ghost before = roots@;
        if !found {
            roots.push(copy_names(&changes[k].names));
            proof {
                let last = roots@.len() - 1;
                assert(byte_strings(roots@[last]@) == p);
                assert(within(p, p)) by {
                    assert(p.take(p.len() as int) =~= p);
                }
                assert(covered(roots@, p)) by {
                    assert(within(byte_strings(roots@[last]@), p));
                }
                assert forall|m: int| 0 <= m < k implies covered(
                    roots@,
                    (#[trigger] changes@[m]).path(),
                ) by {
                    assert(covered(before, changes@[m].path()));
                    let j = choose|j: int|
                        0 <= j < before.len() && within(
                            byte_strings((#[trigger] before[j])@),
                            changes@[m].path(),
                        );
                    assert(roots@[j] == before[j]);
                }
                assert forall|a: int, b: int|
                    0 <= a < roots@.len() && 0 <= b < roots@.len() && a != b implies !within(
                    byte_strings((#[trigger] roots@[a])@),
                    byte_strings((#[trigger] roots@[b])@),
                ) by {
                    if a == last {
                        let q = byte_strings(before[b]@);
                        let m = choose|m: int| 0 <= m < k && (#[trigger] changes@[m]).path() == q;
                        assert(path_lt(changes@[m].path(), changes@[k as int].path()));
                        crate::order::lemma_path_order(q, p);
                        if within(p, q) {
                            lemma_within_sorts_after(p, q);
                        }
                    } else if b == last {
                        assert(roots@[a] == before[a]);
                    } else {
                        assert(roots@[a] == before[a]);
                        assert(roots@[b] == before[b]);
                    }
                }
                assert forall|i: int| 0 <= i < roots@.len() implies exists|m: int|
                    0 <= m < k + 1 && (#[trigger] changes@[m]).path() == byte_strings(
                        (#[trigger] roots@[i])@,
                    ) by {
                    if i == last {
                        assert(changes@[k as int].path() == byte_strings(roots@[i]@));
                    } else {
                        assert(roots@[i] == before[i]);
                        let m = choose|m: int|
                            0 <= m < k && (#[trigger] changes@[m]).path() == byte_strings(
                                before[i]@,
                            );
                        assert(changes@[m].path() == byte_strings(roots@[i]@));
                    }
                }
            }
        } else {
            proof {
                assert forall|i: int| 0 <= i < roots@.len() implies exists|m: int|
                    0 <= m < k + 1 && (#[trigger] changes@[m]).path() == byte_strings(
                        (#[trigger] roots@[i])@,
                    ) by {
                    let m = choose|m: int|
                        0 <= m < k && (#[trigger] changes@[m]).path() == byte_strings(roots@[i]@);
                    assert(changes@[m].path() == byte_strings(roots@[i]@));
                }
            }
        }
        k += 1;
    }
    roots
}

/// Whether a line of a text begins at a position.
pub open spec fn line_starts(s: Seq<char>, at: int) -> bool {
    at == 0 || (0 < at <= s.len() && s[at - 1] == '\n')
}

/// Whether a line of a text begins with a marker.
pub open spec fn has_marker(s: Seq<char>, marker: Seq<char>) -> bool {
    exists|at: int| #[trigger] occurs_at(s, marker, at) && line_starts(s, at)
}

/// Whether a text holds conflict markers: a line that begins with one that
/// opens a conflict, names its base or closes it.
pub open spec fn marked(s: Seq<char>) -> bool {
    has_marker(s, "<<<<<<<"@) || has_marker(s, "|||||||"@) || has_marker(s, ">>>>>>>"@)
}

/// Whether a line of a text begins at a position with seven of a character.
pub open spec fn seven_at(s: Seq<char>, at: int, c: char) -> bool {
    &&& 0 <= at
    &&& at + 7 <= s.len()
    &&& at == 0 || s[at - 1] == '\n'
    &&& forall|k: int| at <= k < at + 7 ==> #[trigger] s[k] == c
}

proof fn lemma_seven(s: Seq<char>, marker: Seq<char>, c: char)
    requires
        marker.len() == 7,
        forall|k: int| 0 <= k < 7 ==> #[trigger] marker[k] == c,
    ensures
        has_marker(s, marker) <==> exists|at: int| #[trigger] seven_at(s, at, c),
{
    if has_marker(s, marker) {
        let at = choose|at: int| #[trigger] occurs_at(s, marker, at) && line_starts(s, at);
        assert forall|k: int| at <= k < at + 7 implies #[trigger] s[k] == c by {
            assert(s.subrange(at, at + 7)[k - at] == marker[k - at]);
        }
        assert(seven_at(s, at, c));
    }
    if exists|at: int| #[trigger] seven_at(s, at, c) {
        let at = choose|at: int| #[trigger] seven_at(s, at, c);
        assert(s.subrange(at, at + 7) =~= marker) by {
            assert forall|k: int| 0 <= k < 7 implies s.subrange(at, at + 7)[k] == marker[k] by {
                assert(s[at + k] == c);
            }
        }
        assert(occurs_at(s, marker, at) && line_starts(s, at));
    }
}

/// A text is taken for unresolved exactly if a line of it begins with seven
/// opening angles, seven bars or seven closing angles.
pub proof fn law_markers_are_lines_of_seven(s: Seq<char>)
    ensures
        marked(s) <==> exists|at: int, c: char|
            (c == '<' || c == '|' || c == '>') && #[trigger] seven_at(s, at, c),
{
    reveal_strlit("<<<<<<<");
    reveal_strlit("|||||||");
    reveal_strlit(">>>>>>>");
    lemma_seven(s, "<<<<<<<"@, '<');
    lemma_seven(s, "|||||||"@, '|');
    lemma_seven(s, ">>>>>>>"@, '>');
}

fn line_with(s: &[char], marker: &[char]) -> (r: bool)
    requires
        marker@.len() > 0,
    ensures
        r == has_marker(s@, marker@),
{
    let mut at: usize = 0;
    while at < s.len()
        invariant
            at <= s@.len(),
            marker@.len() > 0,
            forall|j: int| 0 <= j < at ==> !(occurs_at(s@, marker@, j) && line_starts(s@, j)),
        decreases s.len() - at,
    {
        if (at == 0 || s[at - 1] == '\n') && occurs_here(s, marker, at) {
            assert(occurs_at(s@, marker@, at as int));
            return true;
        }
        at += 1;
    }
    assert(forall|j: int| s@.len() <= j ==> !occurs_at(s@, marker@, j));
    false
}

/// Whether a text holds conflict markers.
pub fn has_conflict_markers(text: &str) -> (r: bool)
    ensures
        r == marked(text@),
{
    let s = chars_of(text);
    let open = chars_of("<<<<<<<");
    let base = chars_of("|||||||");
    let close = chars_of(">>>>>>>");
    proof {
        reveal_strlit("<<<<<<<");
        reveal_strlit("|||||||");
        reveal_strlit(">>>>>>>");
    }
    line_with(s.as_slice(), open.as_slice()) || line_with(s.as_slice(), base.as_slice())
        || line_with(s.as_slice(), close.as_slice())
}

/// `String::from_utf8` of std: the text of bytes that are UTF-8, nothing for
/// others.
#[verifier::external_body]
fn utf8_text(bytes: &[u8]) -> (r: Option<String>)
    ensures
        r is Some <==> valid_utf8(bytes@),
        r matches Some(text) ==> text@ == decode_utf8(bytes@),
{
    String::from_utf8(bytes.to_vec()).ok()
}

/// Whether content still holds conflict markers. A deleted file and one that
/// is no text do not.
pub open spec fn unresolved_content(content: Option<Vec<u8>>) -> bool {
    content matches Some(bytes) && valid_utf8(bytes@) && marked(decode_utf8(bytes@))
}

/// Whether content still holds conflict markers.
pub fn is_unresolved(content: &Option<Vec<u8>>) -> (r: bool)
    ensures
        r == unresolved_content(*content),
{
    match content {
        Some(bytes) => match utf8_text(bytes.as_slice()) {
            Some(text) => has_conflict_markers(text.as_str()),
            None => false,
        },
        None => false,
    }
}

} // verus!

//! Full-tree rewind: the names it works under, what its journal says in each
//! phase, and what it makes of the exchange of the two trees.
use vstd::prelude::*;
use crate::digest::{generation_hex, hex_of, GenerationId};
use crate::error::EngineError;
use crate::path::{
    file_name_of, from_utf8_lossy, joined, law_joined_name_is_file_name, law_joined_parent,
    lemma_encoded_length, lemma_no_slash_bytes, lossy_text, parent_of, stem, HostPath, DOT,
};
use crate::product::NAME;
use crate::recovery::{Journal, Phase};
use crate::text::{
    chars_of, decimal_nat, push_nat, push_wide, text_begins, text_eq, text_of,
};
use vstd::slice::slice_subrange;
use vstd::utf8::*;

verus! {

/// What a completed rewind reports back.
#[derive(Debug, PartialEq, Eq)]
pub struct RewindOutcome {
    pub restored: GenerationId,
    /// Where the replaced tree is kept.
    pub old_tree: HostPath,
    /// User-facing caveat.
    pub warning: &'static str,
}

/// What a user with open editors is told after a rewind.
pub const RELOAD_WARNING: &'static str =
    "reload your editor: open files still point at the replaced tree";

/// A hidden name beside the repository: a full stop, the repository's name,
/// then what the product keeps there.
pub open spec fn hidden_name(name: Seq<char>, suffix: Seq<char>) -> Seq<char> {
    "."@ + name + "."@ + NAME@ + suffix
}

/// A hidden path beside the repository.
pub open spec fn hidden_sibling(repo: Seq<u8>, suffix: Seq<char>) -> Seq<u8> {
    joined(
        parent_of(repo)->0,
        encode_utf8(hidden_name(lossy_text(file_name_of(repo)->0), suffix)),
    )
}

/// A hidden name beside the repository.
pub fn hidden(name: &str, suffix: &str) -> (r: String)
    ensures
        r@ == hidden_name(name@, suffix@),
{
    let mut out = ".".to_owned();
    out.append(name);
    out.append(".");
    out.append(NAME);
    out.append(suffix);
    out
}

/// The directory that holds the repository, and the repository's name in it.
fn home(repo: &HostPath, what: &str) -> (r: Result<(HostPath, String), EngineError>)
    ensures
        match r {
            Ok((parent, name)) => {
                &&& parent_of(repo@) == Some(parent@)
                &&& file_name_of(repo@) is Some
                &&& name@ == lossy_text(file_name_of(repo@)->0)
            },
            Err(EngineError::Restore(text)) => if parent_of(repo@) is None {
                text@ == what@ + " has no parent"@
            } else {
                file_name_of(repo@) is None && text@ == what@ + " has no name"@
            },
            Err(_) => false,
        },
{
    let parent = match repo.parent() {
        Some(parent) => parent,
        None => {
            let mut text = what.to_owned();
            text.append(" has no parent");
            return Err(EngineError::Restore(text));
        },
    };
    match repo.file_name() {
        Some(name) => Ok((parent, from_utf8_lossy(name.as_slice()))),
        None => {
            let mut text = what.to_owned();
            text.append(" has no name");
            Err(EngineError::Restore(text))
        },
    }
}

/// A rewind that is ready to materialize its target.
#[derive(Debug)]
pub struct PreparedRewind {
    pub repo_root: HostPath,
    pub target: GenerationId,
    pub tmp: HostPath,
    pub parent: HostPath,
    pub name: String,
    /// Excluded paths that the live tree holds; no checkpoint does, so the
    /// working copy is the only one.
    pub carried: Vec<HostPath>,
    pub trash_ttl_days: u32,
}

/// What stands after the name in the path that a process materializes under.
pub open spec fn tmp_suffix(pid: int) -> Seq<char> {
    "-tmp-"@ + decimal_nat(pid as nat)
}

/// Prepares a rewind of a repository to a generation by the process `pid`.
pub fn prepare(repo_root: HostPath, target: GenerationId, pid: u32, trash_ttl_days: u32) -> (r:
    Result<PreparedRewind, EngineError>)
    ensures
        match r {
            Ok(p) => {
                &&& p.repo_root == repo_root
                &&& p.target == target
                &&& p.trash_ttl_days == trash_ttl_days
                &&& parent_of(repo_root@) == Some(p.parent@)
                &&& file_name_of(repo_root@) is Some
                &&& p.name@ == lossy_text(file_name_of(repo_root@)->0)
                &&& p.tmp@ == hidden_sibling(repo_root@, tmp_suffix(pid as int))
                &&& p.carried@.len() == 0
            },
            Err(EngineError::Restore(text)) => if parent_of(repo_root@) is None {
                text@ == "repo root"@ + " has no parent"@
            } else {
                file_name_of(repo_root@) is None && text@ == "repo root"@ + " has no name"@
            },
            Err(_) => false,
        },
{
    let (parent, name) = match home(&repo_root, "repo root") {
        Ok(found) => found,
        Err(error) => {
            return Err(error);
        },
    };
    let mut suffix = "-tmp-".to_owned();
    push_nat(&mut suffix, pid as u64);
    let tmp = parent.join(hidden(name.as_str(), suffix.as_str()).as_str());
    Ok(
        PreparedRewind {
            repo_root,
            target,
            tmp,
            parent,
            name,
            carried: Vec::new(),
            trash_ttl_days,
        },
    )
}

/// Whether a journal is that of a phase of a prepared rewind.
pub open spec fn is_journal(p: PreparedRewind, phase: Phase, j: Journal) -> bool {
    &&& j.target_generation@ == hex_of(p.target@)
    &&& j.repo_root@ == p.repo_root@
    &&& j.tmp@ == p.tmp@
    &&& j.phase == phase
    &&& phase == Phase::Materializing ==> j.carried@.len() == 0
    &&& phase != Phase::Materializing ==> j.carried@.len() == p.carried@.len() && forall|i: int|
        0 <= i < j.carried@.len() ==> (#[trigger] j.carried@[i])@ == p.carried@[i]@
}

impl PreparedRewind {
    /// The journal of a phase: the carried paths are named once the target is
    /// complete.
    pub fn journal(&self, phase: Phase) -> (r: Journal)
        ensures
            is_journal(*self, phase, r),
            r.target_generation@ == hex_of(self.target@),
            r.repo_root@ == self.repo_root@,
            r.tmp@ == self.tmp@,
            r.phase == phase,
            phase == Phase::Materializing ==> r.carried@.len() == 0,
            phase != Phase::Materializing ==> r.carried@.len() == self.carried@.len()
                && forall|i: int|
                0 <= i < r.carried@.len() ==> (#[trigger] r.carried@[i])@ == self.carried@[i]@,
    {
        let mut carried: Vec<HostPath> = Vec::new();
        if phase != Phase::Materializing {
            let mut i: usize = 0;
            while i < self.carried.len()
                invariant
                    i <= self.carried@.len(),
                    carried@.len() == i,
                    forall|j: int|
                        0 <= j < i ==> (#[trigger] carried@[j])@ == self.carried@[j]@,
                decreases self.carried.len() - i,
            {
                carried.push(self.carried[i].clone());
                i += 1;
            }
        }
        Journal {
            target_generation: generation_hex(self.target),
            repo_root: self.repo_root.clone(),
            tmp: self.tmp.clone(),
            phase,
            carried,
        }
    }

    /// Notes that an excluded path is to be carried over, if the live tree
    /// holds it.
    pub fn carry(&mut self, excluded: HostPath, present: bool)
        ensures
            carries(*old(self), excluded, present, *final(self)),
            final(self).carried@ == if present {
                old(self).carried@.push(excluded)
            } else {
                old(self).carried@
            },
            final(self).repo_root == old(self).repo_root,
            final(self).target == old(self).target,
            final(self).tmp == old(self).tmp,
            final(self).parent == old(self).parent,
            final(self).name == old(self).name,
            final(self).trash_ttl_days == old(self).trash_ttl_days,
    {
        if present {
            self.carried.push(excluded);
        }
    }

    /// The tree to park after the exchange, given whether the target is in
    /// place and where the exchange says the old tree went.
    pub fn displaced(&self, published: bool, displaced: Option<HostPath>) -> (r: Result<
        HostPath,
        EngineError,
    >)
        ensures
            displaces(*self, published, displaced, r),
            match r {
                Ok(tree) => published && tree@ == match displaced {
                    Some(path) => path@,
                    None => self.tmp@,
                },
                Err(EngineError::Restore(text)) => !published && text@
                    == "native exchange recovered without publishing the target tree"@,
                Err(_) => false,
            },
    {
        if !published {
            return Err(
                EngineError::Restore(
                    "native exchange recovered without publishing the target tree".to_owned(),
                ),
            );
        }
        match displaced {
            Some(path) => Ok(path),
            None => Ok(self.tmp.clone()),
        }
    }

    /// What the rewind reports when the old tree has been parked.
    pub fn outcome(self, old_tree: HostPath) -> (r: RewindOutcome)
        ensures
            r.restored == self.target,
            r.old_tree == old_tree,
            r.warning@ == RELOAD_WARNING@,
    {
        RewindOutcome { restored: self.target, old_tree, warning: RELOAD_WARNING }
    }
}

/// What stands after the name in the path of a parked tree: when, by which
/// process, and the how manieth of it.
pub open spec fn trash_suffix(stamp: int, pid: int, sequence: int) -> Seq<char> {
    "-trash-"@ + decimal_nat(stamp as nat) + "-"@ + decimal_nat(pid as nat) + "-"@ + decimal_nat(
        sequence as nat,
    )
}

/// Whether a directory is written without a separator or a lone dot after it.
pub open spec fn no_separator_after(directory: Seq<u8>) -> bool {
    stem(directory) == directory
}

proof fn lemma_digits_hold_no_slash(n: nat)
    ensures
        !decimal_nat(n).contains('/'),
{
    crate::text::lemma_decimal_digits(n);
}

proof fn lemma_parked_below(
    parent: Seq<u8>,
    name: Seq<char>,
    stamp: int,
    pid: int,
    sequence: int,
)
    requires
        !name.contains('/'),
    ensures
        file_name_of(
            joined(parent, encode_utf8(hidden_name(name, trash_suffix(stamp, pid, sequence)))),
        ) == Some(encode_utf8(hidden_name(name, trash_suffix(stamp, pid, sequence)))),
        no_separator_after(parent) ==> parent_of(
            joined(parent, encode_utf8(hidden_name(name, trash_suffix(stamp, pid, sequence)))),
        ) == Some(parent),
{
    let hidden = hidden_name(name, trash_suffix(stamp, pid, sequence));
    lemma_digits_hold_no_slash(stamp as nat);
    lemma_digits_hold_no_slash(pid as nat);
    lemma_digits_hold_no_slash(sequence as nat);
    reveal_strlit(".");
    reveal_strlit("acyclic");
    reveal_strlit("-trash-");
    reveal_strlit("-");
    assert(!hidden.contains('/'));
    lemma_no_slash_bytes(hidden);
    lemma_encoded_length(hidden);
    law_joined_name_is_file_name(parent, encode_utf8(hidden));
    if no_separator_after(parent) {
        law_joined_parent(parent, encode_utf8(hidden));
    }
}

/// Where a replaced tree is parked: beside the repository, so that the rename
/// stays on its volume.
pub fn parked_path(parent: &HostPath, name: &str, stamp: u128, pid: u32, sequence: u64) -> (r:
    HostPath)
    ensures
        r@ == joined(
            parent@,
            encode_utf8(
                hidden_name(name@, trash_suffix(stamp as int, pid as int, sequence as int)),
            ),
        ),
        !name@.contains('/') ==> file_name_of(r@) == Some(
            encode_utf8(
                hidden_name(name@, trash_suffix(stamp as int, pid as int, sequence as int)),
            ),
        ),
        !name@.contains('/') && no_separator_after(parent@) ==> parent_of(r@) == Some(parent@),
{
    proof {
        if !name@.contains('/') {
            lemma_parked_below(parent@, name@, stamp as int, pid as int, sequence as int);
        }
    }
    let mut suffix = "-trash-".to_owned();
    push_wide(&mut suffix, stamp);
    suffix.append("-");
    push_nat(&mut suffix, pid as u64);
    suffix.append("-");
    push_nat(&mut suffix, sequence);
    parent.join(hidden(name, suffix.as_str()).as_str())
}

/// A process never parks two trees under one name: the numbers that it counts
/// up differ, and so do the names.
pub proof fn law_parked_names_differ(
    name: Seq<char>,
    stamp: int,
    pid: int,
    sequence: int,
    other_stamp: int,
    other_pid: int,
    other_sequence: int,
)
    requires
        stamp >= 0,
        pid >= 0,
        sequence >= 0,
        other_stamp >= 0,
        other_pid >= 0,
        other_sequence >= 0,
        hidden_name(name, trash_suffix(stamp, pid, sequence)) == hidden_name(
            name,
            trash_suffix(other_stamp, other_pid, other_sequence),
        ),
    ensures
        sequence == other_sequence,
        pid == other_pid,
        stamp == other_stamp,
{
    let head = "."@ + name + "."@ + NAME@;
    let s = trash_suffix(stamp, pid, sequence);
    let t = trash_suffix(other_stamp, other_pid, other_sequence);
    assert(s =~= (head + s).skip(head.len() as int));
    assert(t =~= (head + t).skip(head.len() as int));
    assert(s == t);
    reveal_strlit("-");
    assert("-"@ =~= seq!['-']);
    let a = "-trash-"@ + decimal_nat(stamp as nat) + "-"@ + decimal_nat(pid as nat);
    let b = "-trash-"@ + decimal_nat(other_stamp as nat) + "-"@ + decimal_nat(other_pid as nat);
    crate::text::lemma_decimal_digits(sequence as nat);
    crate::text::lemma_decimal_digits(other_sequence as nat);
    crate::text::lemma_decimal_digits(pid as nat);
    crate::text::lemma_decimal_digits(other_pid as nat);
    assert(s =~= a.push('-') + decimal_nat(sequence as nat));
    assert(t =~= b.push('-') + decimal_nat(other_sequence as nat));
    crate::text::lemma_after_last(
        a,
        b,
        decimal_nat(sequence as nat),
        decimal_nat(other_sequence as nat),
        '-',
    );
    crate::text::lemma_decimal_differs(sequence as nat, other_sequence as nat);
    let c = "-trash-"@ + decimal_nat(stamp as nat);
    let d = "-trash-"@ + decimal_nat(other_stamp as nat);
    assert(a =~= c.push('-') + decimal_nat(pid as nat));
    assert(b =~= d.push('-') + decimal_nat(other_pid as nat));
    crate::text::lemma_after_last(
        c,
        d,
        decimal_nat(pid as nat),
        decimal_nat(other_pid as nat),
        '-',
    );
    crate::text::lemma_decimal_differs(pid as nat, other_pid as nat);
    assert(decimal_nat(stamp as nat) =~= c.skip("-trash-"@.len() as int));
    assert(decimal_nat(other_stamp as nat) =~= d.skip("-trash-"@.len() as int));
    crate::text::lemma_decimal_differs(stamp as nat, other_stamp as nat);
}

/// Nor does it park two trees in one place: the paths differ with the numbers,
/// for every directory and every name without a separator.
pub proof fn law_parked_paths_differ(
    parent: Seq<u8>,
    name: Seq<char>,
    stamp: int,
    pid: int,
    sequence: int,
    other_stamp: int,
    other_pid: int,
    other_sequence: int,
)
    requires
        stamp >= 0,
        pid >= 0,
        sequence >= 0,
        other_stamp >= 0,
        other_pid >= 0,
        other_sequence >= 0,
        !name.contains('/'),
        sequence != other_sequence || pid != other_pid || stamp != other_stamp,
    ensures
        joined(parent, encode_utf8(hidden_name(name, trash_suffix(stamp, pid, sequence))))
            != joined(
            parent,
            encode_utf8(
                hidden_name(name, trash_suffix(other_stamp, other_pid, other_sequence)),
            ),
        ),
{
    let a = hidden_name(name, trash_suffix(stamp, pid, sequence));
    let b = hidden_name(name, trash_suffix(other_stamp, other_pid, other_sequence));
    lemma_parked_below(parent, name, stamp, pid, sequence);
    lemma_parked_below(parent, name, other_stamp, other_pid, other_sequence);
    if joined(parent, encode_utf8(a)) == joined(parent, encode_utf8(b)) {
        encode_utf8_decode_utf8(a);
        encode_utf8_decode_utf8(b);
        law_parked_names_differ(
            name,
            stamp,
            pid,
            sequence,
            other_stamp,
            other_pid,
            other_sequence,
        );
    }
}

/// What is said of a replaced tree that could not be parked.
pub fn park_failure(path: &HostPath, error: &str) -> (r: String)
    ensures
        r@ == "rewind: park the replaced tree at "@ + lossy_text(path@) + ": "@ + error@,
{
    let mut text = "rewind: park the replaced tree at ".to_owned();
    text.append(path.display().as_str());
    text.append(": ");
    text.append(error);
    text
}

/// Where a note is kept beside the repository that says where its journal is,
/// while the repository itself may have no name.
pub fn locator_path(repo_root: &HostPath) -> (r: Result<HostPath, EngineError>)
    ensures
        match r {
            Ok(path) => parent_of(repo_root@) is Some && file_name_of(repo_root@) is Some && path@
                == hidden_sibling(repo_root@, "-rewind.json"@),
            Err(EngineError::Restore(text)) => if parent_of(repo_root@) is None {
                text@ == "rewind repo root"@ + " has no parent"@
            } else {
                file_name_of(repo_root@) is None && text@ == "rewind repo root"@ + " has no name"@
            },
            Err(_) => false,
        },
{
    match home(repo_root, "rewind repo root") {
        Ok((parent, name)) => Ok(parent.join(hidden(name.as_str(), "-rewind.json").as_str())),
        Err(error) => Err(error),
    }
}

/// The name that a two-step exchange moves the repository through; derived
/// from the repository, so that recovery can name it.
pub fn swap_scratch(repo_root: &HostPath) -> (r: Option<HostPath>)
    ensures
        match r {
            Some(path) => parent_of(repo_root@) is Some && file_name_of(repo_root@) is Some && path@
                == hidden_sibling(repo_root@, "-swap"@),
            None => parent_of(repo_root@) is None || file_name_of(repo_root@) is None,
        },
{
    match home(repo_root, "repo root") {
        Ok((parent, name)) => Some(parent.join(hidden(name.as_str(), "-swap").as_str())),
        Err(_) => None,
    }
}

/// Whether a name is the one that a repository of another name is moved through
/// by a two-step exchange.
pub open spec fn is_swap_name(name: Seq<char>, original: Seq<char>) -> bool {
    name == hidden_name(original, "-swap"@)
}

/// The repository whose tree stands on its scratch name, for a path with such a
/// name: a caller in the directory that an interrupted exchange moved aside
/// finds the repository by it.
pub fn swapped_repo(path: &HostPath) -> (r: Option<HostPath>)
    ensures
        match r {
            Some(repo) => exists|original: Seq<char>|
                parent_of(path@) is Some && file_name_of(path@) is Some && #[trigger] is_swap_name(
                    lossy_text(file_name_of(path@)->0),
                    original,
                ) && repo@ == joined(parent_of(path@)->0, encode_utf8(original)),
            None => parent_of(path@) is Some && file_name_of(path@) is Some ==> forall|
                original: Seq<char>,
            | !#[trigger] is_swap_name(lossy_text(file_name_of(path@)->0), original),
        },
{
    let (parent, name) = match home(path, "repo root") {
        Ok(found) => found,
        Err(_) => {
            return None;
        },
    };
    let chars = chars_of(name.as_str());
    let frame = chars_of(hidden("", "-swap").as_str());
    proof {
        reveal_strlit(".");
        reveal_strlit("");
        assert forall|original: Seq<char>| #[trigger] is_swap_name(name@, original) implies
            name@.len() == frame@.len() + original.len() && original =~= name@.subrange(
                1,
                name@.len() - frame@.len() + 1,
            ) by {}
    }
    if chars.len() < frame.len() || frame.len() == 0 {
        return None;
    }
    let end: usize = chars.len() - frame.len() + 1;
    let original = text_of(slice_subrange(chars.as_slice(), 1, end));
    if text_eq(hidden(original.as_str(), "-swap").as_str(), name.as_str()) {
        assert(is_swap_name(name@, original@));
        Some(parent.join(original.as_str()))
    } else {
        None
    }
}

/// Where a repository would stand that is not there: the directory to resolve
/// and the name in it. The directory of a bare name is the current one.
pub fn missing_repo_home(repo_root: &HostPath) -> (r: Result<(HostPath, Vec<u8>), EngineError>)
    ensures
        match r {
            Ok((parent, name)) => {
                &&& parent_of(repo_root@) matches Some(p) && parent@ == if p.len() == 0 {
                    seq![DOT]
                } else {
                    p
                }
                &&& file_name_of(repo_root@) == Some(name@)
            },
            Err(EngineError::Restore(text)) => if parent_of(repo_root@) is None {
                text@ == "rewind repo root has no parent"@
            } else {
                file_name_of(repo_root@) is None && text@ == "rewind repo root has no name"@
            },
            Err(_) => false,
        },
{
    let mut parent = match repo_root.parent() {
        Some(parent) => parent,
        None => {
            return Err(EngineError::Restore("rewind repo root has no parent".to_owned()));
        },
    };
    if parent.bytes.len() == 0 {
        parent.bytes.push(DOT);
        assert(parent@ =~= seq![DOT]);
    }
    match repo_root.file_name() {
        Some(name) => Ok((parent, name)),
        None => Err(EngineError::Restore("rewind repo root has no name".to_owned())),
    }
}

/// A note must name the repository beside which it was found.
pub fn check_locator(noted: &HostPath, canonical: &HostPath) -> (r: Result<(), EngineError>)
    ensures
        r is Ok <==> noted@ == canonical@,
        r matches Err(error) ==> error matches EngineError::Restore(text) && text@
            == "rewind locator repo mismatch"@,
{
    if noted.same(canonical) {
        Ok(())
    } else {
        Err(EngineError::Restore("rewind locator repo mismatch".to_owned()))
    }
}

/// Whether the prepared tree is still to be published: the journal says that it
/// was complete.
pub open spec fn publishes(published: bool, journal: Option<Journal>) -> bool {
    !published && (journal matches Some(j) && j.phase == Phase::RestoringHead)
}

/// What is left to do for the working tree once the head has been recovered:
/// publish the prepared tree if the journal says that it was complete.
pub fn must_publish(published: bool, journal: &Option<Journal>) -> (r: bool)
    ensures
        r == publishes(published, *journal),
{
    if published {
        return false;
    }
    match journal {
        Some(j) => j.phase == Phase::RestoringHead,
        None => false,
    }
}

/// The tree to park after such a publication, with the directory and the name
/// to park it under; nothing where no tree was displaced.
pub fn recovered_displaced(repo_root: &HostPath, published: bool, displaced: Option<HostPath>) -> (r:
    Result<Option<(HostPath, HostPath, String)>, EngineError>)
    ensures
        match r {
            Ok(None) => published && displaced is None,
            Ok(Some((tree, parent, name))) => {
                &&& published
                &&& displaced == Some(tree)
                &&& parent_of(repo_root@) == Some(parent@)
                &&& file_name_of(repo_root@) is Some
                &&& name@ == lossy_text(file_name_of(repo_root@)->0)
            },
            Err(EngineError::Restore(text)) => if !published {
                text@ == "rewind recovery did not publish prepared tree"@
            } else {
                displaced is Some && if parent_of(repo_root@) is None {
                    text@ == "rewind repo root"@ + " has no parent"@
                } else {
                    file_name_of(repo_root@) is None && text@ == "rewind repo root"@
                        + " has no name"@
                }
            },
            Err(_) => false,
        },
{
    if !published {
        return Err(
            EngineError::Restore("rewind recovery did not publish prepared tree".to_owned()),
        );
    }
    match displaced {
        None => Ok(None),
        Some(tree) => match home(repo_root, "rewind repo root") {
            Ok((parent, name)) => Ok(Some((tree, parent, name))),
            Err(error) => Err(error),
        },
    }
}

/// Nanoseconds in a day.
pub const DAY_NANOS: u128 = 86_400_000_000_000;

/// Whether something parked has outlived the days it is kept.
pub fn expired(age_nanos: u128, ttl_days: u32) -> (r: bool)
    ensures
        r == (age_nanos > ttl_days * DAY_NANOS),
{
    proof {
        assert(ttl_days * DAY_NANOS <= u32::MAX * DAY_NANOS) by (nonlinear_arith)
            requires
                ttl_days <= u32::MAX,
        ;
    }
    age_nanos > (ttl_days as u128) * DAY_NANOS
}

/// Whether an entry beside a repository is pruned at an age.
pub open spec fn is_pruned(
    repo: Seq<u8>,
    entry_name: Seq<u8>,
    age_nanos: Option<u128>,
    ttl_days: u32,
) -> bool {
    &&& parent_of(repo) is Some
    &&& file_name_of(repo) is Some
    &&& crate::text::begins(
        lossy_text(entry_name),
        hidden_name(lossy_text(file_name_of(repo)->0), "-trash-"@),
    )
    &&& age_nanos matches Some(age) && age > ttl_days * DAY_NANOS
}

/// A tree that a rewind parked is kept for its days, whatever its age is then,
/// and is pruned after them; one whose age cannot be told is kept.
pub proof fn law_parked_trees_are_kept_for_their_days(
    repo: Seq<u8>,
    entry_name: Seq<u8>,
    stamp: int,
    pid: int,
    sequence: int,
    age_nanos: Option<u128>,
    ttl_days: u32,
)
    requires
        parent_of(repo) is Some,
        file_name_of(repo) is Some,
        lossy_text(entry_name) == hidden_name(
            lossy_text(file_name_of(repo)->0),
            trash_suffix(stamp, pid, sequence),
        ),
    ensures
        is_pruned(repo, entry_name, age_nanos, ttl_days) <==> (age_nanos matches Some(age) && age
            > ttl_days * 24 * 60 * 60 * 1_000_000_000),
{
    let name = lossy_text(file_name_of(repo)->0);
    let (whole, part) = (lossy_text(entry_name), hidden_name(name, "-trash-"@));
    assert(whole =~= part + decimal_nat(stamp as nat) + "-"@ + decimal_nat(pid as nat) + "-"@
        + decimal_nat(sequence as nat));
    assert(whole.subrange(0, part.len() as int) =~= part);
    assert(crate::text::occurs_at(whole, part, 0));
    assert(ttl_days * DAY_NANOS == ttl_days * 24 * 60 * 60 * 1_000_000_000) by (nonlinear_arith)
        requires
            DAY_NANOS == 86_400_000_000_000u128,
    ;
}

/// Pruning takes nothing but parked trees: not the repository, and neither the
/// tree that a rewind fills, nor the one it moved aside, nor its note.
pub proof fn law_only_parked_trees_are_pruned(
    repo: Seq<u8>,
    entry_name: Seq<u8>,
    pid: int,
    age_nanos: Option<u128>,
    ttl_days: u32,
)
    requires
        file_name_of(repo) is Some,
        ({
            let name = lossy_text(file_name_of(repo)->0);
            ||| lossy_text(entry_name) == name
            ||| lossy_text(entry_name) == hidden_name(name, "-swap"@)
            ||| lossy_text(entry_name) == hidden_name(name, "-rewind.json"@)
            ||| lossy_text(entry_name) == hidden_name(name, tmp_suffix(pid))
        }),
    ensures
        !is_pruned(repo, entry_name, age_nanos, ttl_days),
{
    let name = lossy_text(file_name_of(repo)->0);
    let whole = lossy_text(entry_name);
    let lead = "."@ + name + "."@ + NAME@;
    let at = lead.len() as int;
    let part = hidden_name(name, "-trash-"@);
    reveal_strlit(".");
    reveal_strlit("-trash-");
    reveal_strlit("-swap");
    reveal_strlit("-rewind.json");
    reveal_strlit("-tmp-");
    assert(part =~= lead + "-trash-"@);
    if is_pruned(repo, entry_name, age_nanos, ttl_days) {
        assert(whole.subrange(0, part.len() as int) == part);
        assert(part[at + 1] == 't' && part[at + 2] == 'r');
        assert(whole[at + 1] == 't' && whole[at + 2] == 'r');
        if whole == hidden_name(name, tmp_suffix(pid)) {
            assert(whole =~= lead + "-tmp-"@ + decimal_nat(pid as nat));
            assert(whole[at + 2] == "-tmp-"@[2]);
        } else if whole == hidden_name(name, "-swap"@) {
            assert(whole =~= lead + "-swap"@);
            assert(whole[at + 1] == "-swap"@[1]);
        } else if whole == hidden_name(name, "-rewind.json"@) {
            assert(whole =~= lead + "-rewind.json"@);
            assert(whole[at + 1] == "-rewind.json"@[1]);
        }
    }
}

/// A tree that was moved aside is found again: a scratch name is that of one
/// repository only.
pub proof fn law_scratch_names_tell_their_repository(a: Seq<char>, b: Seq<char>, name: Seq<char>)
    requires
        is_swap_name(name, a),
        is_swap_name(name, b),
    ensures
        a == b,
{
    reveal_strlit(".");
    let tail = "."@ + NAME@ + "-swap"@;
    let one = hidden_name(a, "-swap"@);
    assert(one =~= "."@ + a + tail);
    assert(hidden_name(b, "-swap"@) =~= "."@ + b + tail);
    assert(a.len() == b.len());
    assert forall|i: int| 0 <= i < a.len() implies a[i] == b[i] by {
        assert(name[i + 1] == a[i]);
        assert(name[i + 1] == b[i]);
    }
    assert(a =~= b);
}

/// Whether an entry beside the repository is to be pruned: a parked tree of
/// this repository that has outlived its days. An entry whose age cannot be
/// told stays.
pub fn prunes(repo: &HostPath, entry_name: &[u8], age_nanos: Option<u128>, ttl_days: u32) -> (r: bool)
    ensures
        r == is_pruned(repo@, entry_name@, age_nanos, ttl_days),
        r == (parent_of(repo@) is Some && file_name_of(repo@) is Some && crate::text::begins(
            lossy_text(entry_name@),
            hidden_name(lossy_text(file_name_of(repo@)->0), "-trash-"@),
        ) && (age_nanos matches Some(age) && age > ttl_days * DAY_NANOS)),
{
    match home(repo, "repo root") {
        Ok((_, name)) => {
            let prefix = hidden(name.as_str(), "-trash-");
            if !text_begins(from_utf8_lossy(entry_name).as_str(), prefix.as_str()) {
                return false;
            }
            match age_nanos {
                Some(age) => expired(age, ttl_days),
                None => false,
            }
        },
        Err(_) => false,
    }
}

/// What is parked after an exchange: nothing where the target is not in place.
pub open spec fn displaces(
    p: PreparedRewind,
    published: bool,
    displaced: Option<HostPath>,
    r: Result<HostPath, EngineError>,
) -> bool {
    match r {
        Ok(tree) => published && tree@ == match displaced {
            Some(path) => path@,
            None => p.tmp@,
        },
        Err(error) => !published && error is Restore,
    }
}

/// What is carried over once an excluded path has been looked at.
pub open spec fn carries(
    p: PreparedRewind,
    excluded: HostPath,
    present: bool,
    q: PreparedRewind,
) -> bool {
    q.carried@ == if present {
        p.carried@.push(excluded)
    } else {
        p.carried@
    }
}

/// A rewind that did not put its target in place parks no tree and says that it
/// failed; one that did parks the tree that the exchange took away, which is at
/// the name the target had unless the exchange says otherwise.
pub proof fn law_only_published_rewinds_park(
    p: PreparedRewind,
    published: bool,
    displaced: Option<HostPath>,
    r: Result<HostPath, EngineError>,
)
    requires
        displaces(p, published, displaced, r),
    ensures
        published <==> r is Ok,
        (r matches Ok(tree) && displaced is None) ==> r->Ok_0@ == p.tmp@,
        (r is Ok && displaced is Some) ==> r->Ok_0@ == displaced->0@,
{
}

/// Whatever a rewind leaves out of its snapshots and the live tree holds is
/// carried into the restored tree, and what was to be carried before still is;
/// what the live tree does not hold is not.
pub proof fn law_excluded_paths_are_carried_over(
    p: PreparedRewind,
    excluded: HostPath,
    present: bool,
    q: PreparedRewind,
    earlier: HostPath,
)
    requires
        carries(p, excluded, present, q),
    ensures
        present ==> q.carried@.contains(excluded),
        p.carried@.contains(earlier) ==> q.carried@.contains(earlier),
        q.carried@.contains(earlier) ==> p.carried@.contains(earlier) || (present && earlier
            == excluded),
{
    if present {
        let n = p.carried@.len() as int;
        assert(q.carried@[n] == excluded);
    }
    if p.carried@.contains(earlier) {
        let i = p.carried@.index_of(earlier);
        assert(q.carried@[i] == earlier);
    }
}

} // verus!

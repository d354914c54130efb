//! Writing one node of a checkpoint to a fresh host path. Modes are applied;
//! times are not.
use vstd::prelude::*;
use crate::diff::FileKind;
use crate::error::EngineError;
use crate::order::copy_names;
use crate::path::{byte_strings, joined, HostPath};
use crate::walk::PageEntry;

verus! {

/// Most bytes that are moved at once.
pub const TRANSFER_BYTES: u64 = 8_388_608;

/// One step of writing a node.
#[derive(Clone, Copy, Debug, PartialEq, Eq, Structural)]
pub enum NodeStep {
    /// Create the file.
    CreateFile,
    /// Read a range of the stored content and append it.
    Copy { offset: u64, length: u64 },
    /// Make the content durable and close the file.
    Seal,
    /// Create the symbolic link.
    Link,
    /// Create the directory.
    MakeDirectory,
    /// Write every entry of the directory below it, as [`children`] says.
    Children,
    /// Apply the stored permissions.
    ApplyMode,
}

/// The ranges that a file is copied in, from an offset on.
pub open spec fn copies(offset: int, length: int, chunk: int) -> Seq<NodeStep>
    decreases length - offset,
{
    if offset >= length || chunk <= 0 {
        Seq::empty()
    } else {
        let take = if chunk < length - offset { chunk } else { length - offset };
        seq![NodeStep::Copy { offset: offset as u64, length: take as u64 }] + copies(
            offset + take,
            length,
            chunk,
        )
    }
}

/// How much is moved at once where a single read may not exceed a limit.
pub open spec fn chunk_for(maximum_read: int) -> int {
    let limit = if maximum_read < 1 { 1 } else { maximum_read };
    if TRANSFER_BYTES < limit { TRANSFER_BYTES as int } else { limit }
}

/// The steps that write a node; none for a kind that cannot be written.
pub open spec fn node_steps(kind: FileKind, length: Option<u64>, maximum_read: u64) -> Option<
    Seq<NodeStep>,
> {
    match kind {
        FileKind::Regular => match length {
            Some(n) => Some(
                seq![NodeStep::CreateFile] + copies(0, n as int, chunk_for(maximum_read as int))
                    + seq![NodeStep::Seal, NodeStep::ApplyMode],
            ),
            None => None,
        },
        FileKind::SymbolicLink => Some(seq![NodeStep::Link]),
        FileKind::Directory => Some(
            seq![NodeStep::MakeDirectory, NodeStep::Children, NodeStep::ApplyMode],
        ),
        _ => None,
    }
}

/// The name of a kind in messages.
pub open spec fn kind_label(kind: FileKind) -> Seq<char> {
    match kind {
        FileKind::Regular => "Regular"@,
        FileKind::Directory => "Directory"@,
        FileKind::SymbolicLink => "SymbolicLink"@,
        FileKind::Fifo => "Fifo"@,
        FileKind::Socket => "Socket"@,
        FileKind::CharacterDevice => "CharacterDevice"@,
        FileKind::BlockDevice => "BlockDevice"@,
        FileKind::ReparsePoint => "ReparsePoint"@,
        FileKind::MountBoundary => "MountBoundary"@,
    }
}

fn label_of(kind: FileKind) -> (r: &'static str)
    ensures
        r@ == kind_label(kind),
{
    match kind {
        FileKind::Regular => "Regular",
        FileKind::Directory => "Directory",
        FileKind::SymbolicLink => "SymbolicLink",
        FileKind::Fifo => "Fifo",
        FileKind::Socket => "Socket",
        FileKind::CharacterDevice => "CharacterDevice",
        FileKind::BlockDevice => "BlockDevice",
        FileKind::ReparsePoint => "ReparsePoint",
        FileKind::MountBoundary => "MountBoundary",
    }
}

/// The steps that write a node of a kind. `length` is the content's length,
/// where the payload is a regular file's; `maximum_read` is the most that a
/// single read may ask for.
pub fn plan_node(kind: FileKind, length: Option<u64>, maximum_read: u64) -> (r: Result<
    Vec<NodeStep>,
    EngineError,
>)
    ensures
        match r {
            Ok(steps) => node_steps(kind, length, maximum_read) == Some(steps@),
            Err(EngineError::Restore(text)) => {
                &&& node_steps(kind, length, maximum_read) is None
                &&& text@ == if kind == FileKind::Regular {
                    "regular file with foreign payload"@
                } else {
                    "cannot restore a "@ + kind_label(kind)
                        + " node (only files, symlinks, and directories)"@
                }
            },
            Err(_) => false,
        },
{
    let mut steps: Vec<NodeStep> = Vec::new();
    match kind {
        FileKind::Regular => {
            let n: u64 = match length {
                Some(n) => n,
                None => {
                    return Err(
                        EngineError::Restore("regular file with foreign payload".to_owned()),
                    );
                },
            };
            let limit: u64 = if maximum_read < 1 { 1 } else { maximum_read };
            let chunk: u64 = if TRANSFER_BYTES < limit { TRANSFER_BYTES } else { limit };
            steps.push(NodeStep::CreateFile);
            let ghost goal = seq![NodeStep::CreateFile] + copies(0, n as int, chunk as int);
            assert(steps@ + copies(0, n as int, chunk as int) =~= goal);
            let mut offset: u64 = 0;
            while offset < n
                invariant
                    offset <= n,
                    chunk > 0,
                    steps@ + copies(offset as int, n as int, chunk as int) == goal,
                decreases n - offset,
            {
                let take: u64 = if chunk < n - offset { chunk } else { n - offset };
                let ghost before = steps@;
                steps.push(NodeStep::Copy { offset, length: take });
                assert(steps@ + copies(offset + take, n as int, chunk as int) =~= before + copies(
                    offset as int,
                    n as int,
                    chunk as int,
                ));
                offset += take;
            }
            assert(steps@ =~= goal);
            steps.push(NodeStep::Seal);
            steps.push(NodeStep::ApplyMode);
            assert(steps@ =~= goal + seq![NodeStep::Seal, NodeStep::ApplyMode]);
            Ok(steps)
        },
        FileKind::SymbolicLink => {
            steps.push(NodeStep::Link);
            assert(steps@ =~= seq![NodeStep::Link]);
            Ok(steps)
        },
        FileKind::Directory => {
            steps.push(NodeStep::MakeDirectory);
            steps.push(NodeStep::Children);
            steps.push(NodeStep::ApplyMode);
            assert(steps@ =~= seq![
                NodeStep::MakeDirectory,
                NodeStep::Children,
                NodeStep::ApplyMode,
            ]);
            Ok(steps)
        },
        _ => {
            let mut text = "cannot restore a ".to_owned();
            text.append(label_of(kind));
            text.append(" node (only files, symlinks, and directories)");
            Err(EngineError::Restore(text))
        },
    }
}

/// An entry of a directory as it is written: its names in the checkpoint, where
/// it goes on the host, and its kind.
#[derive(Debug, PartialEq, Eq)]
pub struct Child {
    pub names: Vec<Vec<u8>>,
    pub host: HostPath,
    pub kind: FileKind,
}

/// Whether a child is an entry of a directory: below the directory in the
/// checkpoint and on the host, by its own name, and of its own kind.
pub open spec fn is_child(
    directory: Seq<Seq<u8>>,
    host: Seq<u8>,
    entry: PageEntry,
    child: Child,
) -> bool {
    &&& byte_strings(child.names@) == directory.push(entry.name@)
    &&& child.host@ == joined(host, entry.name@)
    &&& child.kind == entry.kind
}

/// The entries of a directory as they are written, one for each, in the order
/// that they were listed in.
pub fn children(names: &Vec<Vec<u8>>, host: &HostPath, entries: &Vec<PageEntry>) -> (r: Vec<Child>)
    ensures
        r@.len() == entries@.len(),
        forall|i: int|
            0 <= i < r@.len() ==> is_child(
                byte_strings(names@),
                host@,
                entries@[i],
                #[trigger] r@[i],
            ),
{
    let mut out: Vec<Child> = Vec::new();
    let mut i: usize = 0;
    while i < entries.len()
        invariant
            i <= entries@.len(),
            out@.len() == i,
            forall|j: int|
                0 <= j < i ==> is_child(
                    byte_strings(names@),
                    host@,
                    entries@[j],
                    #[trigger] out@[j],
                ),
        decreases entries.len() - i,
    {
        let entry = &entries[i];
        let mut below = copy_names(names);
        let ghost above = below@;
        below.push(vstd::slice::slice_to_vec(entry.name.as_slice()));
        assert(byte_strings(below@) =~= byte_strings(above).push(entry.name@));
        out.push(
            Child {
                names: below,
                host: host.join_bytes(entry.name.as_slice()),
                kind: entry.kind,
            },
        );
        i += 1;
    }
    out
}

/// Whether ranges run from one offset to another without gap or overlap, none
/// of them empty and none longer than a limit.
pub open spec fn covers(steps: Seq<NodeStep>, from: int, to: int, limit: int) -> bool
    decreases steps.len(),
{
    if steps.len() == 0 {
        from == to
    } else {
        &&& steps[0] matches NodeStep::Copy { offset, length } && offset == from && 0 < length
            <= limit && covers(steps.skip(1), from + length, to, limit)
    }
}

/// The ranges that a file is copied in cover it from its beginning to its end,
/// each byte once, and none exceeds what a single read may ask for.
pub proof fn law_copies_cover_the_file(length: u64, maximum_read: u64)
    ensures
        covers(
            copies(0, length as int, chunk_for(maximum_read as int)),
            0,
            length as int,
            if maximum_read < 1 { 1 } else { maximum_read as int },
        ),
{
    lemma_copies_cover(
        0,
        length as int,
        chunk_for(maximum_read as int),
        if maximum_read < 1 { 1 } else { maximum_read as int },
    );
}

proof fn lemma_copies_cover(offset: int, length: int, chunk: int, limit: int)
    requires
        0 <= offset <= length <= u64::MAX,
        0 < chunk <= limit,
        chunk <= u64::MAX,
    ensures
        covers(copies(offset, length, chunk), offset, length, limit),
    decreases length - offset,
{
    if offset < length {
        let take = if chunk < length - offset { chunk } else { length - offset };
        lemma_copies_cover(offset + take, length, chunk, limit);
        assert(copies(offset, length, chunk).skip(1) =~= copies(offset + take, length, chunk));
    }
}

/// A node is written in an order that works: the content of a file is copied
/// from beginning to end between its creation and the sealing of it, the children
/// of a directory come before its mode, which may forbid them, and the mode comes
/// last. Only files, links and directories are written.
pub proof fn law_modes_come_last(kind: FileKind, length: Option<u64>, maximum_read: u64)
    ensures
        node_steps(kind, length, maximum_read) is Some <==> (kind == FileKind::Regular && length
            is Some) || kind == FileKind::SymbolicLink || kind == FileKind::Directory,
        node_steps(kind, length, maximum_read) matches Some(steps) ==> {
            &&& kind == FileKind::Regular ==> {
                &&& steps.len() >= 3
                &&& steps[0] is CreateFile
                &&& steps[steps.len() - 2] is Seal
                &&& steps.last() is ApplyMode
                &&& covers(
                    steps.subrange(1, steps.len() - 2),
                    0,
                    length->0 as int,
                    if maximum_read < 1 { 1 } else { maximum_read as int },
                )
            }
            &&& kind == FileKind::Directory ==> steps.len() == 3 && steps[0] is MakeDirectory
                && steps[1] is Children && steps[2] is ApplyMode
            &&& kind == FileKind::SymbolicLink ==> steps.len() == 1 && steps[0] is Link
        },
{
    if kind == FileKind::Regular && length is Some {
        let n = length->0;
        law_copies_cover_the_file(n, maximum_read);
        let middle = copies(0, n as int, chunk_for(maximum_read as int));
        let steps = node_steps(kind, length, maximum_read)->0;
        assert(steps.subrange(1, steps.len() - 2) =~= middle);
    }
}

} // verus!

//! Walking the directories of a generation page by page.
use vstd::prelude::*;
use crate::diff::{FileKind, RecordSummary, TreeEntry};
use crate::order::copy_names;
use crate::path::byte_strings;
use crate::vecs::reversed;

verus! {

/// One entry of a directory page.
#[derive(Debug)]
pub struct PageEntry {
    pub name: Vec<u8>,
    pub kind: FileKind,
    /// The bytes that content is compared by.
    pub payload: Vec<u8>,
    pub metadata: Vec<u8>,
}

/// A part of a directory, and whether there is more of it.
#[derive(Debug)]
pub struct Page {
    pub entries: Vec<PageEntry>,
    pub has_more: bool,
}

/// Whether a record is what a directory's entry stands for: under the
/// directory's names and its own, with the payload of all but directories.
pub open spec fn is_entry_of(directory: Seq<Seq<u8>>, e: PageEntry, t: TreeEntry) -> bool {
    &&& t.path() == directory.push(e.name@)
    &&& t.record.kind == e.kind
    &&& t.record.payload == if e.kind == FileKind::Directory { None } else { Some(e.payload) }
    &&& t.record.metadata == e.metadata
}

/// A walk of a generation. The caller lists the directory that is asked for,
/// after the name that is given, and hands the page back.
pub struct Walk {
    pub queue: Vec<Vec<Vec<u8>>>,
    pub current: Option<Vec<Vec<u8>>>,
    pub after: Option<Vec<u8>>,
    pub found: Vec<TreeEntry>,
    /// Directories whose last page has come.
    pub listed: Ghost<Set<Seq<Seq<u8>>>>,
}

/// Whether a directory waits to be listed.
pub open spec fn waits(queue: Seq<Vec<Vec<u8>>>, directory: Seq<Seq<u8>>) -> bool {
    exists|i: int| 0 <= i < queue.len() && byte_strings((#[trigger] queue[i])@) == directory
}

/// Whether a directory is listed, being listed or waiting.
pub open spec fn accounted(w: Walk, directory: Seq<Seq<u8>>) -> bool {
    ||| w.listed@.contains(directory)
    ||| w.current matches Some(d) && byte_strings(d@) == directory
    ||| waits(w.queue@, directory)
}

/// The paths of directories that wait, in their order.
pub open spec fn paths_of(queue: Seq<Vec<Vec<u8>>>) -> Seq<Seq<Seq<u8>>> {
    queue.map_values(|names: Vec<Vec<u8>>| byte_strings(names@))
}

/// The paths of the directories among the entries of a directory.
pub open spec fn directories_in(base: Seq<Seq<u8>>, entries: Seq<PageEntry>) -> Seq<Seq<Seq<u8>>>
    decreases entries.len(),
{
    if entries.len() == 0 {
        Seq::empty()
    } else {
        let before = directories_in(base, entries.drop_last());
        if entries.last().kind == FileKind::Directory {
            before.push(base.push(entries.last().name@))
        } else {
            before
        }
    }
}

/// Whether a walk has taken a page of the directory that is being listed.
pub open spec fn takes_page(before: Walk, page: Page, after: Walk) -> bool {
    let base = byte_strings(before.current->0@);
    &&& after.found@.len() == before.found@.len() + page.entries@.len()
    &&& forall|i: int|
        0 <= i < page.entries@.len() ==> is_entry_of(
            base,
            page.entries@[i],
            #[trigger] after.found@[before.found@.len() + i],
        )
    &&& paths_of(after.queue@) == paths_of(before.queue@) + directories_in(base, page.entries@)
    &&& page.has_more && page.entries@.len() > 0 ==> after.current == before.current && (after.after
        matches Some(name) && name@ == page.entries@.last().name@)
    &&& !(page.has_more && page.entries@.len() > 0) ==> after.current is None
}

proof fn lemma_directories(base: Seq<Seq<u8>>, entries: Seq<PageEntry>, i: int)
    requires
        0 <= i < entries.len(),
        entries[i].kind == FileKind::Directory,
    ensures
        directories_in(base, entries).contains(base.push(entries[i].name@)),
    decreases entries.len(),
{
    let all = directories_in(base, entries);
    let before = directories_in(base, entries.drop_last());
    if i == entries.len() - 1 {
        assert(all.last() == base.push(entries[i].name@));
    } else {
        lemma_directories(base, entries.drop_last(), i);
        let k = choose|k: int| 0 <= k < before.len() && before[k] == base.push(entries[i].name@);
        assert(all[k] == before[k]);
    }
}

/// A page loses nothing: every entry of it is found under its directory, every
/// directory among them will be listed in its turn, and where there is more the
/// listing goes on after the last name of the page.
pub proof fn law_pages_lose_nothing(before: Walk, page: Page, after: Walk, i: int)
    requires
        before.current is Some,
        takes_page(before, page, after),
        0 <= i < page.entries@.len(),
    ensures
        exists|k: int|
            0 <= k < after.found@.len() && (#[trigger] after.found@[k]).path() == byte_strings(
                before.current->0@,
            ).push(page.entries@[i].name@) && after.found@[k].record.kind == page.entries@[i].kind,
        page.entries@[i].kind == FileKind::Directory ==> exists|k: int|
            0 <= k < after.queue@.len() && byte_strings((#[trigger] after.queue@[k])@)
                == byte_strings(before.current->0@).push(page.entries@[i].name@),
        page.has_more ==> after.current == before.current && (after.after matches Some(name)
            && name@ == page.entries@.last().name@),
        !page.has_more ==> after.current is None,
{
    let base = byte_strings(before.current->0@);
    let path = base.push(page.entries@[i].name@);
    let n = before.found@.len();
    assert(is_entry_of(base, page.entries@[i], after.found@[n + i]));
    assert(after.found@[n + i].path() == path);
    if page.entries@[i].kind == FileKind::Directory {
        lemma_directories(base, page.entries@, i);
        let found = directories_in(base, page.entries@);
        let k = choose|k: int| 0 <= k < found.len() && found[k] == path;
        let m = paths_of(before.queue@).len() + k;
        assert(paths_of(after.queue@)[m as int] == path);
        assert(paths_of(after.queue@).len() == after.queue@.len());
        assert(byte_strings(after.queue@[m as int]@) == path);
    }
}

impl Walk {
    /// What a walk keeps: no directory that it has seen is forgotten, the root
    /// among them.
    pub open spec fn wf(&self) -> bool {
        &&& accounted(*self, Seq::empty())
        &&& forall|i: int|
            0 <= i < self.found@.len() && (#[trigger] self.found@[i]).record.kind
                == FileKind::Directory ==> accounted(*self, self.found@[i].path())
        &&& self.current is None ==> self.after is None
    }

    /// A walk that is about to list the root.
    pub fn new() -> (r: Walk)
        ensures
            r.wf(),
            r.current is None,
            r.found@.len() == 0,
            paths_of(r.queue@) == seq![Seq::<Seq<u8>>::empty()],
            r.listed@ == Set::<Seq<Seq<u8>>>::empty(),
    {
        let root: Vec<Vec<u8>> = Vec::new();
        let mut queue: Vec<Vec<Vec<u8>>> = Vec::new();
        queue.push(root);
        let r = Walk { queue, current: None, after: None, found: Vec::new(), listed: Ghost(Set::empty()) };
        assert(byte_strings(r.queue@[0]@) =~= Seq::<Seq<u8>>::empty());
        assert(waits(r.queue@, Seq::empty()));
        r
    }

    /// Turns to the directory to list next, unless one is being listed; false
    /// when there is none left.
    pub fn turn(&mut self) -> (r: bool)
        requires
            old(self).wf(),
        ensures
            final(self).wf(),
            final(self).found == old(self).found,
            r == (final(self).current is Some),
            r == (old(self).current is Some || old(self).queue@.len() > 0),
            !r ==> final(self).queue@.len() == 0 && final(self).after == old(self).after,
            old(self).current is Some ==> *final(self) == *old(self),
            old(self).current is None && old(self).queue@.len() > 0 ==> final(self).current == Some(
                old(self).queue@.last(),
            ) && final(self).queue@ == old(self).queue@.drop_last() && final(self).after is None,
            final(self).listed == old(self).listed,
    {
        if self.current.is_some() {
            return true;
        }
        let ghost before = *self;
        match self.queue.pop() {
            Some(directory) => {
                self.current = Some(directory);
                self.after = None;
                proof {
                    assert forall|d: Seq<Seq<u8>>| accounted(before, d) implies accounted(
                        *self,
                        d,
                    ) by {
                        if waits(before.queue@, d) {
                            let i = choose|i: int|
                                0 <= i < before.queue@.len() && byte_strings(
                                    (#[trigger] before.queue@[i])@,
                                ) == d;
                            if i < self.queue@.len() {
                                assert(self.queue@[i] == before.queue@[i]);
                                assert(byte_strings(self.queue@[i]@) == d);
                            }
                        }
                    }
                }
                true
            },
            None => false,
        }
    }

    /// Takes a page of the directory that is being listed: every entry is
    /// found, every directory among them waits, and the listing goes on after
    /// the last entry where there is more.
    pub fn accept(&mut self, page: Page)
        requires
            old(self).wf(),
            old(self).current is Some,
        ensures
            final(self).wf(),
            takes_page(*old(self), page, *final(self)),
            final(self).found@.len() == old(self).found@.len() + page.entries@.len(),
            forall|i: int|
                0 <= i < old(self).found@.len() ==> final(self).found@[i] == old(self).found@[i],
            forall|i: int|
                0 <= i < page.entries@.len() ==> is_entry_of(
                    byte_strings(old(self).current->0@),
                    page.entries@[i],
                    #[trigger] final(self).found@[old(self).found@.len() + i],
                ),
            paths_of(final(self).queue@) == paths_of(old(self).queue@) + directories_in(
                byte_strings(old(self).current->0@),
                page.entries@,
            ),
            page.has_more && page.entries@.len() > 0 ==> {
                &&& final(self).current == old(self).current
                &&& final(self).after matches Some(name) && name@ == page.entries@.last().name@
                &&& final(self).listed == old(self).listed
            },
            !(page.has_more && page.entries@.len() > 0) ==> {
                &&& final(self).current is None
                &&& final(self).listed@ == old(self).listed@.insert(
                    byte_strings(old(self).current->0@),
                )
            },
    {
        let ghost before = *self;
        let ghost all = page.entries@;
        let directory = match self.current.take() {
            Some(directory) => directory,
            None => {
                return;
            },
        };
        let ghost base = byte_strings(directory@);
        let has_more = page.has_more;
        let last: Option<Vec<u8>> = if page.entries.len() > 0 {
            Some(vstd::slice::slice_to_vec(page.entries[page.entries.len() - 1].name.as_slice()))
        } else {
            None
        };
        // Entries come off the end of a reversed list, so that they are found
        // in the order of the page.
        let mut rest = reversed(page.entries);
        assert(all.skip(0) =~= all);
        assert(all.take(0) =~= Seq::<PageEntry>::empty());
        while rest.len() > 0
            invariant
                base == byte_strings(directory@),
                rest@.len() <= all.len(),
                rest@ == all.skip(all.len() - rest@.len()).reverse(),
                self.found@.len() == before.found@.len() + all.len() - rest@.len(),
                forall|i: int|
                    0 <= i < before.found@.len() ==> self.found@[i] == before.found@[i],
                forall|i: int|
                    0 <= i < all.len() - rest@.len() ==> is_entry_of(
                        base,
                        all[i],
                        #[trigger] self.found@[before.found@.len() + i],
                    ),
                self.listed == before.listed,
                self.current is None,
                self.after == before.after,
                paths_of(self.queue@) == paths_of(before.queue@) + directories_in(
                    base,
                    all.take(all.len() - rest@.len()),
                ),
                forall|d: Seq<Seq<u8>>| waits(before.queue@, d) ==> #[trigger] waits(self.queue@, d),
                forall|i: int|
                    before.found@.len() <= i < self.found@.len() && (
                    #[trigger] self.found@[i]).record.kind == FileKind::Directory ==> waits(
                        self.queue@,
                        self.found@[i].path(),
                    ),
            decreases rest.len(),
        {
            let ghost n = rest@.len();
            let ghost at = all.len() - n;
            let ghost step = *self;
            if let Some(entry) = rest.pop() {
                assert(entry == all[at]);
                assert(all.skip(at).reverse().drop_last() =~= all.skip(at + 1).reverse());
                assert(all.take(at + 1).drop_last() =~= all.take(at));
                let mut names = copy_names(&directory);
                let ghost above = names@;
                names.push(vstd::slice::slice_to_vec(entry.name.as_slice()));
                assert(byte_strings(names@) =~= base.push(entry.name@)) by {
                    assert(byte_strings(above) == base);
                    assert(byte_strings(names@) =~= byte_strings(above).push(entry.name@));
                }
                if entry.kind == FileKind::Directory {
                    self.queue.push(copy_names(&names));
                    proof {
                        let k = self.queue@.len() - 1;
                        assert(byte_strings(self.queue@[k]@) == base.push(entry.name@));
                        assert(paths_of(self.queue@) =~= paths_of(step.queue@).push(
                            base.push(entry.name@),
                        ));
                    }
                }
                let payload = if entry.kind == FileKind::Directory {
                    None
                } else {
                    Some(entry.payload)
                };
                self.found.push(
                    TreeEntry {
                        names,
                        record: RecordSummary {
                            kind: entry.kind,
                            payload,
                            metadata: entry.metadata,
                        },
                    },
                );
                proof {
                    assert forall|d: Seq<Seq<u8>>| waits(step.queue@, d) implies #[trigger] waits(
                        self.queue@,
                        d,
                    ) by {
                        let i = choose|i: int|
                            0 <= i < step.queue@.len() && byte_strings(
                                (#[trigger] step.queue@[i])@,
                            ) == d;
                        assert(self.queue@[i] == step.queue@[i]);
                    }
                    assert forall|i: int|
                        before.found@.len() <= i < self.found@.len() && (
                        #[trigger] self.found@[i]).record.kind == FileKind::Directory implies waits(
                        self.queue@,
                        self.found@[i].path(),
                    ) by {
                        if i < step.found@.len() {
                            assert(step.found@[i] == self.found@[i]);
                            assert(waits(step.queue@, step.found@[i].path()));
                        }
                    }
                }
            }
        }
        assert(all.take(all.len() as int) =~= all);
        let more = has_more && last.is_some();
        if more {
            self.after = last;
            self.current = Some(directory);
        } else {
            self.after = None;
            proof {
                self.listed@ = before.listed@.insert(base);
            }
        }
        proof {
            assert forall|d: Seq<Seq<u8>>| accounted(before, d) implies accounted(*self, d) by {}
            assert forall|i: int|
                0 <= i < self.found@.len() && (#[trigger] self.found@[i]).record.kind
                    == FileKind::Directory implies accounted(*self, self.found@[i].path()) by {
                if i < before.found@.len() {
                    assert(self.found@[i] == before.found@[i]);
                    assert(accounted(before, before.found@[i].path()));
                }
            }
        }
    }

    /// What a finished walk has found: nothing was missed, for the root and
    /// every directory found has been listed to its end.
    pub fn finish(self) -> (r: Vec<TreeEntry>)
        requires
            self.wf(),
            self.current is None,
            self.queue@.len() == 0,
        ensures
            r@ == self.found@,
            self.listed@.contains(Seq::empty()),
            forall|i: int|
                0 <= i < r@.len() && (#[trigger] r@[i]).record.kind == FileKind::Directory
                    ==> self.listed@.contains(r@[i].path()),
    {
        proof {
            assert forall|i: int|
                0 <= i < self.found@.len() && (#[trigger] self.found@[i]).record.kind
                    == FileKind::Directory implies self.listed@.contains(self.found@[i].path()) by {
                assert(accounted(self, self.found@[i].path()));
            }
        }
        self.found
    }
}

} // verus!

//! The canonical container of each file.

use crate::block_runtime::BlockView;
use crate::container::{
    ContainerView, MountPin, PageContainer, PageContainerKind, BLOCK_QUEUE_CAPACITY,
    BLOCK_QUEUE_DEPTH, PAGE_SUBMISSION_CAPACITY,
};
use crate::ids::{FsObjectId, PAGE_BYTES};
use crate::page_submission::SubmissionView;
use vstd::prelude::*;

verus! {

/// Pages that hold `size` bytes.
pub open spec fn file_pages(size: u64) -> u64 {
    if size == 0 {
        0
    } else {
        (1 + (size - 1) / PAGE_BYTES as int) as u64
    }
}

fn count_file_pages(size: u64) -> (pages: u64)
    ensures
        pages == file_pages(size),
{
    if size == 0 {
        0
    } else {
        1 + (size - 1) / PAGE_BYTES
    }
}

pub open spec fn max_pages(a: u64, b: u64) -> u64 {
    if a >= b {
        a
    } else {
        b
    }
}

impl ContainerView {
    /// Whether this is an untouched container of `page_count` pages for a file
    /// of `size` bytes.
    pub open spec fn fresh_file(
        self,
        mount: MountPin,
        fs_object_id: FsObjectId,
        size: u64,
        page_count: u64,
    ) -> bool {
        self == (ContainerView {
            kind: PageContainerKind::File { mount, fs_object_id },
            page_count,
            size_bytes: size,
            stored_size: Some(size),
            eof_pending: false,
            root: Map::empty(),
            sequence: 0,
            direct_active: 0,
            submission: SubmissionView::empty(PAGE_SUBMISSION_CAPACITY),
            block: BlockView::empty(BLOCK_QUEUE_CAPACITY, BLOCK_QUEUE_DEPTH),
            pages: Map::empty(),
            slots: Map::empty(),
            fetches: Map::empty(),
            fsyncs: Map::empty(),
            reservations: Seq::empty(),
            next_reservation: 1,
            direct: Map::empty(),
            direct_done: Map::empty(),
            waits: Map::empty(),
            next_fetch: 1,
        })
    }
}

impl PageContainer {
    /// A container for a file of `size` bytes, with as many pages as they take.
    pub fn new_file_cap(mount: MountPin, fs_object_id: FsObjectId, size: u64) -> (pc: Self)
        ensures
            pc.wf(),
            pc@.fresh_file(mount, fs_object_id, size, file_pages(size)),
    {
        PageContainer::new_file_cap_with_page_count(
            mount,
            fs_object_id,
            size,
            count_file_pages(size),
        )
    }

    /// A container of `page_count` pages for a file of `size` bytes.
    pub fn new_file_cap_with_page_count(
        mount: MountPin,
        fs_object_id: FsObjectId,
        size: u64,
        page_count: u64,
    ) -> (pc: Self)
        ensures
            pc.wf(),
            pc@.fresh_file(mount, fs_object_id, size, page_count),
    {
        let mut pc = PageContainer::new(
            PageContainerKind::File { mount, fs_object_id },
            page_count,
        );
        pc.set_size_bytes_persisted(size);
        pc
    }
}

/// The container of one file: which mount, which object, and the key of the
/// container. It does not keep the container alive.
#[derive(Clone, Copy, Debug, PartialEq, Eq, Structural)]
pub struct FilePageContainerIdentity {
    pub mount_trace_id: u64,
    pub fs_object_id: FsObjectId,
    pub container: u64,
}

impl FilePageContainerIdentity {
    /// Whether this is the identity of the object in the mount.
    pub open spec fn names(self, mount_trace_id: u64, fs_object_id: FsObjectId) -> bool {
        self.mount_trace_id == mount_trace_id && self.fs_object_id == fs_object_id
    }
}

/// Every file's container, in the order of creation.
#[derive(Debug)]
pub struct FileIdentities {
    pub entries: Vec<FilePageContainerIdentity>,
}

/// The container of a file.
pub enum FileCap {
    /// There is one already, under this key.
    Existing(u64),
    /// A new one, under this key.
    Created { key: u64, container: PageContainer },
    /// A new one is needed, and no key was to be had for it.
    Refused,
}

/// The entries whose container is alive, going by `live`. An answer that is not
/// there means that it is not.
pub open spec fn alive(entries: Seq<FilePageContainerIdentity>, live: Seq<bool>) -> Seq<
    FilePageContainerIdentity,
>
    decreases entries.len(),
{
    if entries.len() == 0 {
        Seq::empty()
    } else {
        let last = entries.len() - 1;
        let rest = alive(entries.drop_last(), live);
        if last < live.len() && live[last] {
            rest.push(entries[last])
        } else {
            rest
        }
    }
}

/// The position of the first entry of the object in the mount from `i` on.
pub open spec fn position(
    entries: Seq<FilePageContainerIdentity>,
    mount_trace_id: u64,
    fs_object_id: FsObjectId,
    i: nat,
) -> Option<nat>
    decreases entries.len() - i,
{
    if i >= entries.len() {
        None
    } else if entries[i as int].names(mount_trace_id, fs_object_id) {
        Some(i)
    } else {
        position(entries, mount_trace_id, fs_object_id, i + 1)
    }
}

/// Whether no object has two entries.
pub open spec fn canonical(entries: Seq<FilePageContainerIdentity>) -> bool {
    forall|i: int, j: int|
        0 <= i < j < entries.len() ==> !(#[trigger] entries[i]).names(
            (#[trigger] entries[j]).mount_trace_id,
            entries[j].fs_object_id,
        )
}

impl FileIdentities {
    pub fn new() -> (identities: Self)
        ensures
            identities.entries@ == Seq::<FilePageContainerIdentity>::empty(),
    {
        FileIdentities { entries: Vec::new() }
    }

    fn find(&self, mount_trace_id: u64, fs_object_id: FsObjectId) -> (found: Option<usize>)
        ensures
            match found {
                Some(i) => i < self.entries@.len() && position(
                    self.entries@,
                    mount_trace_id,
                    fs_object_id,
                    0,
                ) == Some(i as nat),
                None => position(self.entries@, mount_trace_id, fs_object_id, 0) is None,
            },
    {
        let mut i: usize = 0;
        while i < self.entries.len()
            invariant
                i <= self.entries@.len(),
                position(self.entries@, mount_trace_id, fs_object_id, 0) == position(
                    self.entries@,
                    mount_trace_id,
                    fs_object_id,
                    i as nat,
                ),
            decreases self.entries@.len() - i,
        {
            let entry = self.entries[i];
            if entry.mount_trace_id == mount_trace_id && entry.fs_object_id == fs_object_id {
                return Some(i);
            }
            i += 1;
        }
        None
    }

    /// Forget the containers that are gone.
    fn retain_live(&mut self, live: &Vec<bool>)
        ensures
            final(self).entries@ == alive(old(self).entries@, live@),
    {
        let ghost all = self.entries@;
        let mut kept: Vec<FilePageContainerIdentity> = Vec::new();
        let mut i: usize = 0;
        while i < self.entries.len()
            invariant
                all == self.entries@,
                i <= all.len(),
                kept@ == alive(all.take(i as int), live@),
            decreases all.len() - i,
        {
            proof {
                assert(all.take(i + 1).drop_last() =~= all.take(i as int));
            }
            if i < live.len() && live[i] {
                kept.push(self.entries[i]);
            }
            i += 1;
        }
        assert(all.take(i as int) =~= all);
        self.entries = kept;
    }

    /// The canonical container of an object, made on demand. `live` tells for
    /// each entry whether its container is alive, and `key` is the key that a
    /// new container gets.
    pub fn find_or_create_file_cap(
        &mut self,
        mount: MountPin,
        fs_object_id: FsObjectId,
        size: u64,
        minimum_page_count: u64,
        live: &Vec<bool>,
        key: Option<u64>,
    ) -> (cap: FileCap)
        ensures
            ({
                let kept = alive(old(self).entries@, live@);
                match position(kept, mount.trace_id, fs_object_id, 0) {
                    Some(i) => {
                        &&& cap == FileCap::Existing(kept[i as int].container)
                        &&& final(self).entries@ == kept
                    },
                    None => match key {
                        None => cap == FileCap::Refused && final(self).entries@ == kept,
                        Some(key) => {
                            &&& cap matches FileCap::Created { key: given, container }
                            &&& given == key
                            &&& container.wf()
                            &&& container@.fresh_file(
                                mount,
                                fs_object_id,
                                size,
                                max_pages(file_pages(size), minimum_page_count),
                            )
                            &&& final(self).entries@ == kept.push(
                                FilePageContainerIdentity {
                                    mount_trace_id: mount.trace_id,
                                    fs_object_id,
                                    container: key,
                                },
                            )
                        },
                    },
                }
            }),
    {
        self.retain_live(live);
        match self.find(mount.trace_id, fs_object_id) {
            Some(i) => {
                return FileCap::Existing(self.entries[i].container);
            },
            None => {},
        }
        let key: u64 = match key {
            Some(key) => key,
            None => {
                return FileCap::Refused;
            },
        };
        let pages: u64 = count_file_pages(size);
        let page_count: u64 = if pages >= minimum_page_count {
            pages
        } else {
            minimum_page_count
        };
        let container = PageContainer::new_file_cap_with_page_count(
            mount,
            fs_object_id,
            size,
            page_count,
        );
        self.entries.push(
            FilePageContainerIdentity {
                mount_trace_id: mount.trace_id,
                fs_object_id,
                container: key,
            },
        );
        FileCap::Created { key, container }
    }

    /// Forget that `container` is the one of the object, and say whether it
    /// was. An entry whose container is gone, as `live` tells, is forgotten
    /// too.
    pub fn retire_file_identity(
        &mut self,
        mount: MountPin,
        fs_object_id: FsObjectId,
        container: u64,
        live: bool,
    ) -> (retired: bool)
        ensures
            match position(old(self).entries@, mount.trace_id, fs_object_id, 0) {
                None => !retired && final(self).entries@ == old(self).entries@,
                Some(i) => {
                    let current = old(self).entries@[i as int].container == container;
                    &&& retired == (live && current)
                    &&& final(self).entries@ == if !live || current {
                        old(self).entries@.remove(i as int)
                    } else {
                        old(self).entries@
                    }
                },
            },
    {
        match self.find(mount.trace_id, fs_object_id) {
            None => false,
            Some(i) => {
                let current = self.entries[i].container == container;
                if !live || current {
                    let _entry = self.entries.remove(i);
                }
                live && current
            },
        }
    }
}

proof fn lemma_position(
    entries: Seq<FilePageContainerIdentity>,
    mount_trace_id: u64,
    fs_object_id: FsObjectId,
    i: nat,
)
    ensures
        match position(entries, mount_trace_id, fs_object_id, i) {
            Some(at) => {
                &&& i <= at < entries.len()
                &&& entries[at as int].names(mount_trace_id, fs_object_id)
                &&& forall|j: int|
                    i <= j < at ==> !(#[trigger] entries[j]).names(mount_trace_id, fs_object_id)
            },
            None => forall|j: int|
                i <= j < entries.len() ==> !(#[trigger] entries[j]).names(
                    mount_trace_id,
                    fs_object_id,
                ),
        },
    decreases entries.len() - i,
{
    if i < entries.len() && !entries[i as int].names(mount_trace_id, fs_object_id) {
        lemma_position(entries, mount_trace_id, fs_object_id, i + 1);
    }
}

proof fn lemma_alive(entries: Seq<FilePageContainerIdentity>, live: Seq<bool>)
    ensures
        forall|i: int|
            0 <= i < alive(entries, live).len() ==> entries.contains(
                #[trigger] alive(entries, live)[i],
            ),
        canonical(entries) ==> canonical(alive(entries, live)),
    decreases entries.len(),
{
    if entries.len() > 0 {
        let init = entries.drop_last();
        let rest = alive(init, live);
        let all = alive(entries, live);
        lemma_alive(init, live);
        assert forall|i: int| 0 <= i < all.len() implies entries.contains(#[trigger] all[i]) by {
            if i < rest.len() {
                assert(all[i] == rest[i]);
                assert(init.contains(rest[i]));
                let at = init.index_of(rest[i]);
                assert(entries[at] == rest[i]);
            } else {
                assert(entries[entries.len() - 1] == all[i]);
            }
        }
        if canonical(entries) {
            assert forall|i: int, j: int| 0 <= i < j < init.len() implies !(
            #[trigger] init[i]).names(
                (#[trigger] init[j]).mount_trace_id,
                init[j].fs_object_id,
            ) by {
                assert(entries[i] == init[i] && entries[j] == init[j]);
            }
            assert forall|i: int, j: int| 0 <= i < j < all.len() implies !(
            #[trigger] all[i]).names((#[trigger] all[j]).mount_trace_id, all[j].fs_object_id) by {
                assert(all[i] == rest[i]);
                if j < rest.len() {
                    assert(all[j] == rest[j]);
                } else {
                    assert(init.contains(rest[i]));
                    let at = init.index_of(rest[i]);
                    assert(entries[at] == rest[i]);
                    assert(all[j] == entries[entries.len() - 1]);
                }
            }
        }
    }
}

/// An object never has two containers: entries stay canonical when containers
/// die, when an object gets its container, and when an entry is retired.
pub proof fn law_one_container_per_object(
    entries: Seq<FilePageContainerIdentity>,
    live: Seq<bool>,
    identity: FilePageContainerIdentity,
    i: int,
)
    requires
        canonical(entries),
    ensures
        canonical(alive(entries, live)),
        position(
            alive(entries, live),
            identity.mount_trace_id,
            identity.fs_object_id,
            0,
        ) is None ==> canonical(alive(entries, live).push(identity)),
        0 <= i < entries.len() ==> canonical(entries.remove(i)),
{
    lemma_alive(entries, live);
    let kept = alive(entries, live);
    lemma_position(kept, identity.mount_trace_id, identity.fs_object_id, 0);
    if 0 <= i < entries.len() {
        let rest = entries.remove(i);
        assert forall|a: int, b: int| 0 <= a < b < rest.len() implies !(#[trigger] rest[a]).names(
            (#[trigger] rest[b]).mount_trace_id,
            rest[b].fs_object_id,
        ) by {
            let x = if a < i {
                a
            } else {
                a + 1
            };
            let y = if b < i {
                b
            } else {
                b + 1
            };
            assert(rest[a] == entries[x] && rest[b] == entries[y]);
        }
    }
}

/// Asking again for an object whose container is alive finds that container.
pub proof fn law_container_is_found_again(
    kept: Seq<FilePageContainerIdentity>,
    identity: FilePageContainerIdentity,
)
    requires
        position(kept, identity.mount_trace_id, identity.fs_object_id, 0) is None,
    ensures
        position(
            kept.push(identity),
            identity.mount_trace_id,
            identity.fs_object_id,
            0,
        ) == Some(kept.len()),
        kept.push(identity)[kept.len() as int].container == identity.container,
{
    let all = kept.push(identity);
    lemma_position(kept, identity.mount_trace_id, identity.fs_object_id, 0);
    lemma_position(all, identity.mount_trace_id, identity.fs_object_id, 0);
    assert(all[kept.len() as int].names(identity.mount_trace_id, identity.fs_object_id));
    assert forall|j: int| 0 <= j < kept.len() implies !(#[trigger] all[j]).names(
        identity.mount_trace_id,
        identity.fs_object_id,
    ) by {
        assert(all[j] == kept[j]);
    }
}

} // verus!

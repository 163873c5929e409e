use page_backed::container::{
    AnonSwapPolicy, MaterializeAccess, PageContainer, PageContainerKind,
};
use page_backed::frame::{CachePin, CachedFrame, MaterializedPage, PageCacheError, PageLease};
use page_backed::ids::{AllocError, Errno, PageIndex, Ppn, USER_PAGE_SIZE};
use page_backed::materialize::PinGrants;
use page_backed::page_access::{AccessAnswers, AccessStep};
use page_backed::share::{cow_replace_into_private, install_shared_page, CowAnswers};
use page_backed::slot::PageSlotState;
use page_backed::step::StepOutcome;
use std::collections::BTreeMap;

/// Frame contents, and the frames that are still free.
struct Memory {
    frames: BTreeMap<usize, Vec<u8>>,
    next: usize,
}

impl Memory {
    fn new() -> Self {
        Memory { frames: BTreeMap::new(), next: 100 }
    }

    fn zeroed(&mut self) -> Ppn {
        let ppn = self.next;
        self.next += 1;
        self.frames.insert(ppn, vec![0; USER_PAGE_SIZE]);
        Ppn(ppn)
    }

    fn write(&mut self, ppn: Ppn, bytes: &[u8]) {
        self.frames.insert(ppn.0, bytes.to_vec());
    }

    fn read(&self, ppn: Ppn) -> &[u8] {
        &self.frames[&ppn.0]
    }

    fn copy(&mut self, from: Ppn, to: Ppn) {
        let bytes = self.frames[&from.0].clone();
        self.frames.insert(to.0, bytes);
    }
}

fn anon_pc(page_count: u64) -> PageContainer {
    PageContainer::new(
        PageContainerKind::Anon { swap_policy: AnonSwapPolicy::Reclaimable },
        page_count,
    )
}

fn device_pc(base: usize) -> PageContainer {
    PageContainer::new(PageContainerKind::Device { base_ppn: Ppn(base), page_count: 1 }, 1)
}

fn materialize(
    pc: &mut PageContainer,
    memory: &mut Memory,
    page: u64,
    access: MaterializeAccess,
) -> MaterializedPage {
    let answers = AccessAnswers {
        pins: PinGrants { cache: Ok(()), map: Ok(()) },
        retire: true,
        allocated: Ok(CachedFrame::from_pin(CachePin { ppn: memory.zeroed() })),
        fresh: 900,
    };
    match pc.materialize_page(PageIndex::new(page), access, answers).step {
        AccessStep::Finished(StepOutcome::Done(page)) => page,
        other => panic!("materialize: {other:?}"),
    }
}

fn make_private(pc: &mut PageContainer, memory: &mut Memory, page: u64) -> Result<Ppn, PageCacheError> {
    let fresh = memory.zeroed();
    if let Some(shared) = pc.lookup(PageIndex::new(page)) {
        memory.copy(shared, fresh);
    }
    cow_replace_into_private(
        pc,
        PageIndex::new(page),
        CowAnswers { reserved: Ok(fresh), copied: Ok(()), pinned: Ok(()), retire: true },
    )
}

#[test]
fn pagebacked_install_shared_page_attaches_existing_frame_to_new_pc() {
    let mut memory = Memory::new();
    let mut source = anon_pc(1);
    let mut dest = anon_pc(1);
    let source_ppn = materialize(&mut source, &mut memory, 0, MaterializeAccess::Write).ppn;
    let pattern = vec![0xa7u8; USER_PAGE_SIZE];
    memory.write(source_ppn, &pattern);

    install_shared_page(&mut dest, PageIndex::new(0), source_ppn, Ok(()), true)
        .expect("share page");

    assert_eq!(dest.lookup(PageIndex::new(0)), Some(source_ppn));
    assert_eq!(memory.read(source_ppn), pattern);
}

#[test]
fn pagebacked_install_shared_page_rejects_already_present_entry() {
    let mut memory = Memory::new();
    let mut source = anon_pc(1);
    let mut dest = anon_pc(1);
    let source_ppn = materialize(&mut source, &mut memory, 0, MaterializeAccess::Read).ppn;
    let dest_ppn = materialize(&mut dest, &mut memory, 0, MaterializeAccess::Read).ppn;

    let result = install_shared_page(&mut dest, PageIndex::new(0), source_ppn, Ok(()), true);
    assert!(matches!(result, Err(PageCacheError::AlreadyPresent { .. })));
    assert_eq!(result, Err(PageCacheError::AlreadyPresent { current: dest_ppn }));
}

#[test]
fn pagebacked_install_shared_page_rejects_device_destination() {
    let mut device = device_pc(0xface_5000);
    let result =
        install_shared_page(&mut device, PageIndex::new(0), Ppn(0xface_5000), Ok(()), true);
    assert_eq!(result, Err(PageCacheError::UnsupportedKind));
}

#[test]
fn pagebacked_cow_replace_into_private_swaps_to_fresh_frame_with_matching_bytes() {
    let mut memory = Memory::new();
    let mut source = anon_pc(1);
    let mut dest = anon_pc(1);
    let source_ppn = materialize(&mut source, &mut memory, 0, MaterializeAccess::Write).ppn;
    let pattern: Vec<u8> = (0..USER_PAGE_SIZE).map(|i| (i & 0xff) as u8).collect();
    memory.write(source_ppn, &pattern);

    install_shared_page(&mut dest, PageIndex::new(0), source_ppn, Ok(()), true)
        .expect("share page");
    assert_eq!(dest.lookup(PageIndex::new(0)), Some(source_ppn));

    let new_ppn = make_private(&mut dest, &mut memory, 0).expect("cow replace");

    assert_ne!(new_ppn, source_ppn);
    assert_eq!(dest.lookup(PageIndex::new(0)), Some(new_ppn));
    assert_eq!(source.lookup(PageIndex::new(0)), Some(source_ppn));
    assert_eq!(memory.read(new_ppn), pattern);
}

#[test]
fn pagebacked_cow_replace_into_private_errors_on_missing_page() {
    let mut memory = Memory::new();
    let mut dest = anon_pc(1);
    let result = make_private(&mut dest, &mut memory, 0);
    assert_eq!(result, Err(PageCacheError::MissingPage));
}

#[test]
fn pagebacked_cow_replace_into_private_rejects_device_backing() {
    let mut memory = Memory::new();
    let mut device = device_pc(0xface_6000);
    let result = make_private(&mut device, &mut memory, 0);
    assert_eq!(result, Err(PageCacheError::UnsupportedKind));
}

#[test]
fn refused_allocations_leave_the_shared_frame_in_place() {
    let mut dest = anon_pc(1);
    install_shared_page(&mut dest, PageIndex::new(0), Ppn(7), Ok(()), true).expect("share page");
    for answers in [
        CowAnswers {
            reserved: Err(AllocError::Exhausted),
            copied: Ok(()),
            pinned: Ok(()),
            retire: true,
        },
        CowAnswers {
            reserved: Ok(Ppn(8)),
            copied: Err(AllocError::Exhausted),
            pinned: Ok(()),
            retire: true,
        },
        CowAnswers {
            reserved: Ok(Ppn(8)),
            copied: Ok(()),
            pinned: Err(AllocError::Exhausted),
            retire: true,
        },
    ] {
        assert_eq!(
            cow_replace_into_private(&mut dest, PageIndex::new(0), answers),
            Err(PageCacheError::Alloc(AllocError::Exhausted))
        );
        assert_eq!(dest.lookup(PageIndex::new(0)), Some(Ppn(7)));
    }
    assert_eq!(
        cow_replace_into_private(
            &mut dest,
            PageIndex::new(0),
            CowAnswers { reserved: Ok(Ppn(8)), copied: Ok(()), pinned: Ok(()), retire: false },
        ),
        Err(PageCacheError::Backend(Errno::EAGAIN))
    );
    assert_eq!(dest.lookup(PageIndex::new(0)), Some(Ppn(7)));
}

#[test]
fn pagebacked_user_gift_installs_absent_slot_without_copy() {
    let mut pc = anon_pc(2);
    let page = PageIndex::new(1);
    let gift = Ppn(0x51);

    assert_eq!(
        pc.install_user_gift_or_copy(page, gift, Ok(()), Err(AllocError::Exhausted), true),
        Ok(true)
    );

    assert_eq!(pc.lookup(page), Some(gift));
    assert_eq!(pc.resident_pages(), 1);
    assert!(
        pc.page_marks(page).expect("gift-installed page marks").dirty,
        "gifted user contents become dirty PageBacked contents"
    );
}

#[test]
fn pagebacked_user_gift_copies_to_present_slot_and_marks_dirty() {
    let mut memory = Memory::new();
    let gift = memory.zeroed();
    let pattern = [0x41, 0x52, 0x63, 0x74, 0x85, 0x96, 0xa7, 0xb8];
    let mut contents = vec![0u8; USER_PAGE_SIZE];
    contents[128..136].copy_from_slice(&pattern);
    memory.write(gift, &contents);
    let mut pc = anon_pc(2);
    let page = PageIndex::new(0);
    let existing = materialize(&mut pc, &mut memory, 0, MaterializeAccess::Read).ppn;
    assert!(!pc.page_marks(page).expect("page marks").dirty);
    memory.copy(gift, existing);

    assert_eq!(pc.install_user_gift_or_copy(page, gift, Ok(()), Ok(()), true), Ok(false));

    assert_eq!(memory.read(existing)[128..136], pattern);
    assert_eq!(pc.lookup(page), Some(existing));
    assert!(pc.page_marks(page).expect("copied page marks").dirty);
}

#[test]
fn pagebacked_user_gift_rejects_device_destination() {
    let mut pc = device_pc(0xfeed_0000);

    assert_eq!(
        pc.install_user_gift_or_copy(PageIndex::new(0), Ppn(0x52), Ok(()), Ok(()), true),
        Err(PageCacheError::UnsupportedKind)
    );
    assert_eq!(pc.resident_pages(), 0);
}

#[test]
fn a_gift_out_of_bounds_or_without_a_pin_is_refused() {
    let mut pc = anon_pc(1);
    assert_eq!(
        pc.install_user_gift_or_copy(PageIndex::new(1), Ppn(0x53), Ok(()), Ok(()), true),
        Err(PageCacheError::OutOfBounds)
    );
    assert_eq!(
        pc.install_user_gift_or_copy(
            PageIndex::new(0),
            Ppn(0x53),
            Err(AllocError::Exhausted),
            Ok(()),
            true
        ),
        Err(PageCacheError::Alloc(AllocError::Exhausted))
    );
    assert_eq!(
        pc.install_user_gift_or_copy(PageIndex::new(0), Ppn(0x53), Ok(()), Ok(()), false),
        Err(PageCacheError::Backend(Errno::EAGAIN))
    );
    assert_eq!(pc.resident_pages(), 0);
}

#[test]
fn a_leased_frame_is_shared_or_copied() {
    let mut pc = anon_pc(2);
    let first = PageIndex::new(0);
    let lease = PageLease::from_pin(CachePin { ppn: Ppn(0x61) });
    assert_eq!(pc.install_page_lease_or_copy(first, lease, Ok(()), Ok(()), true), Ok(true));
    assert_eq!(pc.lookup(first), Some(Ppn(0x61)));
    assert!(!pc.page_marks(first).expect("marks").dirty);

    let lease = PageLease::from_pin(CachePin { ppn: Ppn(0x62) });
    assert_eq!(pc.install_page_lease_or_copy(first, lease, Ok(()), Ok(()), true), Ok(false));
    assert_eq!(pc.lookup(first), Some(Ppn(0x61)));
    let marks = pc.page_marks(first).expect("marks");
    assert!(marks.dirty);
    assert!(marks.referenced);
    assert_eq!(
        pc.page_slot_snapshot(first).expect("slot").state,
        PageSlotState::Dirty { ppn: Ppn(0x61) }
    );

    let mixed = PageLease {
        ppn: Ppn(0x63),
        cache_pin: PageLease::from_pin(CachePin { ppn: Ppn(0x64) }).cache_pin,
    };
    assert_eq!(
        pc.install_page_lease_or_copy(PageIndex::new(1), mixed, Ok(()), Ok(()), true),
        Err(PageCacheError::MismatchedFrame { current: Ppn(0x63) })
    );
    assert_eq!(pc.lookup(PageIndex::new(1)), None);
}

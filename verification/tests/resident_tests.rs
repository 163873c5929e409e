use page_backed::container::{
    AnonSwapPolicy, MaterializeAccess, PageContainer, PageContainerKind,
};
use page_backed::frame::{CachePin, CachedFrame, MaterializedPage, PageCacheError};
use page_backed::ids::{Errno, PageIndex, Ppn};
use page_backed::materialize::{lease_materialized_page, materialize_page_now, PinGrants};
use page_backed::page_access::{AccessAnswers, AccessStep};
use page_backed::resident::{resident_radix_levels, ResidentCell, ResidentRoot};
use page_backed::residency::{
    retire_step, ResidentMutationClaim, RetireAnswer, RetireStep,
};
use page_backed::slot::PageSlotState;
use page_backed::step::StepOutcome;

fn device_pc(base: usize) -> PageContainer {
    PageContainer::new(PageContainerKind::Device { base_ppn: Ppn(base), page_count: 1 }, 1)
}

fn answers() -> AccessAnswers {
    AccessAnswers {
        pins: PinGrants { cache: Ok(()), map: Ok(()) },
        retire: true,
        allocated: Ok(CachedFrame::from_pin(CachePin { ppn: Ppn(0x900) })),
        fresh: 77,
    }
}

fn materialize_now(
    pc: &mut PageContainer,
    page: PageIndex,
    access: MaterializeAccess,
) -> Result<MaterializedPage, PageCacheError> {
    match pc.materialize_page(page, access, answers()).step {
        AccessStep::Finished(outcome) => materialize_page_now(outcome),
        other => panic!("access goes on: {other:?}"),
    }
}

#[test]
fn resident_hit_baseline_takes_pagecontainer_state_lock() {
    let mut pc = device_pc(0);
    let page = PageIndex::new(0);
    pc.pages
        .install_if_absent(page, CachedFrame::from_device(Ppn(0)))
        .expect("seed resident device entry");

    assert_eq!(pc.lookup(page), Some(Ppn(0)));
    assert!(pc.lookup_resident(page).is_none());
}

#[test]
fn resident_root_replacement_preserves_old_guard_binding() {
    let mut pc = device_pc(0xface_8000);
    let page = PageIndex::new(0);
    let old_ppn = Ppn(0xface_8000);
    let replacement_ppn = Ppn(0xface_9000);
    pc.install_resident_if_absent_published(page, CachedFrame::from_device(old_ppn), true)
        .expect("publish initial resident root");

    let old_root = pc.resident_root();
    let generation = pc.page_slot_snapshot(page).expect("slot").generation;
    pc.replace_resident_if_match_published(
        page,
        old_ppn,
        generation,
        CachedFrame::from_device(replacement_ppn),
        true,
    )
    .expect("publish replacement root");

    assert_eq!(old_root.lookup(page).expect("old root binding").ppn(), old_ppn);
    assert_eq!(
        pc.lookup_resident(page).expect("replacement root binding").ppn(),
        replacement_ppn
    );
}

#[test]
fn resident_root_backpressure_leaves_old_root_published() {
    let mut pc = device_pc(0xface_a000);
    let page = PageIndex::new(0);
    let old_ppn = Ppn(0xface_a000);
    pc.install_resident_if_absent_published(page, CachedFrame::from_device(old_ppn), true)
        .expect("publish initial resident root");
    let before = pc.page_slot_snapshot(page).expect("resident slot");

    assert!(pc
        .replace_resident_if_match_published(
            page,
            old_ppn,
            before.generation,
            CachedFrame::from_device(Ppn(0xface_b000)),
            false,
        )
        .is_err());

    assert_eq!(
        pc.lookup_resident(page).expect("old root remains visible").ppn(),
        old_ppn
    );
    assert_eq!(pc.lookup(page), Some(old_ppn));
    assert_eq!(pc.page_slot_snapshot(page).expect("resident slot"), before);
}

#[test]
fn guarded_resident_hit_avoids_pagecontainer_state_lock() {
    let mut pc = device_pc(0xface_c000);
    let page = PageIndex::new(0);
    let ppn = Ppn(0xface_c000);
    pc.install_resident_if_absent_published(page, CachedFrame::from_device(ppn), true)
        .expect("publish resident root");

    let shared: &PageContainer = &pc;
    let hit = shared
        .materialize_published_read(page, Ok(()))
        .expect("published binding")
        .expect("guarded resident materialization");
    assert_eq!(hit.ppn, ppn);
}

#[test]
fn device_materialization_publishes_a_guarded_read_hit() {
    let ppn = Ppn(0xface_d000);
    let mut pc = device_pc(0xface_d000);
    let page = PageIndex::new(0);

    let first = materialize_now(&mut pc, page, MaterializeAccess::Read)
        .expect("install and publish device resident page");
    assert!(first.newly_installed);

    let second = pc
        .materialize_published_read(page, Ok(()))
        .expect("published binding")
        .expect("guarded resident hit after installation");
    assert_eq!(second.ppn, ppn);
    assert!(!second.newly_installed);
}

#[test]
fn resident_cell_keeps_one_binding_pin_while_leases_come_and_go() {
    let mut pc = PageContainer::new(
        PageContainerKind::Anon { swap_policy: AnonSwapPolicy::Reclaimable },
        1,
    );
    let page = PageIndex::new(0);
    let ppn = materialize_now(&mut pc, page, MaterializeAccess::Read)
        .expect("install resident anon page")
        .ppn;

    assert_eq!(pc.resident_pages(), 1);
    assert!(pc.lease_page_at_once(page, Ok(())).is_none());
    let outcome = match pc.materialize_page(page, MaterializeAccess::Read, answers()).step {
        AccessStep::Finished(outcome) => outcome,
        other => panic!("access goes on: {other:?}"),
    };
    match lease_materialized_page(outcome, Ok(())) {
        StepOutcome::Done(lease) => assert_eq!(lease.ppn(), ppn),
        other => panic!("page lease: {other:?}"),
    }

    assert_eq!(pc.resident_pages(), 1);
    assert_eq!(pc.lookup(page), Some(ppn));
}

#[test]
fn remove_releases_the_binding_pin_once_after_slot_withdrawal() {
    let mut pc = device_pc(0xface_6000);
    let page = PageIndex::new(0);
    let ppn = materialize_now(&mut pc, page, MaterializeAccess::Read)
        .expect("install resident device page")
        .ppn;
    assert!(pc.lookup_resident(page).is_some());

    assert!(pc
        .withdraw_resident_if_match_published(page, ppn, false, true)
        .expect("publish resident withdrawal"));

    assert!(pc.lookup_resident(page).is_none());
    assert_eq!(pc.resident_pages(), 0);
    assert_eq!(pc.lookup(page), None);
    assert!(!pc
        .withdraw_resident_if_match_published(page, ppn, false, true)
        .expect("nothing is left to withdraw"));
}

#[test]
fn device_cell_keeps_one_device_binding_evidence() {
    let mut pc = device_pc(0xface_7000);
    let page = PageIndex::new(0);
    materialize_now(&mut pc, page, MaterializeAccess::Read).expect("install device resident cell");

    assert_eq!(pc.resident_pages(), 1);
    assert!(pc.pages.load(page).expect("cached entry").pin.is_device());
}

#[test]
fn a_radix_root_finds_sparse_pages_and_keeps_old_versions() {
    let mut root = ResidentRoot::empty();
    let pages = [0u64, 15, 16, 255, 4096, 1 << 40, u64::MAX];
    for (i, page) in pages.iter().enumerate() {
        root = root.with_cell(
            PageIndex::new(*page),
            ResidentCell { ppn: Ppn(i + 1), device: false },
        );
    }
    assert_eq!(root.len(), pages.len());
    assert_eq!(root.levels(), 16);
    let kept = root.snapshot();
    for (i, page) in pages.iter().enumerate() {
        assert_eq!(
            root.lookup(PageIndex::new(*page)).map(|cell| cell.ppn()),
            Some(Ppn(i + 1))
        );
    }
    assert!(root.lookup(PageIndex::new(17)).is_none());

    let fewer = root.without_cell(PageIndex::new(u64::MAX)).without_cell(PageIndex::new(1 << 40));
    assert!(fewer.lookup(PageIndex::new(u64::MAX)).is_none());
    assert_eq!(fewer.len(), pages.len() - 2);
    assert_eq!(kept.lookup(PageIndex::new(u64::MAX)).map(|cell| cell.ppn()), Some(Ppn(7)));
}

#[test]
fn radix_levels_follow_the_highest_digit() {
    assert_eq!(resident_radix_levels(0), 1);
    assert_eq!(resident_radix_levels(15), 1);
    assert_eq!(resident_radix_levels(16), 2);
    assert_eq!(resident_radix_levels(u64::MAX), 16);
}

#[test]
fn only_one_writer_claims_the_root() {
    let mut sequence = 4u64;
    let claim = ResidentMutationClaim::try_acquire(&mut sequence).expect("claim");
    assert_eq!(sequence, 5);
    assert!(ResidentMutationClaim::try_acquire(&mut sequence).is_none());
    claim.release(&mut sequence);
    assert_eq!(sequence, 4);
    let claim = ResidentMutationClaim::try_acquire(&mut sequence).expect("claim again");
    claim.commit(&mut sequence);
    assert_eq!(sequence, 6);

    let mut last = u64::MAX - 1;
    let claim = ResidentMutationClaim::try_acquire(&mut last).expect("last claim");
    claim.commit(&mut last);
    assert_eq!(last, 2);
}

#[test]
fn a_busy_root_refuses_publication_without_effect() {
    let mut pc = device_pc(0x40);
    pc.resident_sequence = 3;
    let page = PageIndex::new(0);
    assert_eq!(
        pc.install_resident_if_absent_published(page, CachedFrame::from_device(Ppn(0x40)), true),
        Err(PageCacheError::Backend(Errno::EAGAIN))
    );
    assert_eq!(pc.lookup(page), None);
    assert_eq!(pc.page_slot_snapshot(page).expect("slot").state, PageSlotState::Empty);
    assert_eq!(pc.resident_sequence, 3);
}

#[test]
fn retire_credit_requests_are_bounded() {
    assert_eq!(retire_step(0, RetireAnswer::Reserved), RetireStep::Granted);
    assert_eq!(retire_step(0, RetireAnswer::Exhausted), RetireStep::DrainAndRetry);
    assert_eq!(retire_step(2, RetireAnswer::Exhausted), RetireStep::DrainAndRetry);
    assert_eq!(retire_step(3, RetireAnswer::Exhausted), RetireStep::Backpressured);
    assert_eq!(retire_step(0, RetireAnswer::Refused), RetireStep::Backpressured);
}

#[test]
fn a_root_grows_by_the_levels_that_a_page_needs() {
    let cell = ResidentCell { ppn: Ppn(1), device: false };
    let root = ResidentRoot::empty();
    assert_eq!(root.levels(), 0);
    let root = root.with_cell(PageIndex::new(3), cell);
    assert_eq!(root.levels(), 1);
    let root = root.with_cell(PageIndex::new(0x10), cell);
    assert_eq!(root.levels(), 2);
    let root = root.with_cell(PageIndex::new(0x5), cell);
    assert_eq!(root.levels(), 2);
    assert_eq!(root.without_cell(PageIndex::new(0x10)).levels(), 1);
}

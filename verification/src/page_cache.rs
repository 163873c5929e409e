//! The page cache proper: which frame backs which page, and the marks on it.

use crate::frame::{CachedFrame, PageCacheError, PageCachePin};
use crate::ids::{PageIndex, Ppn};
use crate::range::PageRange;
use crate::resident::{ResidentCell, ResidentRoot};
use crate::sparse_index::SparseMap;
use vstd::prelude::*;

verus! {

#[derive(Clone, Copy, Debug, PartialEq, Eq, Structural)]
pub struct PageMarks {
    pub dirty: bool,
    pub writeback: bool,
    pub referenced: bool,
    pub no_reclaim: bool,
}

impl PageMarks {
    pub open spec fn none() -> Self {
        PageMarks { dirty: false, writeback: false, referenced: false, no_reclaim: false }
    }

    pub fn new() -> (marks: Self)
        ensures
            marks == PageMarks::none(),
    {
        PageMarks { dirty: false, writeback: false, referenced: false, no_reclaim: false }
    }
}

impl Default for PageMarks {
    fn default() -> (marks: Self)
        ensures
            marks == PageMarks::none(),
    {
        PageMarks::new()
    }
}

/// The marks that an entry itself carries. Dirtiness is the slot's business.
#[derive(Clone, Copy, Debug, PartialEq, Eq, Structural)]
pub enum PageCacheMark {
    Referenced,
    NoReclaim,
}

impl PageMarks {
    pub open spec fn has(self, mark: PageCacheMark) -> bool {
        match mark {
            PageCacheMark::Referenced => self.referenced,
            PageCacheMark::NoReclaim => self.no_reclaim,
        }
    }

    pub open spec fn with(self, mark: PageCacheMark, value: bool) -> Self {
        match mark {
            PageCacheMark::Referenced => PageMarks { referenced: value, ..self },
            PageCacheMark::NoReclaim => PageMarks { no_reclaim: value, ..self },
        }
    }
}

/// One cached page.
#[derive(Debug)]
pub struct PageCacheEntry {
    pub ppn: Ppn,
    pub pin: PageCachePin,
    pub marks: PageMarks,
}

impl PageCacheEntry {
    pub open spec fn wf(self) -> bool {
        self.pin.frame() == self.ppn
    }

    /// What is published of this entry.
    pub open spec fn binding(self) -> ResidentCell {
        ResidentCell { ppn: self.ppn, device: self.pin is Device }
    }

    /// The entry of a page that has just been installed.
    pub open spec fn installed(frame: CachedFrame) -> Self {
        PageCacheEntry {
            ppn: frame.ppn,
            pin: frame.pin,
            marks: PageMarks { referenced: true, ..PageMarks::none() },
        }
    }

    pub open spec fn marked(self, mark: PageCacheMark, value: bool) -> Self {
        PageCacheEntry { marks: self.marks.with(mark, value), ..self }
    }

    pub fn new(frame: CachedFrame) -> (entry: Self)
        ensures
            entry == PageCacheEntry::installed(frame),
    {
        let mut marks = PageMarks::new();
        marks.referenced = true;
        PageCacheEntry { ppn: frame.ppn, pin: frame.pin, marks }
    }

    pub fn ppn(&self) -> (ppn: Ppn)
        ensures
            ppn == self.ppn,
    {
        self.ppn
    }

    pub fn cell(&self) -> (cell: ResidentCell)
        ensures
            cell == self.binding(),
    {
        ResidentCell { ppn: self.ppn, device: self.pin.is_device() }
    }

    pub fn get_mark(&self, mark: PageCacheMark) -> (value: bool)
        ensures
            value == self.marks.has(mark),
    {
        match mark {
            PageCacheMark::Referenced => self.marks.referenced,
            PageCacheMark::NoReclaim => self.marks.no_reclaim,
        }
    }

    pub fn set_mark(&mut self, mark: PageCacheMark, value: bool)
        ensures
            *final(self) == old(self).marked(mark, value),
    {
        match mark {
            PageCacheMark::Referenced => {
                self.marks.referenced = value;
            },
            PageCacheMark::NoReclaim => {
                self.marks.no_reclaim = value;
            },
        }
    }
}

/// Cached pages by index.
#[derive(Debug)]
pub struct PageCacheIndex {
    pub pages: SparseMap<PageCacheEntry>,
}

impl View for PageCacheIndex {
    type V = Map<u64, PageCacheEntry>;

    open spec fn view(&self) -> Map<u64, PageCacheEntry> {
        self.pages@
    }
}

/// The pages of `keys` that satisfy `keep`, with their frames, in order.
pub open spec fn selected(
    keys: Seq<u64>,
    pages: Map<u64, PageCacheEntry>,
    keep: spec_fn(u64) -> bool,
) -> Seq<(PageIndex, Ppn)>
    decreases keys.len(),
{
    if keys.len() == 0 {
        Seq::empty()
    } else {
        let rest = selected(keys.drop_last(), pages, keep);
        if keep(keys.last()) {
            rest.push((PageIndex(keys.last()), pages[keys.last()].ppn))
        } else {
            rest
        }
    }
}

/// What a selection holds: exactly the pages that satisfy `keep`.
pub proof fn lemma_selected(
    keys: Seq<u64>,
    pages: Map<u64, PageCacheEntry>,
    keep: spec_fn(u64) -> bool,
)
    ensures
        selected(keys, pages, keep).len() <= keys.len(),
        forall|i: int|
            0 <= i < selected(keys, pages, keep).len() ==> {
                let item = #[trigger] selected(keys, pages, keep)[i];
                keys.contains(item.0.0) && keep(item.0.0) && item.1 == pages[item.0.0].ppn
            },
        forall|k: u64| #[trigger]
            keys.contains(k) && keep(k) ==> selected(keys, pages, keep).contains(
                (PageIndex(k), pages[k].ppn),
            ),
    decreases keys.len(),
{
    if keys.len() > 0 {
        let init = keys.drop_last();
        let rest = selected(init, pages, keep);
        let all = selected(keys, pages, keep);
        lemma_selected(init, pages, keep);
        assert forall|i: int| 0 <= i < all.len() implies {
            let item = #[trigger] all[i];
            keys.contains(item.0.0) && keep(item.0.0) && item.1 == pages[item.0.0].ppn
        } by {
            if i < rest.len() {
                assert(all[i] == rest[i]);
                assert(init.contains(rest[i].0.0));
                let at = init.index_of(rest[i].0.0);
                assert(init[at] == rest[i].0.0);
                assert(keys[at] == rest[i].0.0);
            } else {
                assert(keys[keys.len() - 1] == keys.last());
            }
        }
        assert forall|k: u64| #[trigger] keys.contains(k) && keep(k) implies all.contains(
            (PageIndex(k), pages[k].ppn),
        ) by {
            let at = keys.index_of(k);
            if k == keys.last() {
                assert(all[all.len() - 1] == (PageIndex(k), pages[k].ppn));
            } else {
                assert(keys[at] == k);
                assert(init[at] == k);
                assert(init.contains(k));
                assert(rest.contains((PageIndex(k), pages[k].ppn)));
                let j = rest.index_of((PageIndex(k), pages[k].ppn));
                assert(all[j] == rest[j]);
            }
        }
    }
}

/// A selection lists pages in ascending order.
pub proof fn lemma_selected_increasing(
    keys: Seq<u64>,
    pages: Map<u64, PageCacheEntry>,
    keep: spec_fn(u64) -> bool,
)
    requires
        crate::sparse_index::increasing(keys),
    ensures
        forall|i: int, j: int|
            0 <= i < j < selected(keys, pages, keep).len() ==> (#[trigger] selected(
                keys,
                pages,
                keep,
            )[i]).0.0 < (#[trigger] selected(keys, pages, keep)[j]).0.0,
    decreases keys.len(),
{
    if keys.len() > 0 {
        let init = keys.drop_last();
        let rest = selected(init, pages, keep);
        let all = selected(keys, pages, keep);
        assert forall|i: int, j: int| 0 <= i < j < init.len() implies (#[trigger] init[i]) < (
        #[trigger] init[j]) by {
            assert(keys[i] < keys[j]);
        }
        lemma_selected_increasing(init, pages, keep);
        lemma_selected(init, pages, keep);
        assert forall|i: int, j: int| 0 <= i < j < all.len() implies (#[trigger] all[i]).0.0 < (
        #[trigger] all[j]).0.0 by {
            assert(all[i] == rest[i]);
            if j < rest.len() {
                assert(all[j] == rest[j]);
            } else {
                assert(init.contains(rest[i].0.0));
                let at = init.index_of(rest[i].0.0);
                assert(init[at] == rest[i].0.0);
                assert(keys[at] < keys[keys.len() - 1]);
            }
        }
    }
}

/// Outcome of installing `frame` for `page`, which keeps the frame it has.
pub open spec fn installed_if_absent(
    index: Map<u64, PageCacheEntry>,
    page: PageIndex,
    frame: CachedFrame,
) -> (Map<u64, PageCacheEntry>, Result<(), PageCacheError>) {
    if index.contains_key(page.0) {
        (index, Err(PageCacheError::AlreadyPresent { current: index[page.0].ppn }))
    } else {
        (index.insert(page.0, PageCacheEntry::installed(frame)), Ok(()))
    }
}

impl PageCacheIndex {
    pub open spec fn wf(&self) -> bool {
        &&& self.pages.wf()
        &&& forall|k: u64| #[trigger] self@.contains_key(k) ==> self@[k].wf()
    }

    /// The pages, in ascending order.
    pub open spec fn order(&self) -> Seq<u64> {
        self.pages.order()
    }

    /// The frame that backs `page`.
    pub open spec fn frame_of(&self, page: PageIndex) -> Option<Ppn> {
        if self@.contains_key(page.0) {
            Some(self@[page.0].ppn)
        } else {
            None
        }
    }

    pub fn new() -> (index: Self)
        ensures
            index.wf(),
            index@ == Map::<u64, PageCacheEntry>::empty(),
    {
        PageCacheIndex { pages: SparseMap::new() }
    }

    pub fn len(&self) -> (len: usize)
        requires
            self.wf(),
        ensures
            len == self@.len(),
    {
        self.pages.len()
    }

    pub fn is_empty(&self) -> (empty: bool)
        requires
            self.wf(),
        ensures
            empty == (self@ == Map::<u64, PageCacheEntry>::empty()),
    {
        self.pages.is_empty()
    }

    pub fn load(&self, page: PageIndex) -> (entry: Option<&PageCacheEntry>)
        requires
            self.wf(),
        ensures
            match entry {
                Some(entry) => self@.contains_key(page.0) && *entry == self@[page.0],
                None => !self@.contains_key(page.0),
            },
    {
        self.pages.get(page.0)
    }

    pub fn lookup(&self, page: PageIndex) -> (ppn: Option<Ppn>)
        requires
            self.wf(),
        ensures
            ppn == self.frame_of(page),
    {
        match self.load(page) {
            Some(entry) => Some(entry.ppn()),
            None => None,
        }
    }

    /// The marks of the entry. The slot adds dirtiness to them.
    pub fn marks(&self, page: PageIndex) -> (marks: Option<PageMarks>)
        requires
            self.wf(),
        ensures
            marks == (if self@.contains_key(page.0) {
                Some(
                    PageMarks {
                        dirty: false,
                        writeback: false,
                        referenced: self@[page.0].marks.referenced,
                        no_reclaim: self@[page.0].marks.no_reclaim,
                    },
                )
            } else {
                None
            }),
    {
        match self.load(page) {
            Some(entry) => Some(
                PageMarks {
                    dirty: false,
                    writeback: false,
                    referenced: entry.get_mark(PageCacheMark::Referenced),
                    no_reclaim: entry.get_mark(PageCacheMark::NoReclaim),
                },
            ),
            None => None,
        }
    }

    /// Add an entry for a page that has none.
    pub fn insert(&mut self, page: PageIndex, entry: PageCacheEntry) -> (r: Result<
        (),
        PageCacheError,
    >)
        requires
            old(self).wf(),
            entry.wf(),
        ensures
            final(self).wf(),
            match r {
                Ok(()) => {
                    &&& !old(self)@.contains_key(page.0)
                    &&& final(self)@ == old(self)@.insert(page.0, entry)
                },
                Err(error) => {
                    &&& old(self)@.contains_key(page.0)
                    &&& error == (PageCacheError::AlreadyPresent {
                        current: old(self)@[page.0].ppn,
                    })
                    &&& final(self)@ == old(self)@
                },
            },
    {
        match self.lookup(page) {
            Some(current) => Err(PageCacheError::AlreadyPresent { current }),
            None => {
                let _previous = self.pages.insert(page.0, entry);
                Ok(())
            },
        }
    }

    /// Cache `frame` for a page that is not cached.
    pub fn install_if_absent(&mut self, page: PageIndex, frame: CachedFrame) -> (r: Result<
        (),
        PageCacheError,
    >)
        requires
            old(self).wf(),
            frame.wf(),
        ensures
            final(self).wf(),
            (final(self)@, r) == installed_if_absent(old(self)@, page, frame),
    {
        match self.insert(page, PageCacheEntry::new(frame)) {
            Ok(()) => Ok(()),
            Err(error) => Err(error),
        }
    }

    /// Replace or remove the entry of `page` if it is bound to `expected`, and
    /// return the entry that was there.
    pub fn compare_replace(
        &mut self,
        page: PageIndex,
        expected: Ppn,
        replacement: Option<PageCacheEntry>,
    ) -> (r: Result<PageCacheEntry, PageCacheError>)
        requires
            old(self).wf(),
            replacement matches Some(entry) ==> entry.wf(),
        ensures
            final(self).wf(),
            match r {
                Ok(previous) => {
                    &&& old(self).frame_of(page) == Some(expected)
                    &&& previous == old(self)@[page.0]
                    &&& final(self)@ == match replacement {
                        Some(entry) => old(self)@.insert(page.0, entry),
                        None => old(self)@.remove(page.0),
                    }
                },
                Err(error) => {
                    &&& final(self)@ == old(self)@
                    &&& old(self).frame_of(page) != Some(expected)
                    &&& error == match old(self).frame_of(page) {
                        None => PageCacheError::MissingPage,
                        Some(current) => PageCacheError::MismatchedFrame { current },
                    }
                },
            },
    {
        match self.lookup(page) {
            None => Err(PageCacheError::MissingPage),
            Some(current) => {
                if current != expected {
                    return Err(PageCacheError::MismatchedFrame { current });
                }
                let previous = match replacement {
                    Some(entry) => self.pages.insert(page.0, entry),
                    None => self.pages.remove(page.0),
                };
                match previous {
                    Some(previous) => Ok(previous),
                    None => Err(PageCacheError::MissingPage),
                }
            },
        }
    }

    /// Replace the frame of `page`, or withdraw the page, if it is bound to
    /// `expected`.
    pub fn install_if_match(
        &mut self,
        page: PageIndex,
        expected: Ppn,
        replacement: Option<CachedFrame>,
    ) -> (r: Result<Option<Ppn>, PageCacheError>)
        requires
            old(self).wf(),
            replacement matches Some(frame) ==> frame.wf(),
        ensures
            final(self).wf(),
            match r {
                Ok(previous) => {
                    &&& old(self).frame_of(page) == Some(expected)
                    &&& previous == Some(expected)
                    &&& final(self)@ == match replacement {
                        Some(frame) => old(self)@.insert(
                            page.0,
                            PageCacheEntry::installed(frame),
                        ),
                        None => old(self)@.remove(page.0),
                    }
                },
                Err(error) => {
                    &&& final(self)@ == old(self)@
                    &&& old(self).frame_of(page) != Some(expected)
                    &&& error == match old(self).frame_of(page) {
                        None => PageCacheError::MissingPage,
                        Some(current) => PageCacheError::MismatchedFrame { current },
                    }
                },
            },
    {
        let replacement = match replacement {
            Some(frame) => Some(PageCacheEntry::new(frame)),
            None => None,
        };
        match self.compare_replace(page, expected, replacement) {
            Ok(previous) => Ok(Some(previous.ppn())),
            Err(error) => Err(error),
        }
    }

    pub fn erase(&mut self, page: PageIndex) -> (previous: Option<PageCacheEntry>)
        requires
            old(self).wf(),
        ensures
            final(self).wf(),
            final(self)@ == old(self)@.remove(page.0),
            match previous {
                Some(entry) => old(self)@.contains_key(page.0) && entry == old(self)@[page.0],
                None => !old(self)@.contains_key(page.0),
            },
    {
        self.pages.remove(page.0)
    }

    /// Drop every page from `first` on.
    pub fn erase_from(&mut self, first: PageIndex)
        requires
            old(self).wf(),
        ensures
            final(self).wf(),
            final(self)@ == old(self)@.restrict(Set::new(|k: u64| k < first.0)),
    {
        let ghost before = self@;
        let _dropped = self.pages.split_off(first.0);
        assert(self@ =~= before.restrict(Set::new(|k: u64| k < first.0)));
    }

    pub fn get_mark(&self, page: PageIndex, mark: PageCacheMark) -> (value: bool)
        requires
            self.wf(),
        ensures
            value == (self@.contains_key(page.0) && self@[page.0].marks.has(mark)),
    {
        match self.load(page) {
            Some(entry) => entry.get_mark(mark),
            None => false,
        }
    }

    /// Give the mark of a cached page a value.
    fn write_mark(&mut self, page: PageIndex, mark: PageCacheMark, value: bool) -> (r: Result<
        (),
        PageCacheError,
    >)
        requires
            old(self).wf(),
        ensures
            final(self).wf(),
            final(self).order() == old(self).order(),
            match r {
                Ok(()) => {
                    &&& old(self)@.contains_key(page.0)
                    &&& final(self)@ == old(self)@.insert(
                        page.0,
                        old(self)@[page.0].marked(mark, value),
                    )
                },
                Err(error) => {
                    &&& !old(self)@.contains_key(page.0)
                    &&& error == PageCacheError::MissingPage
                    &&& final(self)@ == old(self)@
                },
            },
    {
        if !self.pages.contains_key(page.0) {
            return Err(PageCacheError::MissingPage);
        }
        let entry = self.pages.get_mut(page.0);
        entry.set_mark(mark, value);
        Ok(())
    }

    pub fn set_mark(&mut self, page: PageIndex, mark: PageCacheMark) -> (r: Result<
        (),
        PageCacheError,
    >)
        requires
            old(self).wf(),
        ensures
            final(self).wf(),
            final(self).order() == old(self).order(),
            match r {
                Ok(()) => {
                    &&& old(self)@.contains_key(page.0)
                    &&& final(self)@ == old(self)@.insert(
                        page.0,
                        old(self)@[page.0].marked(mark, true),
                    )
                },
                Err(error) => {
                    &&& !old(self)@.contains_key(page.0)
                    &&& error == PageCacheError::MissingPage
                    &&& final(self)@ == old(self)@
                },
            },
    {
        self.write_mark(page, mark, true)
    }

    pub fn clear_mark(&mut self, page: PageIndex, mark: PageCacheMark) -> (r: Result<
        (),
        PageCacheError,
    >)
        requires
            old(self).wf(),
        ensures
            final(self).wf(),
            final(self).order() == old(self).order(),
            match r {
                Ok(()) => {
                    &&& old(self)@.contains_key(page.0)
                    &&& final(self)@ == old(self)@.insert(
                        page.0,
                        old(self)@[page.0].marked(mark, false),
                    )
                },
                Err(error) => {
                    &&& !old(self)@.contains_key(page.0)
                    &&& error == PageCacheError::MissingPage
                    &&& final(self)@ == old(self)@
                },
            },
    {
        self.write_mark(page, mark, false)
    }

    /// The cached pages with `mark`, in order.
    pub fn collect_marked(&self, mark: PageCacheMark) -> (pages: Vec<(PageIndex, Ppn)>)
        requires
            self.wf(),
        ensures
            pages@ == selected(self.order(), self@, |k: u64| self@[k].marks.has(mark)),
    {
        let ghost keep = |k: u64| self@[k].marks.has(mark);
        let mut pages: Vec<(PageIndex, Ppn)> = Vec::new();
        let mut i: usize = 0;
        while i < self.pages.len()
            invariant
                self.wf(),
                i <= self.order().len(),
                keep == (|k: u64| self@[k].marks.has(mark)),
                pages@ == selected(self.order().take(i as int), self@, keep),
            decreases self.order().len() - i,
        {
            let key: u64 = self.pages.key_at(i);
            let entry = self.pages.value_at(i);
            if entry.get_mark(mark) {
                pages.push((PageIndex::new(key), entry.ppn()));
            }
            assert(self.order().take(i + 1).drop_last() =~= self.order().take(i as int));
            i += 1;
        }
        assert(self.order().take(i as int) =~= self.order());
        pages
    }

    /// Whether any cached page has `mark`.
    pub fn marked(&self, mark: PageCacheMark) -> (any: bool)
        requires
            self.wf(),
        ensures
            any == exists|k: u64| #[trigger]
                self@.contains_key(k) && self@[k].marks.has(mark),
    {
        let mut i: usize = 0;
        while i < self.pages.len()
            invariant
                self.wf(),
                i <= self.order().len(),
                forall|j: int| 0 <= j < i ==> !self@[#[trigger] self.order()[j]].marks.has(mark),
            decreases self.order().len() - i,
        {
            let entry = self.pages.value_at(i);
            if entry.get_mark(mark) {
                return true;
            }
            i += 1;
        }
        proof {
            assert forall|k: u64| #[trigger] self@.contains_key(k) implies !self@[k].marks.has(
                mark,
            ) by {
                let j = self.order().index_of(k);
                assert(self.order()[j] == k);
            }
        }
        false
    }

    /// Up to `budget` reclaimable pages, in order.
    pub fn clean_pages(&self, budget: usize) -> (pages: Vec<(PageIndex, Ppn)>)
        requires
            self.wf(),
        ensures
            ({
                let all = selected(self.order(), self@, |k: u64| !self@[k].marks.no_reclaim);
                pages@ == all.take(if budget <= all.len() {
                    budget as int
                } else {
                    all.len() as int
                })
            }),
    {
        let ghost keep = |k: u64| !self@[k].marks.no_reclaim;
        let mut pages: Vec<(PageIndex, Ppn)> = Vec::new();
        let mut i: usize = 0;
        while i < self.pages.len()
            invariant
                self.wf(),
                i <= self.order().len(),
                keep == (|k: u64| !self@[k].marks.no_reclaim),
                pages@ == selected(self.order().take(i as int), self@, keep),
            decreases self.order().len() - i,
        {
            let key: u64 = self.pages.key_at(i);
            let entry = self.pages.value_at(i);
            if !entry.get_mark(PageCacheMark::NoReclaim) {
                pages.push((PageIndex::new(key), entry.ppn()));
            }
            assert(self.order().take(i + 1).drop_last() =~= self.order().take(i as int));
            i += 1;
        }
        assert(self.order().take(i as int) =~= self.order());
        pages.truncate(budget);
        pages
    }

    /// The cached pages of `range`, in order.
    pub fn clean_pages_in_range(&self, range: PageRange) -> (pages: Vec<(PageIndex, Ppn)>)
        requires
            self.wf(),
        ensures
            pages@ == selected(
                self.order(),
                self@,
                |k: u64| range.fits() && range.holds(PageIndex(k)),
            ),
    {
        let ghost keep = |k: u64| range.fits() && range.holds(PageIndex(k));
        let mut pages: Vec<(PageIndex, Ppn)> = Vec::new();
        let mut i: usize = 0;
        while i < self.pages.len()
            invariant
                self.wf(),
                i <= self.order().len(),
                keep == (|k: u64| range.fits() && range.holds(PageIndex(k))),
                pages@ == selected(self.order().take(i as int), self@, keep),
            decreases self.order().len() - i,
        {
            let key: u64 = self.pages.key_at(i);
            let entry = self.pages.value_at(i);
            if range.contains(PageIndex::new(key)) {
                pages.push((PageIndex::new(key), entry.ppn()));
            }
            assert(self.order().take(i + 1).drop_last() =~= self.order().take(i as int));
            i += 1;
        }
        assert(self.order().take(i as int) =~= self.order());
        pages
    }

    /// The projection that publishes every cached page.
    pub fn resident_root(&self) -> (root: ResidentRoot)
        requires
            self.wf(),
        ensures
            root.wf(),
            root@ == self@.map_values(|entry: PageCacheEntry| entry.binding()),
    {
        let mut root = ResidentRoot::empty();
        let mut i: usize = 0;
        while i < self.pages.len()
            invariant
                self.wf(),
                root.wf(),
                i <= self.order().len(),
                root@.len() == i,
                forall|k: u64| #[trigger]
                    root@.contains_key(k) <==> self.order().take(i as int).contains(k),
                forall|k: u64| #[trigger] root@.contains_key(k) ==> root@[k] == self@[k].binding(),
            decreases self.order().len() - i,
        {
            let key: u64 = self.pages.key_at(i);
            let entry = self.pages.value_at(i);
            let ghost before = root@;
            proof {
                self.pages.lemma_order();
                let seen = self.order().take(i as int);
                if seen.contains(key) {
                    let j = seen.index_of(key);
                    assert(seen[j] == key);
                    assert(self.order()[j] < self.order()[i as int]);
                }
                assert(!before.contains_key(key));
            }
            root = root.with_cell(PageIndex::new(key), entry.cell());
            proof {
                let seen = self.order().take(i as int);
                let next = self.order().take(i + 1);
                assert(next =~= seen.push(key));
                assert forall|k: u64| #[trigger] root@.contains_key(k) <==> next.contains(k) by {
                    if next.contains(k) && k != key {
                        let j = next.index_of(k);
                        assert(next[j] == k);
                        assert(seen[j] == k);
                    }
                    if seen.contains(k) {
                        let j = seen.index_of(k);
                        assert(next[j] == k);
                    }
                    assert(next[i as int] == key);
                }
            }
            i += 1;
        }
        proof {
            assert(self.order().take(i as int) =~= self.order());
            assert(root@ =~= self@.map_values(|entry: PageCacheEntry| entry.binding()));
        }
        root
    }
}

/// The first installation wins: a second one reports the frame that is bound and
/// changes nothing, whatever the first came to.
pub proof fn law_first_installation_wins(
    index: Map<u64, PageCacheEntry>,
    page: PageIndex,
    first: CachedFrame,
    second: CachedFrame,
)
    ensures
        ({
            let (once, done) = installed_if_absent(index, page, first);
            let bound = if done is Ok {
                first.ppn
            } else {
                index[page.0].ppn
            };
            installed_if_absent(once, page, second) == (
                once,
                Err::<(), PageCacheError>(PageCacheError::AlreadyPresent { current: bound }),
            )
        }),
{
}

} // verus!

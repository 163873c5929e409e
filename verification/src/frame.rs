//! Frames and the evidence that keeps them alive.
//!
//! A pin is a token for one role that a frame plays. The allocator grants it;
//! the library moves it to whoever relies on the frame and drops it with them.

use crate::ids::{AllocError, Errno, Ppn};
use vstd::prelude::*;

verus! {

/// The allocator's answer to a request that grants nothing but permission.
pub type Grant = Result<(), AllocError>;

/// A frame as a filesystem hands it over.
#[derive(Clone, Copy, Debug, PartialEq, Eq, Structural)]
pub struct Frame {
    pub ppn: Ppn,
    pub owned_handoff: bool,
}

impl Frame {
    /// A frame that somebody else keeps alive.
    pub fn new(ppn: Ppn) -> (frame: Self)
        ensures
            frame == (Frame { ppn, owned_handoff: false }),
    {
        Frame { ppn, owned_handoff: false }
    }

    /// A frame whose temporary ownership comes along with it.
    pub fn from_owned(ppn: Ppn) -> (frame: Self)
        ensures
            frame == (Frame { ppn, owned_handoff: true }),
    {
        Frame { ppn, owned_handoff: true }
    }

    pub fn ppn(self) -> (ppn: Ppn)
        ensures
            ppn == self.ppn,
    {
        self.ppn
    }

    /// Whether the receiver has to release the temporary ownership.
    pub fn owned_handoff(self) -> (owned: bool)
        ensures
            owned == self.owned_handoff,
    {
        self.owned_handoff
    }
}

/// Keeps a frame alive as page-cache contents.
#[derive(Debug, PartialEq, Eq)]
pub struct CachePin {
    pub ppn: Ppn,
}

/// Keeps a frame alive as the target of a mapping.
#[derive(Debug, PartialEq, Eq)]
pub struct MapPin {
    pub ppn: Ppn,
}

/// A frame of a device aperture. It needs no pin.
#[derive(Clone, Copy, Debug, PartialEq, Eq, Structural)]
pub struct DeviceFrame {
    pub ppn: Ppn,
}

#[derive(Debug, PartialEq, Eq)]
pub enum PageCachePin {
    Allocated(CachePin),
    Device(DeviceFrame),
}

impl PageCachePin {
    pub open spec fn frame(self) -> Ppn {
        match self {
            PageCachePin::Allocated(pin) => pin.ppn,
            PageCachePin::Device(frame) => frame.ppn,
        }
    }

    pub fn is_device(&self) -> (device: bool)
        ensures
            device == (self is Device),
    {
        match self {
            PageCachePin::Allocated(_) => false,
            PageCachePin::Device(_) => true,
        }
    }
}

/// A frame together with the evidence that keeps it in a page cache.
#[derive(Debug, PartialEq, Eq)]
pub struct CachedFrame {
    pub ppn: Ppn,
    pub pin: PageCachePin,
}

impl CachedFrame {
    /// The pin is for the frame.
    pub open spec fn wf(self) -> bool {
        self.pin.frame() == self.ppn
    }

    pub open spec fn allocated(ppn: Ppn) -> Self {
        CachedFrame { ppn, pin: PageCachePin::Allocated(CachePin { ppn }) }
    }

    pub open spec fn of_device(ppn: Ppn) -> Self {
        CachedFrame { ppn, pin: PageCachePin::Device(DeviceFrame { ppn }) }
    }

    /// A frame of the allocator, pinned as cache contents.
    pub fn from_pin(pin: CachePin) -> (frame: Self)
        ensures
            frame == CachedFrame::allocated(pin.ppn),
            frame.wf(),
    {
        CachedFrame { ppn: pin.ppn, pin: PageCachePin::Allocated(pin) }
    }

    pub fn from_device(ppn: Ppn) -> (frame: Self)
        ensures
            frame == CachedFrame::of_device(ppn),
            frame.wf(),
    {
        CachedFrame { ppn, pin: PageCachePin::Device(DeviceFrame { ppn }) }
    }
}

/// Evidence handed to a mapping.
#[derive(Debug, PartialEq, Eq)]
pub enum MaterializedPagePin {
    Allocated(MapPin),
    Device(DeviceFrame),
}

impl MaterializedPagePin {
    pub open spec fn frame(self) -> Ppn {
        match self {
            MaterializedPagePin::Allocated(pin) => pin.ppn,
            MaterializedPagePin::Device(frame) => frame.ppn,
        }
    }
}

/// A page ready to be mapped or copied.
#[derive(Debug, PartialEq, Eq)]
pub struct MaterializedPage {
    pub ppn: Ppn,
    pub map_pin: MaterializedPagePin,
    pub newly_installed: bool,
    pub dirty: bool,
}

/// Why a page-cache operation was refused.
#[derive(Clone, Copy, Debug, PartialEq, Eq, Structural)]
pub enum PageCacheError {
    AlreadyPresent { current: Ppn },
    MissingPage,
    MismatchedFrame { current: Ppn },
    OutOfBounds,
    UnsupportedKind,
    Backend(Errno),
    Alloc(AllocError),
}

impl PageCacheError {
    pub open spec fn errno(self) -> Errno {
        match self {
            PageCacheError::AlreadyPresent { .. } => Errno::ESTALE,
            PageCacheError::MissingPage => Errno::ESTALE,
            PageCacheError::MismatchedFrame { .. } => Errno::ESTALE,
            PageCacheError::OutOfBounds => Errno::EINVAL,
            PageCacheError::UnsupportedKind => Errno::EINVAL,
            PageCacheError::Backend(errno) => errno,
            PageCacheError::Alloc(_) => Errno::ENOMEM,
        }
    }
}

/// The error number that stands for a page-cache error.
pub fn page_cache_error_to_errno(error: PageCacheError) -> (errno: Errno)
    ensures
        errno == error.errno(),
{
    match error {
        PageCacheError::AlreadyPresent { .. } => Errno::ESTALE,
        PageCacheError::MissingPage => Errno::ESTALE,
        PageCacheError::MismatchedFrame { .. } => Errno::ESTALE,
        PageCacheError::OutOfBounds => Errno::EINVAL,
        PageCacheError::UnsupportedKind => Errno::EINVAL,
        PageCacheError::Backend(errno) => errno,
        PageCacheError::Alloc(_) => Errno::ENOMEM,
    }
}

/// A freshly allocated frame as cache contents: `reserved` is the frame that
/// the allocator set aside, `pinned` its answer to the cache pin.
pub fn allocate_cached_frame(reserved: Result<Ppn, AllocError>, pinned: Grant) -> (frame: Result<
    CachedFrame,
    PageCacheError,
>)
    ensures
        frame == match (reserved, pinned) {
            (Err(error), _) => Err(PageCacheError::Alloc(error)),
            (Ok(_), Err(error)) => Err(PageCacheError::Alloc(error)),
            (Ok(ppn), Ok(())) => Ok(CachedFrame::allocated(ppn)),
        },
{
    match reserved {
        Err(error) => Err(PageCacheError::Alloc(error)),
        Ok(ppn) => match pinned {
            Err(error) => Err(PageCacheError::Alloc(error)),
            Ok(()) => Ok(CachedFrame::from_pin(CachePin { ppn })),
        },
    }
}

/// What becomes of a frame from a filesystem, given the allocator's answers.
pub open spec fn adopted(frame: Frame, pinned: Grant, released: Grant) -> Result<
    CachedFrame,
    PageCacheError,
> {
    match pinned {
        Err(error) => Err(PageCacheError::Alloc(error)),
        Ok(()) => match released {
            Err(error) if frame.owned_handoff => Err(PageCacheError::Alloc(error)),
            _ => Ok(CachedFrame::allocated(frame.ppn)),
        },
    }
}

/// A frame from a filesystem as cache contents. `released` is the allocator's
/// answer to giving back the temporary ownership, which is asked for exactly
/// when the frame carries it; a refused pin comes before a refused release.
pub fn cached_frame_from_frame(frame: Frame, pinned: Grant, released: Grant) -> (cached: Result<
    CachedFrame,
    PageCacheError,
>)
    ensures
        cached == adopted(frame, pinned, released),
{
    match pinned {
        Err(error) => Err(PageCacheError::Alloc(error)),
        Ok(()) => {
            if frame.owned_handoff() {
                match released {
                    Err(error) => {
                        return Err(PageCacheError::Alloc(error));
                    },
                    Ok(()) => {},
                }
            }
            Ok(CachedFrame::from_pin(CachePin { ppn: frame.ppn() }))
        },
    }
}

/// Transferable evidence that a frame is page-cache contents.
#[derive(Debug, PartialEq, Eq)]
pub struct PageLease {
    pub ppn: Ppn,
    pub cache_pin: PageCachePin,
}

impl PageLease {
    pub open spec fn allocated(ppn: Ppn) -> Self {
        PageLease { ppn, cache_pin: PageCachePin::Allocated(CachePin { ppn }) }
    }

    pub fn from_pin(pin: CachePin) -> (lease: Self)
        ensures
            lease == PageLease::allocated(pin.ppn),
    {
        PageLease { ppn: pin.ppn, cache_pin: PageCachePin::Allocated(pin) }
    }

    pub fn ppn(&self) -> (ppn: Ppn)
        ensures
            ppn == self.ppn,
    {
        self.ppn
    }

    /// A second lease on the same frame, if the allocator grants the pin.
    pub fn retain(&self, pinned: Grant) -> (lease: Result<Self, PageCacheError>)
        ensures
            lease == match pinned {
                Ok(()) => Ok(PageLease::allocated(self.ppn)),
                Err(error) => Err(PageCacheError::Alloc(error)),
            },
    {
        match pinned {
            Ok(()) => Ok(PageLease::from_pin(CachePin { ppn: self.ppn })),
            Err(error) => Err(PageCacheError::Alloc(error)),
        }
    }

    /// What `confirm` answers.
    pub open spec fn confirmed(self) -> Result<(), PageCacheError> {
        match self.cache_pin {
            PageCachePin::Allocated(pin) => if pin.ppn == self.ppn {
                Ok(())
            } else {
                Err(PageCacheError::MismatchedFrame { current: self.ppn })
            },
            PageCachePin::Device(_) => Err(PageCacheError::UnsupportedKind),
        }
    }

    /// Check that the evidence is for the leased frame.
    pub fn confirm(&self) -> (r: Result<(), PageCacheError>)
        ensures
            r == self.confirmed(),
    {
        match &self.cache_pin {
            PageCachePin::Allocated(pin) => {
                if pin.ppn == self.ppn {
                    Ok(())
                } else {
                    Err(PageCacheError::MismatchedFrame { current: self.ppn })
                }
            },
            PageCachePin::Device(_) => Err(PageCacheError::UnsupportedKind),
        }
    }
}

/// What a materialization captured under the container before it asks the
/// allocator for a mapping pin.
#[derive(Debug, PartialEq, Eq)]
pub struct MaterializedPageSnapshot {
    pub ppn: Ppn,
    pub device: bool,
    pub newly_installed: bool,
    pub dirty: bool,
}

impl MaterializedPageSnapshot {
    /// The page that the allocator's answer `mapped` makes of this snapshot. A
    /// device frame needs no answer.
    pub open spec fn materialized(self, mapped: Grant) -> Result<MaterializedPage, PageCacheError> {
        if self.device {
            Ok(
                MaterializedPage {
                    ppn: self.ppn,
                    map_pin: MaterializedPagePin::Device(DeviceFrame { ppn: self.ppn }),
                    newly_installed: self.newly_installed,
                    dirty: self.dirty,
                },
            )
        } else {
            match mapped {
                Ok(()) => Ok(
                    MaterializedPage {
                        ppn: self.ppn,
                        map_pin: MaterializedPagePin::Allocated(MapPin { ppn: self.ppn }),
                        newly_installed: self.newly_installed,
                        dirty: self.dirty,
                    },
                ),
                Err(error) => Err(PageCacheError::Alloc(error)),
            }
        }
    }

    pub fn into_materialized(self, mapped: Grant) -> (page: Result<MaterializedPage, PageCacheError>)
        ensures
            page == self.materialized(mapped),
    {
        let map_pin = if self.device {
            MaterializedPagePin::Device(DeviceFrame { ppn: self.ppn })
        } else {
            match mapped {
                Ok(()) => MaterializedPagePin::Allocated(MapPin { ppn: self.ppn }),
                Err(error) => {
                    return Err(PageCacheError::Alloc(error));
                },
            }
        };
        Ok(
            MaterializedPage {
                ppn: self.ppn,
                map_pin,
                newly_installed: self.newly_installed,
                dirty: self.dirty,
            },
        )
    }
}

} // verus!

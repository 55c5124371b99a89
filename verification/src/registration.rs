//! The registration of every region with the descriptor.
//!
//! Missing-page and write-protect faults are tried for all regions first, so that the descriptor
//! can also tell which pages become dirty. If any region rejects that, every region is registered
//! for missing-page faults alone, and that truth goes into the metadata. With minor faults there
//! is no such choice: copy-on-write on the private mapping takes the place of write protection.

use vstd::prelude::*;

use crate::error::UffdHandoffError;
use crate::handoff::{RegisteredRegions, RegisteredView};
use crate::metadata::UffdHandoffRegionSource;

verus! {

/// The faults that a region is registered for.
#[derive(Clone, Copy, Debug, PartialEq, Eq, Structural)]
pub enum RegisterMode {
    MissingWriteProtect,
    MissingMinor,
    Missing,
}

/// A range of host memory that is to be registered.
#[derive(Clone, Copy, Debug, PartialEq, Eq, Structural)]
pub struct RegisterRequest {
    pub host_virt_addr: usize,
    pub len: u64,
    pub mode: RegisterMode,
}

/// How far a registration has come: all regions before `index` are registered for the faults of
/// `mode`.
pub ghost struct RegistrationView {
    pub regions: Seq<UffdHandoffRegionSource>,
    pub user_mode_only: bool,
    pub mode: RegisterMode,
    pub index: int,
}

/// A handoff that waits for a region to be registered.
#[derive(Debug)]
pub struct Registration {
    regions: Vec<UffdHandoffRegionSource>,
    user_mode_only: bool,
    mode: RegisterMode,
    index: usize,
}

impl View for Registration {
    type V = RegistrationView;

    closed spec fn view(&self) -> RegistrationView {
        RegistrationView {
            regions: self.regions@,
            user_mode_only: self.user_mode_only,
            mode: self.mode,
            index: self.index as int,
        }
    }
}

/// What follows the registration of a region.
#[derive(Debug)]
pub enum RegistrationStep {
    /// Another region is to be registered.
    Next(Registration),
    /// All are.
    Complete(RegisteredRegions),
}

/// Where the registration of `regions` starts.
pub open spec fn start_of(
    regions: Seq<UffdHandoffRegionSource>,
    user_mode_only: bool,
    minor: bool,
) -> RegistrationView {
    RegistrationView {
        regions,
        user_mode_only,
        mode: if minor {
            RegisterMode::MissingMinor
        } else {
            RegisterMode::MissingWriteProtect
        },
        index: 0,
    }
}

/// What is tried after a region was refused, if anything: all regions again, for missing-page
/// faults alone, where it was write protection that was refused.
pub open spec fn after_region_refused(registration: RegistrationView) -> Option<RegistrationView> {
    if registration.mode == RegisterMode::MissingWriteProtect {
        Some(RegistrationView { mode: RegisterMode::Missing, index: 0, ..registration })
    } else {
        None
    }
}

/// The range of the region at `index`, to be registered for the faults of `mode`.
pub open spec fn request_of(
    regions: Seq<UffdHandoffRegionSource>,
    mode: RegisterMode,
    index: int,
) -> RegisterRequest {
    RegisterRequest {
        host_virt_addr: regions[index].host_virt_addr,
        len: regions[index].len,
        mode,
    }
}

impl Registration {
    #[verifier::type_invariant]
    spec fn inv(self) -> bool {
        self.index < self.regions@.len()
    }

    pub(crate) fn start(
        regions: Vec<UffdHandoffRegionSource>,
        user_mode_only: bool,
        minor: bool,
    ) -> (registration: Registration)
        requires
            regions@.len() > 0,
        ensures
            registration@ == start_of(regions@, user_mode_only, minor),
    {
        let mode = if minor {
            RegisterMode::MissingMinor
        } else {
            RegisterMode::MissingWriteProtect
        };
        Registration { regions, user_mode_only, mode, index: 0 }
    }

    /// The range that is to be registered, and for which faults.
    pub fn request(&self) -> (request: RegisterRequest)
        ensures
            0 <= self@.index < self@.regions.len(),
            request == request_of(self@.regions, self@.mode, self@.index),
    {
        proof {
            use_type_invariant(self);
        }
        let region = self.regions[self.index];
        RegisterRequest {
            host_virt_addr: region.host_virt_addr,
            len: region.len,
            mode: self.mode,
        }
    }

    /// Goes on after the range was registered. Write protection is reported exactly if the regions
    /// were registered for it.
    pub fn registered(self) -> (step: RegistrationStep)
        ensures
            if self@.index + 1 < self@.regions.len() {
                &&& step matches RegistrationStep::Next(next)
                &&& next@ == (RegistrationView { index: self@.index + 1, ..self@ })
            } else {
                &&& step matches RegistrationStep::Complete(registered)
                &&& registered@ == (RegisteredView {
                    regions: self@.regions,
                    user_mode_only: self@.user_mode_only,
                    write_protect: self@.mode == RegisterMode::MissingWriteProtect,
                })
            },
    {
        proof {
            use_type_invariant(&self);
        }
        let Registration { regions, user_mode_only, mode, index } = self;
        if index < regions.len() - 1 {
            RegistrationStep::Next(Registration { regions, user_mode_only, mode, index: index + 1 })
        } else {
            let write_protect: bool = match mode {
                RegisterMode::MissingWriteProtect => true,
                RegisterMode::MissingMinor => false,
                RegisterMode::Missing => false,
            };
            RegistrationStep::Complete(
                RegisteredRegions::new(regions, user_mode_only, write_protect),
            )
        }
    }

    /// Goes on after the range was refused. Where nothing else is left to try, the error names it.
    pub fn refused<U>(self, source: U) -> (next: Result<Registration, UffdHandoffError<U>>)
        ensures
            0 <= self@.index < self@.regions.len(),
            match after_region_refused(self@) {
                Some(registration) => next matches Ok(retry) && retry@ == registration,
                None => next == Err::<Registration, UffdHandoffError<U>>(
                    UffdHandoffError::UffdRegister {
                        host_virt_addr: self@.regions[self@.index].host_virt_addr,
                        len: self@.regions[self@.index].len,
                        source,
                    },
                ),
            },
    {
        proof {
            use_type_invariant(&self);
        }
        match self.mode {
            RegisterMode::MissingWriteProtect => Ok(
                Registration {
                    regions: self.regions,
                    user_mode_only: self.user_mode_only,
                    mode: RegisterMode::Missing,
                    index: 0,
                },
            ),
            _ => {
                let region = self.regions[self.index];
                Err(
                    UffdHandoffError::UffdRegister {
                        host_virt_addr: region.host_virt_addr,
                        len: region.len,
                        source,
                    },
                )
            },
        }
    }
}

} // verus!

//! The first steps of a handoff: the regions to hand off, and a userfaultfd descriptor for them.
//!
//! A descriptor that observes kernel-mode faults is preferred, as guest accesses need one. Where
//! none can be had, one for user-mode faults alone is asked for, and that truth goes into the
//! metadata.

use vstd::prelude::*;

use crate::error::UffdHandoffError;
use crate::metadata::UffdHandoffRegionSource;
use crate::registration::{start_of, Registration};

verus! {

/// The API version that a descriptor is asked for.
pub const UFFD_API_VALUE: u64 = 0xAA;

/// Feature bit: missing-page faults on shared memory.
pub const UFFD_FEATURE_MISSING_SHMEM: u64 = 0x8;

/// Feature bit: minor faults on shared memory.
pub const UFFD_FEATURE_MINOR_SHMEM: u64 = 0x200;

/// The `UFFDIO_API` request number.
pub const UFFDIO_API_REQUEST: u32 = 0xC018_AA3F;

/// Flag of the `userfaultfd` system call: user-mode faults alone.
pub const UFFD_USER_MODE_ONLY: i32 = 1;

/// How a descriptor is to be built. `features` and `ioctls` are the bits that are required of it.
#[derive(Clone, Copy, Debug, PartialEq, Eq, Structural)]
pub struct DescriptorOptions {
    pub close_on_exec: bool,
    pub non_blocking: bool,
    pub user_mode_only: bool,
    pub features: u64,
    pub ioctls: u64,
}

/// The argument of a `UFFDIO_API` request.
#[derive(Clone, Copy, Debug, PartialEq, Eq, Structural)]
pub struct UffdioApi {
    pub api: u64,
    pub features: u64,
    pub ioctls: u64,
}

/// The regions to hand off, and whether the descriptor is to be for user-mode faults alone.
pub ghost struct CreationView {
    pub regions: Seq<UffdHandoffRegionSource>,
    pub user_mode_only: bool,
}

/// The same of a descriptor with minor faults, and the flag that closes it on `exec`.
pub ghost struct MinorCreationView {
    pub creation: CreationView,
    pub close_on_exec: i32,
}

/// What is tried after a descriptor was refused, if anything: one for user-mode faults alone,
/// where that was not what was refused.
pub open spec fn after_refusal(creation: CreationView) -> Option<CreationView> {
    if creation.user_mode_only {
        None
    } else {
        Some(CreationView { user_mode_only: true, ..creation })
    }
}

/// A handoff that waits for a descriptor.
#[derive(Debug)]
pub struct PlainCreation {
    regions: Vec<UffdHandoffRegionSource>,
    user_mode_only: bool,
}

/// A handoff that waits for a descriptor with minor faults: for its file to be opened.
#[derive(Debug)]
pub struct MinorCreation {
    regions: Vec<UffdHandoffRegionSource>,
    user_mode_only: bool,
    close_on_exec: i32,
}

/// A handoff that waits for the features of an opened descriptor to be enabled.
#[derive(Debug)]
pub struct MinorNegotiation {
    regions: Vec<UffdHandoffRegionSource>,
    user_mode_only: bool,
    close_on_exec: i32,
}

/// The descriptor that a handoff begins with.
#[derive(Debug)]
pub enum Creation {
    Plain(PlainCreation),
    /// One that can resolve minor faults.
    Minor(MinorCreation),
}

impl View for PlainCreation {
    type V = CreationView;

    closed spec fn view(&self) -> CreationView {
        CreationView { regions: self.regions@, user_mode_only: self.user_mode_only }
    }
}

impl View for MinorCreation {
    type V = MinorCreationView;

    closed spec fn view(&self) -> MinorCreationView {
        MinorCreationView {
            creation: CreationView {
                regions: self.regions@,
                user_mode_only: self.user_mode_only,
            },
            close_on_exec: self.close_on_exec,
        }
    }
}

impl View for MinorNegotiation {
    type V = MinorCreationView;

    closed spec fn view(&self) -> MinorCreationView {
        MinorCreationView {
            creation: CreationView {
                regions: self.regions@,
                user_mode_only: self.user_mode_only,
            },
            close_on_exec: self.close_on_exec,
        }
    }
}

/// Begins a handoff of `regions`. Without regions there is nothing to hand off.
pub fn begin_uffd_handoff<U>(regions: Vec<UffdHandoffRegionSource>, minor: bool) -> (begun: Result<
    Creation,
    UffdHandoffError<U>,
>)
    ensures
        regions@.len() == 0 ==> begun == Err::<Creation, UffdHandoffError<U>>(
            UffdHandoffError::NoEligibleRegions,
        ),
        regions@.len() > 0 && !minor ==> {
            &&& begun matches Ok(Creation::Plain(creation))
            &&& creation@ == (CreationView { regions: regions@, user_mode_only: false })
        },
        regions@.len() > 0 && minor ==> {
            &&& begun matches Ok(Creation::Minor(creation))
            &&& creation@.creation == (CreationView { regions: regions@, user_mode_only: false })
            &&& may_close_on_exec(creation@.close_on_exec)
        },
{
    if regions.len() == 0 {
        Err(UffdHandoffError::NoEligibleRegions)
    } else if minor {
        Ok(
            Creation::Minor(
                MinorCreation {
                    regions,
                    user_mode_only: false,
                    close_on_exec: libc_close_on_exec(),
                },
            ),
        )
    } else {
        Ok(Creation::Plain(PlainCreation { regions, user_mode_only: false }))
    }
}

/// How a descriptor is built where no minor faults are needed.
pub open spec fn plain_options(user_mode_only: bool) -> DescriptorOptions {
    DescriptorOptions {
        close_on_exec: true,
        non_blocking: false,
        user_mode_only,
        features: 0,
        ioctls: 0,
    }
}

/// What a descriptor with minor faults is asked for.
pub open spec fn minor_api() -> UffdioApi {
    UffdioApi {
        api: UFFD_API_VALUE,
        features: UFFD_FEATURE_MISSING_SHMEM | UFFD_FEATURE_MINOR_SHMEM,
        ioctls: 0,
    }
}

impl PlainCreation {
    #[verifier::type_invariant]
    spec fn inv(self) -> bool {
        self.regions@.len() > 0
    }

    /// How the descriptor is to be built.
    pub fn options(&self) -> (options: DescriptorOptions)
        ensures
            options == plain_options(self@.user_mode_only),
    {
        DescriptorOptions {
            close_on_exec: true,
            non_blocking: false,
            user_mode_only: self.user_mode_only,
            features: 0,
            ioctls: 0,
        }
    }

    /// Goes on with the descriptor that was created.
    pub fn created(self) -> (registration: Registration)
        ensures
            registration@ == start_of(self@.regions, self@.user_mode_only, false),
    {
        proof {
            use_type_invariant(&self);
        }
        Registration::start(self.regions, self.user_mode_only, false)
    }

    /// Goes on after the descriptor could not be created. The error of the last attempt is that
    /// of the handoff.
    pub fn refused<U>(self, error: U) -> (next: Result<PlainCreation, UffdHandoffError<U>>)
        ensures
            match after_refusal(self@) {
                Some(creation) => next matches Ok(retry) && retry@ == creation,
                None => next == Err::<PlainCreation, UffdHandoffError<U>>(
                    UffdHandoffError::UffdCreate(error),
                ),
            },
    {
        proof {
            use_type_invariant(&self);
        }
        if self.user_mode_only {
            Err(UffdHandoffError::UffdCreate(error))
        } else {
            Ok(PlainCreation { regions: self.regions, user_mode_only: true })
        }
    }
}

/// Whether `flag` is what `O_CLOEXEC` is on one of the Linux platforms: it differs on SPARC.
pub open spec fn may_close_on_exec(flag: i32) -> bool {
    flag == 0x8_0000 || flag == 0x40_0000
}

/// The flags of the `userfaultfd` system call, from that for closing the descriptor on `exec`.
pub open spec fn open_flags_of(close_on_exec: i32, user_mode_only: bool) -> i32 {
    if user_mode_only {
        close_on_exec | UFFD_USER_MODE_ONLY
    } else {
        close_on_exec
    }
}

/// Reads the constant `libc::O_CLOEXEC`.
///
/// What it is differs between architectures. Claimed is that it is one of the two numbers that the
/// `libc` crate has for Linux; which of them is the compilation target's matter and left unsaid.
#[verifier::external_body]
fn libc_close_on_exec() -> (flag: i32)
    ensures
        may_close_on_exec(flag),
{
    libc::O_CLOEXEC
}

/// Adds the flag for user-mode faults alone to that for closing the descriptor on `exec`.
pub fn minor_open_flags(close_on_exec: i32, user_mode_only: bool) -> (flags: i32)
    ensures
        flags == open_flags_of(close_on_exec, user_mode_only),
{
    if user_mode_only {
        close_on_exec | UFFD_USER_MODE_ONLY
    } else {
        close_on_exec
    }
}

/// The flags ask for user-mode faults alone exactly if that is what is tried.
pub proof fn law_open_flags_tell_user_mode_only(close_on_exec: i32, user_mode_only: bool)
    requires
        may_close_on_exec(close_on_exec),
    ensures
        open_flags_of(close_on_exec, user_mode_only) & UFFD_USER_MODE_ONLY == (if user_mode_only {
            UFFD_USER_MODE_ONLY
        } else {
            0
        }),
{
    assert((close_on_exec | 1) & 1 == 1) by (bit_vector);
    assert(0x8_0000i32 & 1 == 0 && 0x40_0000i32 & 1 == 0) by (bit_vector);
}

impl MinorCreation {
    #[verifier::type_invariant]
    spec fn inv(self) -> bool {
        self.regions@.len() > 0
    }

    /// The flags of the `userfaultfd` system call, with the same flag for closing on `exec` in
    /// every attempt.
    pub fn open_flags(&self) -> (flags: i32)
        ensures
            flags == open_flags_of(self@.close_on_exec, self@.creation.user_mode_only),
    {
        minor_open_flags(self.close_on_exec, self.user_mode_only)
    }

    /// Goes on with the descriptor that was opened.
    pub fn opened(self) -> (negotiation: MinorNegotiation)
        ensures
            negotiation@ == self@,
    {
        proof {
            use_type_invariant(&self);
        }
        MinorNegotiation {
            regions: self.regions,
            user_mode_only: self.user_mode_only,
            close_on_exec: self.close_on_exec,
        }
    }

    /// Goes on after the descriptor could not be opened.
    pub fn refused<U>(self, error: std::io::Error) -> (next: Result<
        MinorCreation,
        UffdHandoffError<U>,
    >)
        ensures
            match after_refusal(self@.creation) {
                Some(creation) => next matches Ok(retry) && retry@ == (MinorCreationView {
                    creation,
                    ..self@
                }),
                None => next == Err::<MinorCreation, UffdHandoffError<U>>(
                    UffdHandoffError::UffdMinorCreate(error),
                ),
            },
    {
        proof {
            use_type_invariant(&self);
        }
        if self.user_mode_only {
            Err(UffdHandoffError::UffdMinorCreate(error))
        } else {
            Ok(
                MinorCreation {
                    regions: self.regions,
                    user_mode_only: true,
                    close_on_exec: self.close_on_exec,
                },
            )
        }
    }
}

impl MinorNegotiation {
    #[verifier::type_invariant]
    spec fn inv(self) -> bool {
        self.regions@.len() > 0
    }

    /// What the descriptor is asked for.
    pub fn api(&self) -> (api: UffdioApi)
        ensures
            api == minor_api(),
    {
        UffdioApi {
            api: UFFD_API_VALUE,
            features: UFFD_FEATURE_MISSING_SHMEM | UFFD_FEATURE_MINOR_SHMEM,
            ioctls: 0,
        }
    }

    /// Goes on with the descriptor, whose features were enabled.
    pub fn negotiated(self) -> (registration: Registration)
        ensures
            registration@ == start_of(self@.creation.regions, self@.creation.user_mode_only, true),
    {
        proof {
            use_type_invariant(&self);
        }
        Registration::start(self.regions, self.user_mode_only, true)
    }

    /// Goes on after the features could not be enabled. The descriptor is of no further use and
    /// is to be closed.
    pub fn refused<U>(self, error: std::io::Error) -> (next: Result<
        MinorCreation,
        UffdHandoffError<U>,
    >)
        ensures
            match after_refusal(self@.creation) {
                Some(creation) => next matches Ok(retry) && retry@ == (MinorCreationView {
                    creation,
                    ..self@
                }),
                None => next == Err::<MinorCreation, UffdHandoffError<U>>(
                    UffdHandoffError::UffdMinorCreate(error),
                ),
            },
    {
        proof {
            use_type_invariant(&self);
        }
        if self.user_mode_only {
            Err(UffdHandoffError::UffdMinorCreate(error))
        } else {
            Ok(
                MinorCreation {
                    regions: self.regions,
                    user_mode_only: true,
                    close_on_exec: self.close_on_exec,
                },
            )
        }
    }
}

} // verus!

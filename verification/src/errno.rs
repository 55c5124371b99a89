//! The error numbers that the protocol puts on the wire.

use vstd::prelude::*;

verus! {

/// The numbers that one platform gives to the errors of the protocol.
#[derive(Clone, Copy, Debug, PartialEq, Eq, Structural)]
pub struct Errnos {
    pub e2big: i32,
    pub eio: i32,
    pub eopnotsupp: i32,
    pub eproto: i32,
    pub eprotonosupport: i32,
    pub erange: i32,
}

impl Errnos {
    /// Error numbers are positive, and each error has one of its own.
    pub open spec fn valid(self) -> bool {
        &&& self.e2big > 0
        &&& self.eio > 0
        &&& self.eopnotsupp > 0
        &&& self.eproto > 0
        &&& self.eprotonosupport > 0
        &&& self.erange > 0
        &&& seq![
            self.e2big,
            self.eio,
            self.eopnotsupp,
            self.eproto,
            self.eprotonosupport,
            self.erange,
        ].no_duplicates()
    }

    /// The numbers of one of the Linux platforms: three of them differ on MIPS and on SPARC.
    pub open spec fn of_linux(self) -> bool {
        &&& self.e2big == 7
        &&& self.eio == 5
        &&& self.erange == 34
        &&& {
            ||| self.eopnotsupp == 95 && self.eproto == 71 && self.eprotonosupport == 93
            ||| self.eopnotsupp == 122 && self.eproto == 71 && self.eprotonosupport == 120
            ||| self.eopnotsupp == 45 && self.eproto == 86 && self.eprotonosupport == 43
        }
    }

    /// The numbers of the platform that this program runs on.
    pub fn host() -> (errnos: Errnos)
        ensures
            errnos.of_linux(),
            errnos.valid(),
    {
        libc_errnos()
    }
}

/// Reads the constants `libc::E2BIG`, `libc::EIO`, `libc::EOPNOTSUPP`, `libc::EPROTO`,
/// `libc::EPROTONOSUPPORT` and `libc::ERANGE`.
///
/// What they are differs between architectures. Claimed is that they are those of one of the three
/// tables that the `libc` crate has for Linux; which of them is the compilation target's matter and
/// left unsaid.
#[verifier::external_body]
fn libc_errnos() -> (errnos: Errnos)
    ensures
        errnos.of_linux(),
{
    Errnos {
        e2big: libc::E2BIG,
        eio: libc::EIO,
        eopnotsupp: libc::EOPNOTSUPP,
        eproto: libc::EPROTO,
        eprotonosupport: libc::EPROTONOSUPPORT,
        erange: libc::ERANGE,
    }
}

} // verus!

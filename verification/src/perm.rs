//! Access permissions of one mapped area, and the user-facing `port`
//! encoding that requests them.
//!
//! A caller of `mmap` passes a 3-bit `port`: bit 0 requests Readable, bit 1
//! Writable, bit 2 Executable. Internally the bits sit one position higher
//! (matching a page-table entry's flag layout) and the UserAccessible bit is
//! always forced on for mappings created through the syscall surface.

use vstd::prelude::*;

verus! {

/// Readable flag in the internal bit layout.
pub const PERM_R: u8 = 0x02;

/// Writable flag in the internal bit layout.
pub const PERM_W: u8 = 0x04;

/// Executable flag in the internal bit layout.
pub const PERM_X: u8 = 0x08;

/// UserAccessible flag in the internal bit layout.
pub const PERM_U: u8 = 0x10;

/// A small bit set over {Readable, Writable, Executable, UserAccessible}.
#[derive(Clone, Copy, PartialEq, Eq, Structural, Debug)]
pub struct MapPermission {
    pub bits: u8,
}

impl MapPermission {
    /// Only the four known flag bits may be set.
    pub open spec fn wf(self) -> bool {
        self.bits & !(PERM_R | PERM_W | PERM_X | PERM_U) == 0
    }

    pub open spec fn spec_readable(self) -> bool {
        self.bits & PERM_R != 0
    }

    pub open spec fn spec_writable(self) -> bool {
        self.bits & PERM_W != 0
    }

    pub open spec fn spec_executable(self) -> bool {
        self.bits & PERM_X != 0
    }

    pub open spec fn spec_user_accessible(self) -> bool {
        self.bits & PERM_U != 0
    }

    pub fn readable(&self) -> (r: bool)
        ensures
            r == self.spec_readable(),
    {
        self.bits & PERM_R != 0
    }

    pub fn writable(&self) -> (r: bool)
        ensures
            r == self.spec_writable(),
    {
        self.bits & PERM_W != 0
    }

    pub fn executable(&self) -> (r: bool)
        ensures
            r == self.spec_executable(),
    {
        self.bits & PERM_X != 0
    }

    pub fn user_accessible(&self) -> (r: bool)
        ensures
            r == self.spec_user_accessible(),
    {
        self.bits & PERM_U != 0
    }

    /// Build the permission set of a user-requested mapping: the three port
    /// bits shifted into the internal layout, with UserAccessible forced on.
    pub fn from_port(port: usize) -> (p: MapPermission)
        requires
            port_valid(port),
        ensures
            p == perm_for_port(port),
            p.wf(),
            p.spec_user_accessible(),
            p.spec_readable() == (port & 1 == 1),
            p.spec_writable() == (port & 2 == 2),
            p.spec_executable() == (port & 4 == 4),
    {
        let b: u8 = port as u8;
        let p = MapPermission { bits: (b << 1) | PERM_U };
        proof {
            assert(port < 8 ==> port as u8 == (port & 7) as u8) by (bit_vector);
            let c = port as u8;
            assert(c < 8 ==> ((c << 1) | 0x10u8) & !(0x02u8 | 0x04 | 0x08 | 0x10) == 0)
                by (bit_vector);
            assert(c < 8 ==> ((c << 1) | 0x10u8) & 0x10 != 0) by (bit_vector);
            assert(c < 8 ==> ((((c << 1) | 0x10u8) & 0x02 != 0) <==> (c & 1 == 1)))
                by (bit_vector);
            assert(c < 8 ==> ((((c << 1) | 0x10u8) & 0x04 != 0) <==> (c & 2 == 2)))
                by (bit_vector);
            assert(c < 8 ==> ((((c << 1) | 0x10u8) & 0x08 != 0) <==> (c & 4 == 4)))
                by (bit_vector);
            assert(port < 8 ==> ((port & 1 == 1) <==> (port as u8 & 1 == 1))) by (bit_vector);
            assert(port < 8 ==> ((port & 2 == 2) <==> (port as u8 & 2 == 2))) by (bit_vector);
            assert(port < 8 ==> ((port & 4 == 4) <==> (port as u8 & 4 == 4))) by (bit_vector);
        }
        p
    }
}

/// A requested `port` is valid when some access bit is set and no bit at or
/// above bit 3 is set; equivalently, `0 < port < 8`.
pub open spec fn port_valid(port: usize) -> bool {
    0 < port < 8
}

/// The permission set `mmap` installs for a valid `port`.
pub open spec fn perm_for_port(port: usize) -> MapPermission {
    MapPermission { bits: ((port as u8) << 1) | PERM_U }
}

/// Validate a requested port: rejects a port with any bit at or above bit 3
/// set (`port & !0b111 != 0`) and a port with no access bit set
/// (`port & 0b111 == 0`).
pub fn check_port(port: usize) -> (r: bool)
    ensures
        r == port_valid(port),
{
    port != 0 && port < 8
}

} // verus!

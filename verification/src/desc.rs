//! The 16-byte advanced receive and transmit descriptors.
//!
//! Each descriptor is one aligned cell of four 32-bit words that software
//! writes in "read" format (buffer addresses and commands) and the device
//! overwrites in "write-back" format (status and length).  The accessors
//! below are the only readers and writers of the words, so the two roles
//! never overlay each other through a cached view.

use vstd::prelude::*;
use crate::regs::{IXGBE_RXDADV_STAT_DD, IXGBE_RXDADV_STAT_EOP, IXGBE_ADVTXD_STAT_DD,
    IXGBE_ADVTXD_DTYP_DATA, IXGBE_ADVTXD_DCMD_EOP, IXGBE_ADVTXD_DCMD_IFCS, IXGBE_ADVTXD_DCMD_RS,
    IXGBE_ADVTXD_DCMD_DEXT, IXGBE_ADVTXD_PAYLEN_SHIFT};

verus! {

/// One descriptor: the words at byte offsets 0, 4, 8 and 12.
#[derive(Clone, Copy)]
pub struct Descriptor {
    pub w0: u32,
    pub w1: u32,
    pub w2: u32,
    pub w3: u32,
}

/// Low half of a buffer address.
pub open spec fn addr_lo(phys: u64) -> u32 {
    (phys & 0xFFFFFFFF) as u32
}

/// High half of a buffer address.
pub open spec fn addr_hi(phys: u64) -> u32 {
    (phys >> 32) as u32
}

/// The memory a freshly allocated descriptor ring is filled with: all ones,
/// so nothing in it parses as a valid command.
pub open spec fn desc_all_ones() -> Descriptor {
    Descriptor { w0: 0xFFFFFFFFu32, w1: 0xFFFFFFFFu32, w2: 0xFFFFFFFFu32, w3: 0xFFFFFFFFu32 }
}

/// A receive descriptor armed for the device: the buffer's physical address
/// in the first quadword, zero in the second, so the done bit is clear.
pub open spec fn rx_read_desc(phys: u64) -> Descriptor {
    Descriptor { w0: addr_lo(phys), w1: addr_hi(phys), w2: 0u32, w3: 0u32 }
}

/// The descriptor-done bit of a receive write-back.
pub open spec fn rx_dd(d: Descriptor) -> bool {
    d.w2 & IXGBE_RXDADV_STAT_DD != 0
}

/// The end-of-packet bit of a receive write-back.
pub open spec fn rx_eop(d: Descriptor) -> bool {
    d.w2 & IXGBE_RXDADV_STAT_EOP != 0
}

/// The packet length of a receive write-back.
pub open spec fn rx_wb_len(d: Descriptor) -> u16 {
    (d.w3 & 0xFFFF) as u16
}

/// A receive write-back the device stores for a completed packet of `len`
/// bytes: done and, for a single-buffer packet, end-of-packet.
pub open spec fn rx_writeback_desc(len: u16, eop: bool) -> Descriptor {
    Descriptor {
        w0: 0u32,
        w1: 0u32,
        w2: if eop { IXGBE_RXDADV_STAT_DD | IXGBE_RXDADV_STAT_EOP } else { IXGBE_RXDADV_STAT_DD },
        w3: len as u32,
    }
}

/// The command word of a transmit descriptor for one packet of `len` bytes:
/// advanced data descriptor, descriptor extension, report status, insert the
/// checksum, end of packet, and the length itself.
pub open spec fn tx_cmd_of(len: u16) -> u32 {
    IXGBE_ADVTXD_DCMD_EOP | IXGBE_ADVTXD_DCMD_RS | IXGBE_ADVTXD_DCMD_IFCS | IXGBE_ADVTXD_DCMD_DEXT
        | IXGBE_ADVTXD_DTYP_DATA | len as u32
}

/// A transmit descriptor in read format for a buffer at `phys` of `len`
/// bytes; the payload length sits above the status bits of the last word.
pub open spec fn tx_read_desc(phys: u64, len: u16) -> Descriptor {
    Descriptor {
        w0: addr_lo(phys),
        w1: addr_hi(phys),
        w2: tx_cmd_of(len),
        w3: (len as u32) << IXGBE_ADVTXD_PAYLEN_SHIFT,
    }
}

/// The descriptor-done bit of a transmit write-back.
pub open spec fn tx_dd(d: Descriptor) -> bool {
    d.w3 & IXGBE_ADVTXD_STAT_DD != 0
}

/// Build a receive descriptor armed with the buffer at `phys`.
pub fn make_rx_read_desc(phys: u64) -> (r: Descriptor)
    ensures
        r == rx_read_desc(phys),
        !rx_dd(r),
{
    let r = Descriptor { w0: (phys & 0xFFFFFFFF) as u32, w1: (phys >> 32) as u32, w2: 0, w3: 0 };
    proof {
        assert(0u32 & IXGBE_RXDADV_STAT_DD == 0) by (bit_vector);
    }
    r
}

/// Build a transmit descriptor for the buffer at `phys` holding `len` bytes.
pub fn make_tx_read_desc(phys: u64, len: u16) -> (r: Descriptor)
    ensures
        r == tx_read_desc(phys, len),
        !tx_dd(r),
{
    let cmd: u32 = IXGBE_ADVTXD_DCMD_EOP | IXGBE_ADVTXD_DCMD_RS | IXGBE_ADVTXD_DCMD_IFCS
        | IXGBE_ADVTXD_DCMD_DEXT | IXGBE_ADVTXD_DTYP_DATA | len as u32;
    let status: u32 = (len as u32) << IXGBE_ADVTXD_PAYLEN_SHIFT;
    proof {
        let l: u32 = len as u32;
        assert((l << 14u32) & 0x1u32 == 0) by (bit_vector);
    }
    Descriptor { w0: (phys & 0xFFFFFFFF) as u32, w1: (phys >> 32) as u32, w2: cmd, w3: status }
}

} // verus!

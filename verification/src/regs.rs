//! Register offsets, bit masks and driver constants for the 82599 family,
//! plus the pure functions that compute per-queue register addresses.

use vstd::prelude::*;

verus! {

/// Byte length of the BAR0 register window of an 82599.
pub const MMIO_LEN: u32 = 0x20000;

/// Upper bound on the number of queues of each direction.
pub const MAX_QUEUES: u32 = 64;

/// Entries of every receive descriptor ring.
pub const NUM_RX_QUEUE_ENTRIES: u32 = 512;
/// Entries of every transmit descriptor ring.
pub const NUM_TX_QUEUE_ENTRIES: u32 = 512;
/// Completed transmit descriptors are reclaimed in batches of this size.
pub const TX_CLEAN_BATCH: u32 = 32;
/// Size of one packet buffer in a pool.
pub const PKT_BUF_SIZE: u32 = 2048;
/// A pool never holds fewer buffers than this.
pub const MIN_MEMPOOL_ENTRIES: u32 = 4096;

// Device-global registers.
pub const IXGBE_CTRL: u32 = 0x00000;
pub const IXGBE_CTRL_EXT: u32 = 0x00018;
pub const IXGBE_EIMC: u32 = 0x00888;
pub const IXGBE_EEC: u32 = 0x10010;
pub const IXGBE_RDRXCTL: u32 = 0x02F00;
pub const IXGBE_RXCTRL: u32 = 0x03000;
pub const IXGBE_AUTOC: u32 = 0x042A0;
pub const IXGBE_LINKS: u32 = 0x042A4;
pub const IXGBE_HLREG0: u32 = 0x04240;
pub const IXGBE_RTTDCS: u32 = 0x04900;
pub const IXGBE_DMATXCTL: u32 = 0x04A80;
pub const IXGBE_FCTRL: u32 = 0x05080;
pub const IXGBE_DTXMXSZRQ: u32 = 0x08100;

// Statistics registers; they clear on read.
pub const IXGBE_GPRC: u32 = 0x04074;
pub const IXGBE_GPTC: u32 = 0x04080;
pub const IXGBE_GORCL: u32 = 0x04088;
pub const IXGBE_GORCH: u32 = 0x0408C;
pub const IXGBE_GOTCL: u32 = 0x04090;
pub const IXGBE_GOTCH: u32 = 0x04094;

// Bit masks.
pub const IXGBE_CTRL_RST_MASK: u32 = 0x04000008;
pub const IXGBE_EEC_ARD: u32 = 0x00000200;
pub const IXGBE_RDRXCTL_DMAIDONE: u32 = 0x00000008;
pub const IXGBE_RDRXCTL_CRCSTRIP: u32 = 0x00000002;
pub const IXGBE_AUTOC_LMS_MASK: u32 = 0x0000E000;
pub const IXGBE_AUTOC_LMS_10G_SERIAL: u32 = 0x00006000;
pub const IXGBE_AUTOC_10G_PMA_PMD_MASK: u32 = 0x00000180;
pub const IXGBE_AUTOC_10G_XAUI: u32 = 0x00000000;
pub const IXGBE_AUTOC_AN_RESTART: u32 = 0x00001000;
pub const IXGBE_RXCTRL_RXEN: u32 = 0x00000001;
pub const IXGBE_RXPBSIZE_128KB: u32 = 0x00020000;
pub const IXGBE_TXPBSIZE_40KB: u32 = 0x0000A000;
pub const IXGBE_HLREG0_TXCRCEN: u32 = 0x00000001;
pub const IXGBE_HLREG0_RXCRCSTRP: u32 = 0x00000002;
pub const IXGBE_HLREG0_TXPADEN: u32 = 0x00000400;
pub const IXGBE_FCTRL_MPE: u32 = 0x00000100;
pub const IXGBE_FCTRL_UPE: u32 = 0x00000200;
pub const IXGBE_FCTRL_BAM: u32 = 0x00000400;
pub const IXGBE_SRRCTL_DESCTYPE_MASK: u32 = 0x0E000000;
pub const IXGBE_SRRCTL_DESCTYPE_ADV_ONEBUF: u32 = 0x02000000;
pub const IXGBE_SRRCTL_DROP_EN: u32 = 0x10000000;
pub const IXGBE_CTRL_EXT_NS_DIS: u32 = 0x00010000;
pub const IXGBE_RXDCTL_ENABLE: u32 = 0x02000000;
pub const IXGBE_TXDCTL_ENABLE: u32 = 0x02000000;
pub const IXGBE_DMATXCTL_TE: u32 = 0x00000001;
pub const IXGBE_RTTDCS_ARBDIS: u32 = 0x00000040;
pub const IXGBE_LINKS_UP: u32 = 0x40000000;
pub const IXGBE_LINKS_SPEED_82599: u32 = 0x30000000;
pub const IXGBE_LINKS_SPEED_100_82599: u32 = 0x10000000;
pub const IXGBE_LINKS_SPEED_1G_82599: u32 = 0x20000000;
pub const IXGBE_LINKS_SPEED_10G_82599: u32 = 0x30000000;

// Receive descriptor write-back status bits.
pub const IXGBE_RXDADV_STAT_DD: u32 = 0x00000001;
pub const IXGBE_RXDADV_STAT_EOP: u32 = 0x00000002;

// Transmit descriptor command and status bits.
pub const IXGBE_ADVTXD_STAT_DD: u32 = 0x00000001;
pub const IXGBE_ADVTXD_DTYP_DATA: u32 = 0x00300000;
pub const IXGBE_ADVTXD_DCMD_EOP: u32 = 0x01000000;
pub const IXGBE_ADVTXD_DCMD_IFCS: u32 = 0x02000000;
pub const IXGBE_ADVTXD_DCMD_RS: u32 = 0x08000000;
pub const IXGBE_ADVTXD_DCMD_DEXT: u32 = 0x20000000;
pub const IXGBE_ADVTXD_PAYLEN_SHIFT: u32 = 14;

/// A register offset that a queue function returns: 32-bit aligned and
/// inside the BAR0 window.
pub open spec fn valid_reg(reg: u32) -> bool {
    reg % 4 == 0 && reg + 4 <= MMIO_LEN
}

/// Receive descriptor base address (low half) of queue `i`.
pub fn ixgbe_rdbal(i: u32) -> (r: u32)
    requires i < MAX_QUEUES,
    ensures r == 0x01000 + 0x40 * i, valid_reg(r),
{
    0x01000 + 0x40 * i
}

/// Receive descriptor base address (high half) of queue `i`.
pub fn ixgbe_rdbah(i: u32) -> (r: u32)
    requires i < MAX_QUEUES,
    ensures r == 0x01004 + 0x40 * i, valid_reg(r),
{
    0x01004 + 0x40 * i
}

/// Receive descriptor ring length of queue `i`.
pub fn ixgbe_rdlen(i: u32) -> (r: u32)
    requires i < MAX_QUEUES,
    ensures r == 0x01008 + 0x40 * i, valid_reg(r),
{
    0x01008 + 0x40 * i
}

/// Receive descriptor head of queue `i`.
pub fn ixgbe_rdh(i: u32) -> (r: u32)
    requires i < MAX_QUEUES,
    ensures r == 0x01010 + 0x40 * i, valid_reg(r),
{
    0x01010 + 0x40 * i
}

/// Receive descriptor tail of queue `i`.
pub fn ixgbe_rdt(i: u32) -> (r: u32)
    requires i < MAX_QUEUES,
    ensures r == 0x01018 + 0x40 * i, valid_reg(r),
{
    0x01018 + 0x40 * i
}

/// Receive descriptor control of queue `i`.
pub fn ixgbe_rxdctl(i: u32) -> (r: u32)
    requires i < MAX_QUEUES,
    ensures r == 0x01028 + 0x40 * i, valid_reg(r),
{
    0x01028 + 0x40 * i
}

/// Split receive control of queue `i`.
pub fn ixgbe_srrctl(i: u32) -> (r: u32)
    requires i < MAX_QUEUES,
    ensures
        r == if i <= 15 { 0x02100 + 4 * i } else { 0x01014 + 0x40 * i },
        valid_reg(r),
{
    if i <= 15 {
        0x02100 + 4 * i
    } else {
        0x01014 + 0x40 * i
    }
}

/// Direct cache access control of receive queue `i`.
pub fn ixgbe_dca_rxctrl(i: u32) -> (r: u32)
    requires i < MAX_QUEUES,
    ensures
        r == if i <= 15 { 0x02200 + 4 * i } else { 0x0100C + 0x40 * i },
        valid_reg(r),
{
    if i <= 15 {
        0x02200 + 4 * i
    } else {
        0x0100C + 0x40 * i
    }
}

/// Receive packet buffer size of traffic class `i`.
pub fn ixgbe_rxpbsize(i: u32) -> (r: u32)
    requires i < 8,
    ensures r == 0x03C00 + 4 * i, valid_reg(r),
{
    0x03C00 + 4 * i
}

/// Transmit packet buffer size of traffic class `i`.
pub fn ixgbe_txpbsize(i: u32) -> (r: u32)
    requires i < 8,
    ensures r == 0x0CC00 + 4 * i, valid_reg(r),
{
    0x0CC00 + 4 * i
}

/// Transmit descriptor base address (low half) of queue `i`.
pub fn ixgbe_tdbal(i: u32) -> (r: u32)
    requires i < MAX_QUEUES,
    ensures r == 0x06000 + 0x40 * i, valid_reg(r),
{
    0x06000 + 0x40 * i
}

/// Transmit descriptor base address (high half) of queue `i`.
pub fn ixgbe_tdbah(i: u32) -> (r: u32)
    requires i < MAX_QUEUES,
    ensures r == 0x06004 + 0x40 * i, valid_reg(r),
{
    0x06004 + 0x40 * i
}

/// Transmit descriptor ring length of queue `i`.
pub fn ixgbe_tdlen(i: u32) -> (r: u32)
    requires i < MAX_QUEUES,
    ensures r == 0x06008 + 0x40 * i, valid_reg(r),
{
    0x06008 + 0x40 * i
}

/// Transmit descriptor head of queue `i`.
pub fn ixgbe_tdh(i: u32) -> (r: u32)
    requires i < MAX_QUEUES,
    ensures r == 0x06010 + 0x40 * i, valid_reg(r),
{
    0x06010 + 0x40 * i
}

/// Transmit descriptor tail of queue `i`.
pub fn ixgbe_tdt(i: u32) -> (r: u32)
    requires i < MAX_QUEUES,
    ensures r == 0x06018 + 0x40 * i, valid_reg(r),
{
    0x06018 + 0x40 * i
}

/// Transmit descriptor control of queue `i`.
pub fn ixgbe_txdctl(i: u32) -> (r: u32)
    requires i < MAX_QUEUES,
    ensures r == 0x06028 + 0x40 * i, valid_reg(r),
{
    0x06028 + 0x40 * i
}

/// The link speed in megabit per second that a LINKS register value reports:
/// zero while the link is down or the speed field holds an unknown code.
pub open spec fn link_speed_of(links: u32) -> u16 {
    if links & IXGBE_LINKS_UP == 0 {
        0u16
    } else if links & IXGBE_LINKS_SPEED_82599 == IXGBE_LINKS_SPEED_100_82599 {
        100u16
    } else if links & IXGBE_LINKS_SPEED_82599 == IXGBE_LINKS_SPEED_1G_82599 {
        1000u16
    } else if links & IXGBE_LINKS_SPEED_82599 == IXGBE_LINKS_SPEED_10G_82599 {
        10000u16
    } else {
        0u16
    }
}

/// Decode the LINKS register into a speed in megabit per second.
pub fn decode_link_speed(links: u32) -> (r: u16)
    ensures r == link_speed_of(links),
{
    if links & IXGBE_LINKS_UP == 0 {
        0
    } else if links & IXGBE_LINKS_SPEED_82599 == IXGBE_LINKS_SPEED_100_82599 {
        100
    } else if links & IXGBE_LINKS_SPEED_82599 == IXGBE_LINKS_SPEED_1G_82599 {
        1000
    } else if links & IXGBE_LINKS_SPEED_82599 == IXGBE_LINKS_SPEED_10G_82599 {
        10000
    } else {
        0
    }
}

/// The transmit descriptor control value with the prefetch, host and
/// write-back thresholds set to 36, 8 and 4.
pub open spec fn txdctl_thresholds_of(old_val: u32) -> u32 {
    (old_val & !0x003F3F3Fu32) | 0x00040824u32
}

/// Setting bits leaves them set.
pub proof fn lemma_or_sets_mask(x: u32, m: u32)
    ensures (x | m) & m == m,
{
    assert((x | m) & m == m) by (bit_vector);
}

/// Clearing bits leaves them clear.
pub proof fn lemma_andnot_clears_mask(x: u32, m: u32)
    ensures (x & !m) & m == 0,
{
    assert((x & !m) & m == 0) by (bit_vector);
}

/// Setting bits outside a field leaves the field alone.
pub proof fn lemma_or_keeps_disjoint(x: u32, m: u32, k: u32)
    requires m & k == 0,
    ensures (x | m) & k == x & k,
{
    assert(m & k == 0 ==> (x | m) & k == x & k) by (bit_vector);
}

/// Setting bits twice is setting them once.
pub proof fn lemma_or_idempotent(x: u32, m: u32)
    ensures (x | m) | m == x | m,
{
    assert((x | m) | m == x | m) by (bit_vector);
}

/// A read-modify-write of one field puts exactly the new value in the field.
pub proof fn lemma_rmw_field(x: u32, m: u32, a: u32)
    requires a & m == a,
    ensures ((x & !m) | a) & m == a,
{
    assert(a & m == a ==> ((x & !m) | a) & m == a) by (bit_vector);
}

/// Pack the transmit thresholds into a TXDCTL value, keeping the other bits.
pub fn pack_txdctl_thresholds(old_val: u32) -> (r: u32)
    ensures r == txdctl_thresholds_of(old_val),
{
    (old_val & !0x003F3F3Fu32) | 0x00040824u32
}

} // verus!

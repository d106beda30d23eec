//! Device bring-up, in the datasheet's order: reset, EEPROM and DMA-init
//! waits, link negotiation, statistics reset, receive and transmit
//! configuration, queue start, promiscuous mode, link wait.
//!
//! The order of the register operations is load-bearing; the bodies perform
//! them in exactly the datasheet's order against the modelled window, and the
//! contracts pin the queue state each phase establishes.

use vstd::prelude::*;
use std::collections::VecDeque;
use crate::ring::is_pow2;
use crate::regs::{MMIO_LEN, MAX_QUEUES, NUM_RX_QUEUE_ENTRIES, NUM_TX_QUEUE_ENTRIES,
    PKT_BUF_SIZE, MIN_MEMPOOL_ENTRIES, IXGBE_FCTRL_MPE, IXGBE_FCTRL_UPE,
    IXGBE_EIMC, IXGBE_CTRL, IXGBE_CTRL_RST_MASK, IXGBE_EEC, IXGBE_EEC_ARD,
    IXGBE_RDRXCTL, IXGBE_RDRXCTL_DMAIDONE, IXGBE_RDRXCTL_CRCSTRIP,
    IXGBE_AUTOC, IXGBE_AUTOC_LMS_MASK, IXGBE_AUTOC_LMS_10G_SERIAL,
    IXGBE_AUTOC_10G_PMA_PMD_MASK, IXGBE_AUTOC_10G_XAUI, IXGBE_AUTOC_AN_RESTART,
    IXGBE_RXCTRL, IXGBE_RXCTRL_RXEN, IXGBE_RXPBSIZE_128KB, IXGBE_TXPBSIZE_40KB,
    IXGBE_HLREG0, IXGBE_HLREG0_RXCRCSTRP, IXGBE_HLREG0_TXCRCEN, IXGBE_HLREG0_TXPADEN,
    IXGBE_FCTRL, IXGBE_FCTRL_BAM, IXGBE_SRRCTL_DESCTYPE_MASK,
    IXGBE_SRRCTL_DESCTYPE_ADV_ONEBUF, IXGBE_SRRCTL_DROP_EN, IXGBE_CTRL_EXT,
    IXGBE_CTRL_EXT_NS_DIS, IXGBE_RXDCTL_ENABLE, IXGBE_TXDCTL_ENABLE,
    IXGBE_DMATXCTL, IXGBE_DMATXCTL_TE, IXGBE_DTXMXSZRQ, IXGBE_RTTDCS,
    IXGBE_RTTDCS_ARBDIS,
    ixgbe_rdbal, ixgbe_rdbah, ixgbe_rdlen, ixgbe_rdh, ixgbe_rdt, ixgbe_rxdctl,
    ixgbe_srrctl, ixgbe_dca_rxctrl, ixgbe_rxpbsize, ixgbe_txpbsize,
    ixgbe_tdbal, ixgbe_tdbah, ixgbe_tdlen, ixgbe_tdh, ixgbe_tdt, ixgbe_txdctl,
    pack_txdctl_thresholds};
use crate::mmio::MmioRegion;
use crate::dma::allocate_dma;
use crate::mempool::Mempool;
use crate::desc::{Descriptor, make_rx_read_desc, rx_dd};
use crate::device::{IxgbeDevice, RxQueue, TxQueue};
use crate::pkt::IxgbeError;

verus! {

/// A receive queue after `init_rx`: configured, its ring memory allocated,
/// its pool full, no slot armed yet.
pub open spec fn rx_configured(q: RxQueue) -> bool {
    &&& q.num_entries == NUM_RX_QUEUE_ENTRIES
    &&& is_pow2(q.num_entries)
    &&& q.descriptors@.len() == q.num_entries
    &&& forall|i: int| 0 <= i < q.descriptors@.len()
            ==> q.descriptors@[i] == crate::desc::desc_all_ones()
    &&& q.rx_index == 0
    &&& q.hw_index == 0
    &&& q.bufs@.len() == 0
    &&& q.pool.wf()
    &&& q.pool.num_bufs == MIN_MEMPOOL_ENTRIES
    &&& q.pool.buf_size == PKT_BUF_SIZE
    &&& q.pool.free_stack@.len() == q.pool.num_bufs
    &&& q.num_entries < q.pool.num_bufs
}

/// A receive queue after `start_rx_queue`: well formed, every slot armed
/// with a buffer, the pool down by exactly the ring's buffers.
pub open spec fn rx_started(q: RxQueue) -> bool {
    &&& q.wf()
    &&& q.num_entries == NUM_RX_QUEUE_ENTRIES
    &&& q.rx_index == 0
    &&& q.hw_index == 0
    &&& q.pool.num_bufs == MIN_MEMPOOL_ENTRIES
    &&& q.pool.buf_size == PKT_BUF_SIZE
    &&& q.pool.free_stack@.len() == q.pool.num_bufs - q.num_entries
    &&& forall|i: int| 0 <= i < q.descriptors@.len() ==> !rx_dd(#[trigger] q.descriptors@[i])
}

/// A transmit queue after `init_tx`: well formed, empty, cursors at zero.
pub open spec fn tx_configured(q: TxQueue) -> bool {
    &&& q.wf()
    &&& q.num_entries == NUM_TX_QUEUE_ENTRIES
    &&& q.clean_index == 0
    &&& q.tx_index == 0
    &&& q.hw_index == 0
    &&& q.inflight@.len() == 0
    &&& forall|i: int| 0 <= i < q.descriptors@.len()
            ==> q.descriptors@[i] == crate::desc::desc_all_ones()
}

/// The AUTOC value after link initialization: link mode 10G serial, PMA/PMD
/// XAUI, negotiation restarted, every other bit kept through the
/// read-modify-writes.
pub open spec fn autoc_after_link_init(a: u32) -> u32 {
    ((((a & !IXGBE_AUTOC_LMS_MASK) | IXGBE_AUTOC_LMS_10G_SERIAL)
        & !IXGBE_AUTOC_10G_PMA_PMD_MASK) | IXGBE_AUTOC_10G_XAUI) | IXGBE_AUTOC_AN_RESTART
}

/// Word index (byte offset over four) of SRRCTL for queue `q`.
pub open spec fn srrctl_word(q: int) -> int {
    if q <= 15 { 0x840 + q } else { 0x405 + 0x10 * q }
}

/// Word index of the DCA receive control register for queue `q`.
pub open spec fn dca_rxctrl_word(q: int) -> int {
    if q <= 15 { 0x880 + q } else { 0x403 + 0x10 * q }
}

/// Word indexes `init_rx` may write: receive control, packet buffer sizing,
/// the CRC, filter and no-snoop bits, and the per-queue ring registers.
pub open spec fn rx_init_touched(r: int) -> bool {
    ||| r == 0xC00                // RXCTRL
    ||| 0xF00 <= r < 0xF08        // RXPBSIZE
    ||| r == 0x1090               // HLREG0
    ||| r == 0xBC0                // RDRXCTL
    ||| r == 0x1420               // FCTRL
    ||| r == 6                    // CTRL_EXT
    ||| 0x400 <= r < 0x800        // RDBAL through RXDCTL, all queues
    ||| 0x840 <= r < 0x890        // SRRCTL and DCA control, low queues
}

/// Word indexes `init_tx` may write.
pub open spec fn tx_init_touched(r: int) -> bool {
    ||| r == 0x1090               // HLREG0
    ||| 0x3300 <= r < 0x3308      // TXPBSIZE
    ||| r == 0x2040               // DTXMXSZRQ
    ||| r == 0x1240               // RTTDCS
    ||| r == 0x12A0               // DMATXCTL
    ||| 0x1800 <= r < 0x1C00      // TDBAL through TXDCTL, all queues
}

/// The ring registers of receive queue `q` as `init_rx` programs them: the
/// ring's physical base and byte length, head and tail at zero, advanced
/// one-buffer descriptors, drop when out of descriptors.
pub open spec fn rx_queue_regs_configured(m: Seq<u32>, q: int, ring_phys: u64) -> bool {
    &&& m[srrctl_word(q)] & IXGBE_SRRCTL_DESCTYPE_MASK == IXGBE_SRRCTL_DESCTYPE_ADV_ONEBUF
    &&& m[srrctl_word(q)] & IXGBE_SRRCTL_DROP_EN == IXGBE_SRRCTL_DROP_EN
    &&& m[0x400 + 0x10 * q] == crate::desc::addr_lo(ring_phys)
    &&& m[0x401 + 0x10 * q] == crate::desc::addr_hi(ring_phys)
    &&& m[0x402 + 0x10 * q] == NUM_RX_QUEUE_ENTRIES * 16
    &&& m[0x404 + 0x10 * q] == 0
    &&& m[0x406 + 0x10 * q] == 0
}

/// The ring registers of transmit queue `q` as `init_tx` programs them.
pub open spec fn tx_queue_regs_configured(m: Seq<u32>, q: int, ring_phys: u64) -> bool {
    &&& m[0x1800 + 0x10 * q] == crate::desc::addr_lo(ring_phys)
    &&& m[0x1801 + 0x10 * q] == crate::desc::addr_hi(ring_phys)
    &&& m[0x1802 + 0x10 * q] == NUM_TX_QUEUE_ENTRIES * 16
    &&& m[0x180A + 0x10 * q] & 0x003F3F3F == 0x00040824
}

/// The fixed transmit registers as `init_tx` programs them: CRC insertion
/// and padding on, all 40 KiB of packet buffer on traffic class 0, the
/// maximum allowed outstanding request size, arbitration undisabled, and
/// transmit DMA enabled.
pub open spec fn tx_fixed_regs(m: Seq<u32>) -> bool {
    &&& m[0x1090] & (IXGBE_HLREG0_TXCRCEN | IXGBE_HLREG0_TXPADEN)
            == IXGBE_HLREG0_TXCRCEN | IXGBE_HLREG0_TXPADEN
    &&& m[0x3300] == IXGBE_TXPBSIZE_40KB
    &&& forall|r: int| 0x3301 <= r < 0x3308 ==> m[r] == 0
    &&& m[0x2040] == 0xFFFF
    &&& m[0x1240] & IXGBE_RTTDCS_ARBDIS == 0
    &&& m[0x12A0] == IXGBE_DMATXCTL_TE
}

/// The fixed receive registers as `init_rx` programs them: all 128 KiB of
/// packet buffer on pool 0, CRC stripping on, broadcast accepted.
pub open spec fn rx_fixed_regs(m: Seq<u32>) -> bool {
    &&& m[0xF00] == IXGBE_RXPBSIZE_128KB
    &&& forall|r: int| 0xF01 <= r < 0xF08 ==> m[r] == 0
    &&& m[0x1090] & IXGBE_HLREG0_RXCRCSTRP == IXGBE_HLREG0_RXCRCSTRP
    &&& m[0xBC0] & IXGBE_RDRXCTL_CRCSTRIP == IXGBE_RDRXCTL_CRCSTRIP
    &&& m[0x1420] & IXGBE_FCTRL_BAM == IXGBE_FCTRL_BAM
}

/// The receive queue registers after `start_rx_queue`: queue enabled, head
/// at zero, tail one behind it, so the ring is full from the device's view.
pub open spec fn rx_queue_regs_started(m: Seq<u32>, q: int) -> bool {
    &&& m[0x40A + 0x10 * q] & IXGBE_RXDCTL_ENABLE == IXGBE_RXDCTL_ENABLE
    &&& m[0x404 + 0x10 * q] == 0
    &&& m[0x406 + 0x10 * q] == NUM_RX_QUEUE_ENTRIES - 1
}

/// The transmit queue registers after `start_tx_queue`: queue enabled, both
/// cursors at zero.
pub open spec fn tx_queue_regs_started(m: Seq<u32>, q: int) -> bool {
    &&& m[0x180A + 0x10 * q] & IXGBE_TXDCTL_ENABLE == IXGBE_TXDCTL_ENABLE
    &&& m[0x1804 + 0x10 * q] == 0
    &&& m[0x1806 + 0x10 * q] == 0
}

impl IxgbeDevice {
    /// Map and bring up a device with `num_rx_queues` receive and
    /// `num_tx_queues` transmit queues.  `pci_addr` names the PCI device;
    /// mapping its BAR0 is the harness's work, and the model starts from a
    /// zeroed window of the 82599's size.
    pub fn init(pci_addr: &str, num_rx_queues: u32, num_tx_queues: u32) -> (r: Result<
        IxgbeDevice, IxgbeError>)
        ensures
            r is Err <==> (num_rx_queues > MAX_QUEUES || num_tx_queues > MAX_QUEUES),
            match r {
                Ok(dev) => {
                    &&& dev.wf()
                    &&& dev.num_rx_queues == num_rx_queues
                    &&& dev.num_tx_queues == num_tx_queues
                    &&& forall|q: int| 0 <= q < dev.rx_queues@.len()
                            ==> rx_started(#[trigger] dev.rx_queues@[q])
                    &&& forall|t: int| 0 <= t < dev.tx_queues@.len()
                            ==> tx_configured(#[trigger] dev.tx_queues@[t])
                    &&& dev.mmio.reg_of(IXGBE_EIMC) == 0x7FFFFFFF
                    &&& dev.mmio.reg_of(IXGBE_FCTRL) & IXGBE_FCTRL_MPE == IXGBE_FCTRL_MPE
                    &&& dev.mmio.reg_of(IXGBE_FCTRL) & IXGBE_FCTRL_UPE == IXGBE_FCTRL_UPE
                    &&& dev.mmio.reg_of(IXGBE_FCTRL) & IXGBE_FCTRL_BAM == IXGBE_FCTRL_BAM
                    &&& dev.mmio.reg_of(IXGBE_RXCTRL) & IXGBE_RXCTRL_RXEN == IXGBE_RXCTRL_RXEN
                    &&& dev.mmio.reg_of(IXGBE_DMATXCTL) == IXGBE_DMATXCTL_TE
                    &&& forall|q: int| 0 <= q < dev.num_rx_queues
                            ==> rx_queue_regs_started(dev.mmio@, q)
                    &&& forall|t: int| 0 <= t < dev.num_tx_queues
                            ==> tx_queue_regs_started(dev.mmio@, t)
                },
                Err(e) => e == IxgbeError::TooManyQueues,
            },
    {
        let _ = pci_addr;
        if num_rx_queues > MAX_QUEUES || num_tx_queues > MAX_QUEUES {
            return Err(IxgbeError::TooManyQueues);
        }
        let mmio = MmioRegion::new_zeroed((MMIO_LEN / 4) as usize);
        let mut dev = IxgbeDevice {
            mmio,
            num_rx_queues,
            num_tx_queues,
            rx_queues: Vec::new(),
            tx_queues: Vec::new(),
        };
        match dev.reset_and_init() {
            Ok(()) => Ok(dev),
            Err(e) => {
                proof { assert(false); }
                Err(e)
            },
        }
    }

    /// The full bring-up sequence on a freshly mapped device.
    pub fn reset_and_init(&mut self) -> (r: Result<(), IxgbeError>)
        requires
            old(self).mmio.len_bytes() == MMIO_LEN,
            old(self).num_rx_queues <= MAX_QUEUES,
            old(self).num_tx_queues <= MAX_QUEUES,
            old(self).rx_queues@.len() == 0,
            old(self).tx_queues@.len() == 0,
        ensures
            final(self).num_rx_queues == old(self).num_rx_queues,
            final(self).num_tx_queues == old(self).num_tx_queues,
            r is Ok,
            final(self).wf(),
            forall|q: int| 0 <= q < final(self).rx_queues@.len()
                ==> rx_started(#[trigger] final(self).rx_queues@[q]),
            forall|t: int| 0 <= t < final(self).tx_queues@.len()
                ==> tx_configured(#[trigger] final(self).tx_queues@[t]),
            final(self).mmio.reg_of(IXGBE_EIMC) == 0x7FFFFFFF,
            final(self).mmio.reg_of(IXGBE_FCTRL) & IXGBE_FCTRL_MPE == IXGBE_FCTRL_MPE,
            final(self).mmio.reg_of(IXGBE_FCTRL) & IXGBE_FCTRL_UPE == IXGBE_FCTRL_UPE,
            final(self).mmio.reg_of(IXGBE_FCTRL) & IXGBE_FCTRL_BAM == IXGBE_FCTRL_BAM,
            final(self).mmio.reg_of(IXGBE_RXCTRL) & IXGBE_RXCTRL_RXEN == IXGBE_RXCTRL_RXEN,
            final(self).mmio.reg_of(IXGBE_DMATXCTL) == IXGBE_DMATXCTL_TE,
            forall|q: int| 0 <= q < final(self).num_rx_queues
                ==> rx_queue_regs_started(final(self).mmio@, q),
            forall|t: int| 0 <= t < final(self).num_tx_queues
                ==> tx_queue_regs_started(final(self).mmio@, t),
    {
        let mut huge_page_id: u32 = 0;

        // Disable all interrupts.
        self.set_reg32(IXGBE_EIMC, 0x7FFFFFFF);

        // Global reset; the device clears the bit when it is done, then
        // needs a settling delay that the harness provides.
        self.set_reg32(IXGBE_CTRL, IXGBE_CTRL_RST_MASK);
        self.wait_clear_reg32(IXGBE_CTRL, IXGBE_CTRL_RST_MASK);

        // The reset re-enabled interrupts; mask them again.
        self.set_reg32(IXGBE_EIMC, 0x7FFFFFFF);

        // Wait for EEPROM auto-read completion.
        self.wait_set_reg32(IXGBE_EEC, IXGBE_EEC_ARD);

        // Wait for DMA initialization.
        self.wait_set_reg32(IXGBE_RDRXCTL, IXGBE_RDRXCTL_DMAIDONE);

        // Link auto-negotiation.
        self.init_link();

        // Zero the clear-on-read counters.
        self.reset_stats();

        proof {
            assert(self.mmio@[0x222] == 0x7FFFFFFF);
        }

        match self.init_rx(&mut huge_page_id) {
            Ok(()) => {},
            Err(e) => {
                proof { assert(false); }
                return Err(e);
            },
        }
        match self.init_tx(&mut huge_page_id) {
            Ok(()) => {},
            Err(e) => {
                proof { assert(false); }
                return Err(e);
            },
        }

        proof {
            assert(!rx_init_touched(0x222) && !tx_init_touched(0x222));
            assert(!tx_init_touched(0x1420) && !tx_init_touched(0xC00));
            assert(self.mmio@[0x222] == 0x7FFFFFFF);
            assert(self.mmio@[0x1420] & IXGBE_FCTRL_BAM == IXGBE_FCTRL_BAM);
            assert(self.mmio@[0xC00] & IXGBE_RXCTRL_RXEN == IXGBE_RXCTRL_RXEN);
            assert(self.mmio@[0x12A0] == IXGBE_DMATXCTL_TE);
        }

        let mut i: u32 = 0;
        while i < self.num_rx_queues
            invariant
                self.mmio.len_bytes() == MMIO_LEN,
                self.mmio@.len() == 0x8000,
                self.num_rx_queues <= MAX_QUEUES,
                i <= self.num_rx_queues,
                self.num_rx_queues == old(self).num_rx_queues,
                self.num_tx_queues == old(self).num_tx_queues,
                self.rx_queues@.len() == self.num_rx_queues,
                forall|q: int| 0 <= q < i ==> rx_started(#[trigger] self.rx_queues@[q]),
                forall|q: int| i <= q < self.rx_queues@.len()
                    ==> rx_configured(#[trigger] self.rx_queues@[q]),
                forall|t: int| 0 <= t < self.tx_queues@.len()
                    ==> tx_configured(#[trigger] self.tx_queues@[t]),
                self.tx_queues@.len() == self.num_tx_queues,
                self.mmio@[0x222] == 0x7FFFFFFF,
                self.mmio@[0x1420] & IXGBE_FCTRL_BAM == IXGBE_FCTRL_BAM,
                self.mmio@[0xC00] & IXGBE_RXCTRL_RXEN == IXGBE_RXCTRL_RXEN,
                self.mmio@[0x12A0] == IXGBE_DMATXCTL_TE,
                forall|q: int| 0 <= q < i ==> rx_queue_regs_started(self.mmio@, q),
            decreases self.num_rx_queues - i,
        {
            let ghost m_it = self.mmio@;
            match self.start_rx_queue(i) {
                Ok(()) => {},
                Err(e) => { return Err(e); },
            }
            i = i + 1;
            proof {
                assert forall|q: int| 0 <= q < i
                    implies rx_queue_regs_started(self.mmio@, q) by {
                    if q < i - 1 {
                        assert(rx_queue_regs_started(m_it, q));
                    }
                }
            }
        }

        let mut i: u32 = 0;
        while i < self.num_tx_queues
            invariant
                self.mmio.len_bytes() == MMIO_LEN,
                self.mmio@.len() == 0x8000,
                self.num_tx_queues <= MAX_QUEUES,
                self.num_rx_queues <= MAX_QUEUES,
                i <= self.num_tx_queues,
                self.num_rx_queues == old(self).num_rx_queues,
                self.num_tx_queues == old(self).num_tx_queues,
                self.rx_queues@.len() == self.num_rx_queues,
                forall|q: int| 0 <= q < self.rx_queues@.len()
                    ==> rx_started(#[trigger] self.rx_queues@[q]),
                forall|t: int| 0 <= t < self.tx_queues@.len()
                    ==> tx_configured(#[trigger] self.tx_queues@[t]),
                self.tx_queues@.len() == self.num_tx_queues,
                self.mmio@[0x222] == 0x7FFFFFFF,
                self.mmio@[0x1420] & IXGBE_FCTRL_BAM == IXGBE_FCTRL_BAM,
                self.mmio@[0xC00] & IXGBE_RXCTRL_RXEN == IXGBE_RXCTRL_RXEN,
                self.mmio@[0x12A0] == IXGBE_DMATXCTL_TE,
                forall|q: int| 0 <= q < self.num_rx_queues
                    ==> rx_queue_regs_started(self.mmio@, q),
                forall|t: int| 0 <= t < i ==> tx_queue_regs_started(self.mmio@, t),
            decreases self.num_tx_queues - i,
        {
            let ghost m_it = self.mmio@;
            match self.start_tx_queue(i) {
                Ok(()) => {},
                Err(e) => { return Err(e); },
            }
            i = i + 1;
            proof {
                assert forall|q: int| 0 <= q < self.num_rx_queues
                    implies rx_queue_regs_started(self.mmio@, q) by {
                    assert(rx_queue_regs_started(m_it, q));
                }
                assert forall|t: int| 0 <= t < i
                    implies tx_queue_regs_started(self.mmio@, t) by {
                    if t < i - 1 {
                        assert(tx_queue_regs_started(m_it, t));
                    }
                }
            }
        }

        proof {
            assert(self.wf()) by {
                assert forall|q: int| 0 <= q < self.rx_queues@.len()
                    implies (#[trigger] self.rx_queues@[q]).wf() by {
                    assert(rx_started(self.rx_queues@[q]));
                }
                assert forall|t: int| 0 <= t < self.tx_queues@.len()
                    implies (#[trigger] self.tx_queues@[t]).wf() by {
                    assert(tx_configured(self.tx_queues@[t]));
                }
                assert forall|t: int, i2: int| self.tx_slot_in_range(t, i2)
                    implies self.tx_slot_wf(#[trigger] self.tx_slot(t, i2)) by {
                    assert(tx_configured(self.tx_queues@[t]));
                    assert(false);
                }
            }
        }

        // Accept everything while the forwarding filters are unconfigured.
        let ghost m_p = self.mmio@;
        self.set_promisc(true);
        proof {
            let v: u32 = m_p[0x1420];
            assert((IXGBE_FCTRL_MPE | IXGBE_FCTRL_UPE) & IXGBE_FCTRL_BAM == 0) by (bit_vector);
            crate::regs::lemma_or_keeps_disjoint(v, IXGBE_FCTRL_MPE | IXGBE_FCTRL_UPE,
                IXGBE_FCTRL_BAM);
            assert((v | (IXGBE_FCTRL_MPE | IXGBE_FCTRL_UPE)) & IXGBE_FCTRL_MPE
                    == IXGBE_FCTRL_MPE
                && (v | (IXGBE_FCTRL_MPE | IXGBE_FCTRL_UPE)) & IXGBE_FCTRL_UPE
                    == IXGBE_FCTRL_UPE) by (bit_vector);
            assert forall|q: int| 0 <= q < self.num_rx_queues
                implies rx_queue_regs_started(self.mmio@, q) by {
                assert(rx_queue_regs_started(m_p, q));
            }
            assert forall|t: int| 0 <= t < self.num_tx_queues
                implies tx_queue_regs_started(self.mmio@, t) by {
                assert(tx_queue_regs_started(m_p, t));
            }
        }

        // Poll the link; a link still down is reported, not fatal.
        let _ = self.wait_for_link();

        Ok(())
    }

    /// Set the link mode to 10G serial over XAUI and restart negotiation:
    /// AUTOC is read-modified-written, so every bit outside the two fields
    /// and the restart bit is preserved.
    pub fn init_link(&mut self)
        requires
            old(self).mmio.len_bytes() == MMIO_LEN,
        ensures
            final(self).mmio@ == old(self).mmio@.update(IXGBE_AUTOC as int / 4,
                autoc_after_link_init(old(self).mmio.reg_of(IXGBE_AUTOC))),
            final(self).mmio.reg_of(IXGBE_AUTOC) & IXGBE_AUTOC_LMS_MASK
                == IXGBE_AUTOC_LMS_10G_SERIAL,
            final(self).mmio.reg_of(IXGBE_AUTOC) & IXGBE_AUTOC_10G_PMA_PMD_MASK
                == IXGBE_AUTOC_10G_XAUI,
            final(self).mmio.reg_of(IXGBE_AUTOC) & IXGBE_AUTOC_AN_RESTART
                == IXGBE_AUTOC_AN_RESTART,
            crate::device::same_queues(*old(self), *final(self)),
            old(self).wf() ==> final(self).wf(),
    {
        let autoc = self.get_reg32(IXGBE_AUTOC);
        self.set_reg32(IXGBE_AUTOC, (autoc & !IXGBE_AUTOC_LMS_MASK) | IXGBE_AUTOC_LMS_10G_SERIAL);
        let autoc = self.get_reg32(IXGBE_AUTOC);
        self.set_reg32(IXGBE_AUTOC, (autoc & !IXGBE_AUTOC_10G_PMA_PMD_MASK) | IXGBE_AUTOC_10G_XAUI);
        self.set_flags32(IXGBE_AUTOC, IXGBE_AUTOC_AN_RESTART);
        proof {
            let a0 = old(self).mmio.reg_of(IXGBE_AUTOC);
            let a3 = autoc_after_link_init(a0);
            assert(self.mmio@ =~= old(self).mmio@.update(IXGBE_AUTOC as int / 4, a3));
            assert(a3 & IXGBE_AUTOC_LMS_MASK == IXGBE_AUTOC_LMS_10G_SERIAL
                && a3 & IXGBE_AUTOC_10G_PMA_PMD_MASK == IXGBE_AUTOC_10G_XAUI
                && a3 & IXGBE_AUTOC_AN_RESTART == IXGBE_AUTOC_AN_RESTART) by {
                let m1 = IXGBE_AUTOC_LMS_MASK;
                let m2 = IXGBE_AUTOC_10G_PMA_PMD_MASK;
                assert(((((a0 & !m1) | 0x00006000u32) & !m2) | 0u32 | 0x00001000u32) & m1
                        == 0x00006000u32
                    && ((((a0 & !m1) | 0x00006000u32) & !m2) | 0u32 | 0x00001000u32) & m2 == 0u32
                    && ((((a0 & !m1) | 0x00006000u32) & !m2) | 0u32 | 0x00001000u32) & 0x00001000u32
                        == 0x00001000u32) by (bit_vector)
                    requires m1 == 0x0000E000u32, m2 == 0x00000180u32;
            }
        }
    }

    /// Poll the link until it reports a speed or the harness's ten-second
    /// budget runs out; the model reads the state the wait ended in.
    pub fn wait_for_link(&self) -> (r: u16)
        requires
            self.mmio.len_bytes() == MMIO_LEN,
        ensures
            r == crate::regs::link_speed_of(self.mmio.reg_of(crate::regs::IXGBE_LINKS)),
    {
        crate::regs::decode_link_speed(self.get_reg32(crate::regs::IXGBE_LINKS))
    }

    /// Receive initialization: packet buffer sizing, CRC strip, broadcast
    /// accept, and one configured queue with its ring and pool per receive
    /// queue asked for.
    pub fn init_rx(&mut self, huge_page_id: &mut u32) -> (r: Result<(), IxgbeError>)
        requires
            old(self).mmio.len_bytes() == MMIO_LEN,
            old(self).num_rx_queues <= MAX_QUEUES,
            old(self).rx_queues@.len() == 0,
            *old(huge_page_id) + 5 * old(self).num_rx_queues <= crate::dma::MAX_HUGE_PAGES,
        ensures
            final(self).mmio.len_bytes() == MMIO_LEN,
            final(self).num_rx_queues == old(self).num_rx_queues,
            final(self).num_tx_queues == old(self).num_tx_queues,
            final(self).tx_queues == old(self).tx_queues,
            r is Ok,
            *final(huge_page_id) == *old(huge_page_id) + 5 * old(self).num_rx_queues,
            final(self).rx_queues@.len() == final(self).num_rx_queues,
            forall|q: int| 0 <= q < final(self).rx_queues@.len()
                ==> rx_configured(#[trigger] final(self).rx_queues@[q]),
            forall|r: int| 0 <= r < old(self).mmio@.len() && !rx_init_touched(r)
                ==> final(self).mmio@[r] == old(self).mmio@[r],
            rx_fixed_regs(final(self).mmio@),
            final(self).mmio@[0xC00] & IXGBE_RXCTRL_RXEN == IXGBE_RXCTRL_RXEN,
            final(self).mmio@[6] & IXGBE_CTRL_EXT_NS_DIS == IXGBE_CTRL_EXT_NS_DIS,
            forall|q: int| 0 <= q < final(self).rx_queues@.len()
                ==> rx_queue_regs_configured(final(self).mmio@, q,
                    (#[trigger] final(self).rx_queues@[q]).ring_phys),
            forall|q: int| 0 <= q < final(self).rx_queues@.len()
                ==> final(self).mmio@[dca_rxctrl_word(q)] & 0x1000 == 0,
    {
        // Disable receive while configuring.
        self.clear_flags32(IXGBE_RXCTRL, IXGBE_RXCTRL_RXEN);

        // All 128 KiB of receive packet buffer to pool 0.
        self.set_reg32(ixgbe_rxpbsize(0), IXGBE_RXPBSIZE_128KB);
        let mut i: u32 = 1;
        while i < 8
            invariant
                1 <= i <= 8,
                self.mmio.len_bytes() == MMIO_LEN,
                self.mmio@.len() == old(self).mmio@.len(),
                crate::device::same_queues(*old(self), *self),
                forall|r: int| 0 <= r < old(self).mmio@.len() && !rx_init_touched(r)
                    ==> self.mmio@[r] == old(self).mmio@[r],
                self.mmio@[0xF00] == IXGBE_RXPBSIZE_128KB,
                forall|r: int| 0xF01 <= r < 0xF00 + i ==> self.mmio@[r] == 0,
            decreases 8 - i,
        {
            self.set_reg32(ixgbe_rxpbsize(i), 0);
            i = i + 1;
        }

        // Strip the CRC in hardware.
        let ghost m_a = self.mmio@;
        self.set_flags32(IXGBE_HLREG0, IXGBE_HLREG0_RXCRCSTRP);
        proof {
            crate::regs::lemma_or_sets_mask(m_a[0x1090], IXGBE_HLREG0_RXCRCSTRP);
        }
        let ghost m_b = self.mmio@;
        self.set_flags32(IXGBE_RDRXCTL, IXGBE_RDRXCTL_CRCSTRIP);
        proof {
            crate::regs::lemma_or_sets_mask(m_b[0xBC0], IXGBE_RDRXCTL_CRCSTRIP);
        }

        // Accept broadcast.
        let ghost m_c = self.mmio@;
        self.set_flags32(IXGBE_FCTRL, IXGBE_FCTRL_BAM);
        proof {
            crate::regs::lemma_or_sets_mask(m_c[0x1420], IXGBE_FCTRL_BAM);
            assert(rx_fixed_regs(self.mmio@));
        }

        let num_rx = self.num_rx_queues;
        let mut i: u32 = 0;
        while i < num_rx
            invariant
                i <= num_rx,
                num_rx == self.num_rx_queues,
                num_rx <= MAX_QUEUES,
                self.mmio.len_bytes() == MMIO_LEN,
                self.num_rx_queues == old(self).num_rx_queues,
                self.num_tx_queues == old(self).num_tx_queues,
                self.tx_queues == old(self).tx_queues,
                self.rx_queues@.len() == i,
                forall|q: int| 0 <= q < i ==> rx_configured(#[trigger] self.rx_queues@[q]),
                *huge_page_id == *old(huge_page_id) + 5 * i,
                *old(huge_page_id) + 5 * num_rx <= crate::dma::MAX_HUGE_PAGES,
                self.mmio@.len() == old(self).mmio@.len(),
                forall|r: int| 0 <= r < old(self).mmio@.len() && !rx_init_touched(r)
                    ==> self.mmio@[r] == old(self).mmio@[r],
                rx_fixed_regs(self.mmio@),
                forall|q: int| 0 <= q < i ==> rx_queue_regs_configured(self.mmio@, q,
                    (#[trigger] self.rx_queues@[q]).ring_phys),
            decreases num_rx - i,
        {
            // Advanced one-buffer descriptors, drop packets when out of
            // descriptors.
            let ghost ii = i as int;
            proof {
                if i <= 15 {
                    assert((0x02100 + 4 * ii) / 4 == 0x840 + ii);
                    assert(srrctl_word(ii) == 0x840 + ii);
                } else {
                    assert((0x01014 + 0x40 * ii) / 4 == 0x405 + 0x10 * ii);
                    assert(srrctl_word(ii) == 0x405 + 0x10 * ii);
                }
                assert(rx_init_touched(srrctl_word(ii)));
            }
            let ghost m_q0 = self.mmio@;
            let srrctl = self.get_reg32(ixgbe_srrctl(i));
            self.set_reg32(ixgbe_srrctl(i),
                (srrctl & !IXGBE_SRRCTL_DESCTYPE_MASK) | IXGBE_SRRCTL_DESCTYPE_ADV_ONEBUF);
            self.set_flags32(ixgbe_srrctl(i), IXGBE_SRRCTL_DROP_EN);
            proof {
                assert(IXGBE_SRRCTL_DESCTYPE_ADV_ONEBUF & IXGBE_SRRCTL_DESCTYPE_MASK
                    == IXGBE_SRRCTL_DESCTYPE_ADV_ONEBUF
                    && IXGBE_SRRCTL_DROP_EN & IXGBE_SRRCTL_DESCTYPE_MASK == 0)
                    by (bit_vector);
                crate::regs::lemma_rmw_field(m_q0[srrctl_word(ii)],
                    IXGBE_SRRCTL_DESCTYPE_MASK, IXGBE_SRRCTL_DESCTYPE_ADV_ONEBUF);
                crate::regs::lemma_or_keeps_disjoint(
                    (m_q0[srrctl_word(ii)] & !IXGBE_SRRCTL_DESCTYPE_MASK)
                        | IXGBE_SRRCTL_DESCTYPE_ADV_ONEBUF,
                    IXGBE_SRRCTL_DROP_EN, IXGBE_SRRCTL_DESCTYPE_MASK);
                crate::regs::lemma_or_sets_mask(
                    (m_q0[srrctl_word(ii)] & !IXGBE_SRRCTL_DESCTYPE_MASK)
                        | IXGBE_SRRCTL_DESCTYPE_ADV_ONEBUF,
                    IXGBE_SRRCTL_DROP_EN);
                assert(self.mmio@[srrctl_word(ii)] & IXGBE_SRRCTL_DESCTYPE_MASK
                    == IXGBE_SRRCTL_DESCTYPE_ADV_ONEBUF);
                assert(self.mmio@[srrctl_word(ii)] & IXGBE_SRRCTL_DROP_EN
                    == IXGBE_SRRCTL_DROP_EN);
            }

            // The descriptor ring: one DMA region, written all-ones so no
            // stale memory parses as a done descriptor.
            let ring_size_bytes: u32 = NUM_RX_QUEUE_ENTRIES * 16;
            proof {
                assert(crate::dma::pages_of(8192) == 1);
            }
            let dma = match allocate_dma(huge_page_id, ring_size_bytes) {
                Some(dma) => dma,
                None => {
                    proof { assert(false); }
                    return Err(IxgbeError::DmaExhausted);
                },
            };
            let mut descriptors: Vec<Descriptor> = Vec::new();
            let mut j: u32 = 0;
            while j < NUM_RX_QUEUE_ENTRIES
                invariant
                    j <= NUM_RX_QUEUE_ENTRIES,
                    descriptors@.len() == j,
                    forall|k: int| 0 <= k < j
                        ==> #[trigger] descriptors@[k] == crate::desc::desc_all_ones(),
                decreases NUM_RX_QUEUE_ENTRIES - j,
            {
                descriptors.push(Descriptor {
                    w0: 0xFFFFFFFF, w1: 0xFFFFFFFF, w2: 0xFFFFFFFF, w3: 0xFFFFFFFF,
                });
                j = j + 1;
            }

            proof {
                assert((0x01000 + 0x40 * ii) / 4 == 0x400 + 0x10 * ii);
                assert((0x01004 + 0x40 * ii) / 4 == 0x401 + 0x10 * ii);
                assert((0x01008 + 0x40 * ii) / 4 == 0x402 + 0x10 * ii);
                assert((0x01010 + 0x40 * ii) / 4 == 0x404 + 0x10 * ii);
                assert((0x01018 + 0x40 * ii) / 4 == 0x406 + 0x10 * ii);
            }
            self.set_reg32(ixgbe_rdbal(i), (dma.phys & 0xFFFFFFFF) as u32);
            self.set_reg32(ixgbe_rdbah(i), (dma.phys >> 32) as u32);
            self.set_reg32(ixgbe_rdlen(i), ring_size_bytes);

            // Ring empty from software's view until the queue is started.
            self.set_reg32(ixgbe_rdh(i), 0);
            self.set_reg32(ixgbe_rdt(i), 0);
            proof {
                assert(rx_queue_regs_configured(self.mmio@, ii, dma.phys));
            }

            let mempool_entries: u32 = if NUM_RX_QUEUE_ENTRIES + NUM_TX_QUEUE_ENTRIES
                < MIN_MEMPOOL_ENTRIES {
                MIN_MEMPOOL_ENTRIES
            } else {
                NUM_RX_QUEUE_ENTRIES + NUM_TX_QUEUE_ENTRIES
            };
            proof {
                assert(crate::dma::pages_of(0x800000) == 4);
            }
            let pool = match Mempool::allocate(huge_page_id, mempool_entries, PKT_BUF_SIZE) {
                Some(pool) => pool,
                None => {
                    proof { assert(false); }
                    return Err(IxgbeError::DmaExhausted);
                },
            };

            let queue = RxQueue {
                descriptors,
                num_entries: NUM_RX_QUEUE_ENTRIES,
                rx_index: 0,
                bufs: Vec::new(),
                pool,
                hw_index: 0,
                ring_phys: dma.phys,
            };
            proof {
                assert(512u32 & ((512u32 - 1) as u32) == 0) by (bit_vector);
                assert(is_pow2(NUM_RX_QUEUE_ENTRIES));
            }
            self.rx_queues.push(queue);
            i = i + 1;
            proof {
                assert forall|q: int| 0 <= q < i implies rx_queue_regs_configured(self.mmio@,
                    q, (#[trigger] self.rx_queues@[q]).ring_phys) by {
                    if q < ii {
                        assert(rx_queue_regs_configured(m_q0, q, self.rx_queues@[q].ring_phys));
                    }
                }
            }
        }

        // No snoop disable.
        let ghost m_d = self.mmio@;
        self.set_flags32(IXGBE_CTRL_EXT, IXGBE_CTRL_EXT_NS_DIS);
        proof {
            crate::regs::lemma_or_sets_mask(m_d[6], IXGBE_CTRL_EXT_NS_DIS);
        }

        let mut i: u32 = 0;
        while i < num_rx
            invariant
                i <= num_rx,
                num_rx == self.num_rx_queues,
                num_rx <= MAX_QUEUES,
                self.mmio.len_bytes() == MMIO_LEN,
                self.num_rx_queues == old(self).num_rx_queues,
                self.num_tx_queues == old(self).num_tx_queues,
                self.tx_queues == old(self).tx_queues,
                self.rx_queues@.len() == num_rx,
                forall|q: int| 0 <= q < self.rx_queues@.len()
                    ==> rx_configured(#[trigger] self.rx_queues@[q]),
                self.mmio@.len() == old(self).mmio@.len(),
                forall|r: int| 0 <= r < old(self).mmio@.len() && !rx_init_touched(r)
                    ==> self.mmio@[r] == old(self).mmio@[r],
                rx_fixed_regs(self.mmio@),
                self.mmio@[6] & IXGBE_CTRL_EXT_NS_DIS == IXGBE_CTRL_EXT_NS_DIS,
                forall|q: int| 0 <= q < num_rx ==> rx_queue_regs_configured(self.mmio@, q,
                    (#[trigger] self.rx_queues@[q]).ring_phys),
                forall|q: int| 0 <= q < i ==> self.mmio@[dca_rxctrl_word(q)] & 0x1000 == 0,
            decreases num_rx - i,
        {
            let ghost ii = i as int;
            proof {
                if i <= 15 {
                    assert((0x02200 + 4 * ii) / 4 == 0x880 + ii);
                } else {
                    assert((0x0100C + 0x40 * ii) / 4 == 0x403 + 0x10 * ii);
                }
                assert(rx_init_touched(dca_rxctrl_word(ii)));
            }
            let ghost m_e = self.mmio@;
            self.clear_flags32(ixgbe_dca_rxctrl(i), 1 << 12);
            proof {
                assert(1u32 << 12u32 == 0x1000u32) by (bit_vector);
                crate::regs::lemma_andnot_clears_mask(m_e[dca_rxctrl_word(ii)], 0x1000u32);
            }
            i = i + 1;
        }

        // Enable receive.
        let ghost m_f = self.mmio@;
        self.set_flags32(IXGBE_RXCTRL, IXGBE_RXCTRL_RXEN);
        proof {
            crate::regs::lemma_or_sets_mask(m_f[0xC00], IXGBE_RXCTRL_RXEN);
        }

        Ok(())
    }

    /// Transmit initialization: CRC and padding offload, packet buffer
    /// sizing, and one configured queue with its ring per transmit queue
    /// asked for.
    pub fn init_tx(&mut self, huge_page_id: &mut u32) -> (r: Result<(), IxgbeError>)
        requires
            old(self).mmio.len_bytes() == MMIO_LEN,
            old(self).num_tx_queues <= MAX_QUEUES,
            old(self).tx_queues@.len() == 0,
            *old(huge_page_id) + old(self).num_tx_queues <= crate::dma::MAX_HUGE_PAGES,
        ensures
            final(self).mmio.len_bytes() == MMIO_LEN,
            final(self).num_rx_queues == old(self).num_rx_queues,
            final(self).num_tx_queues == old(self).num_tx_queues,
            final(self).rx_queues == old(self).rx_queues,
            r is Ok,
            final(self).tx_queues@.len() == final(self).num_tx_queues,
            forall|t: int| 0 <= t < final(self).tx_queues@.len()
                ==> tx_configured(#[trigger] final(self).tx_queues@[t]),
            forall|r: int| 0 <= r < old(self).mmio@.len() && !tx_init_touched(r)
                ==> final(self).mmio@[r] == old(self).mmio@[r],
            final(self).mmio@[0x1090] == old(self).mmio@[0x1090]
                | (IXGBE_HLREG0_TXCRCEN | IXGBE_HLREG0_TXPADEN),
            tx_fixed_regs(final(self).mmio@),
            forall|q: int| 0 <= q < final(self).tx_queues@.len()
                ==> tx_queue_regs_configured(final(self).mmio@, q,
                    (#[trigger] final(self).tx_queues@[q]).ring_phys),
    {
        // CRC insertion and short-frame padding.
        let ghost m_a = self.mmio@;
        self.set_flags32(IXGBE_HLREG0, IXGBE_HLREG0_TXCRCEN | IXGBE_HLREG0_TXPADEN);
        proof {
            crate::regs::lemma_or_sets_mask(m_a[0x1090],
                IXGBE_HLREG0_TXCRCEN | IXGBE_HLREG0_TXPADEN);
        }

        // All 40 KiB of transmit packet buffer to traffic class 0.
        self.set_reg32(ixgbe_txpbsize(0), IXGBE_TXPBSIZE_40KB);
        let mut i: u32 = 1;
        while i < 8
            invariant
                1 <= i <= 8,
                self.mmio.len_bytes() == MMIO_LEN,
                self.mmio@.len() == old(self).mmio@.len(),
                crate::device::same_queues(*old(self), *self),
                forall|r: int| 0 <= r < old(self).mmio@.len() && !tx_init_touched(r)
                    ==> self.mmio@[r] == old(self).mmio@[r],
                self.mmio@[0x1090] == old(self).mmio@[0x1090]
                    | (IXGBE_HLREG0_TXCRCEN | IXGBE_HLREG0_TXPADEN),
                self.mmio@[0x1090] & (IXGBE_HLREG0_TXCRCEN | IXGBE_HLREG0_TXPADEN)
                    == IXGBE_HLREG0_TXCRCEN | IXGBE_HLREG0_TXPADEN,
                self.mmio@[0x3300] == IXGBE_TXPBSIZE_40KB,
                forall|r: int| 0x3301 <= r < 0x3300 + i ==> self.mmio@[r] == 0,
            decreases 8 - i,
        {
            self.set_reg32(ixgbe_txpbsize(i), 0);
            i = i + 1;
        }

        // Required when neither DCB nor virtualization is in use.
        self.set_reg32(IXGBE_DTXMXSZRQ, 0xFFFF);
        let ghost m_b = self.mmio@;
        self.clear_flags32(IXGBE_RTTDCS, IXGBE_RTTDCS_ARBDIS);
        proof {
            crate::regs::lemma_andnot_clears_mask(m_b[0x1240], IXGBE_RTTDCS_ARBDIS);
        }

        let num_tx = self.num_tx_queues;
        let mut i: u32 = 0;
        while i < num_tx
            invariant
                i <= num_tx,
                num_tx == self.num_tx_queues,
                num_tx <= MAX_QUEUES,
                self.mmio.len_bytes() == MMIO_LEN,
                self.num_rx_queues == old(self).num_rx_queues,
                self.num_tx_queues == old(self).num_tx_queues,
                self.rx_queues == old(self).rx_queues,
                self.tx_queues@.len() == i,
                forall|t: int| 0 <= t < i ==> tx_configured(#[trigger] self.tx_queues@[t]),
                *huge_page_id == *old(huge_page_id) + i,
                *old(huge_page_id) + num_tx <= crate::dma::MAX_HUGE_PAGES,
                self.mmio@.len() == old(self).mmio@.len(),
                forall|r: int| 0 <= r < old(self).mmio@.len() && !tx_init_touched(r)
                    ==> self.mmio@[r] == old(self).mmio@[r],
                self.mmio@[0x1090] == old(self).mmio@[0x1090]
                    | (IXGBE_HLREG0_TXCRCEN | IXGBE_HLREG0_TXPADEN),
                self.mmio@[0x1090] & (IXGBE_HLREG0_TXCRCEN | IXGBE_HLREG0_TXPADEN)
                    == IXGBE_HLREG0_TXCRCEN | IXGBE_HLREG0_TXPADEN,
                self.mmio@[0x3300] == IXGBE_TXPBSIZE_40KB,
                forall|r: int| 0x3301 <= r < 0x3308 ==> self.mmio@[r] == 0,
                self.mmio@[0x2040] == 0xFFFF,
                self.mmio@[0x1240] & IXGBE_RTTDCS_ARBDIS == 0,
                forall|q: int| 0 <= q < i ==> tx_queue_regs_configured(self.mmio@, q,
                    (#[trigger] self.tx_queues@[q]).ring_phys),
            decreases num_tx - i,
        {
            let ghost ii = i as int;
            let ghost m_q0 = self.mmio@;
            let ring_size_bytes: u32 = NUM_TX_QUEUE_ENTRIES * 16;
            proof {
                assert(crate::dma::pages_of(8192) == 1);
            }
            let dma = match allocate_dma(huge_page_id, ring_size_bytes) {
                Some(dma) => dma,
                None => {
                    proof { assert(false); }
                    return Err(IxgbeError::DmaExhausted);
                },
            };
            let mut descriptors: Vec<Descriptor> = Vec::new();
            let mut j: u32 = 0;
            while j < NUM_TX_QUEUE_ENTRIES
                invariant
                    j <= NUM_TX_QUEUE_ENTRIES,
                    descriptors@.len() == j,
                    forall|k: int| 0 <= k < j
                        ==> #[trigger] descriptors@[k] == crate::desc::desc_all_ones(),
                decreases NUM_TX_QUEUE_ENTRIES - j,
            {
                descriptors.push(Descriptor {
                    w0: 0xFFFFFFFF, w1: 0xFFFFFFFF, w2: 0xFFFFFFFF, w3: 0xFFFFFFFF,
                });
                j = j + 1;
            }

            proof {
                assert((0x06000 + 0x40 * ii) / 4 == 0x1800 + 0x10 * ii);
                assert((0x06004 + 0x40 * ii) / 4 == 0x1801 + 0x10 * ii);
                assert((0x06008 + 0x40 * ii) / 4 == 0x1802 + 0x10 * ii);
                assert((0x06028 + 0x40 * ii) / 4 == 0x180A + 0x10 * ii);
            }
            self.set_reg32(ixgbe_tdbal(i), (dma.phys & 0xFFFFFFFF) as u32);
            self.set_reg32(ixgbe_tdbah(i), (dma.phys >> 32) as u32);
            self.set_reg32(ixgbe_tdlen(i), ring_size_bytes);

            // Prefetch, host and write-back thresholds.
            let ghost m_t = self.mmio@;
            let txdctl = self.get_reg32(ixgbe_txdctl(i));
            self.set_reg32(ixgbe_txdctl(i), pack_txdctl_thresholds(txdctl));
            proof {
                assert(0x00040824u32 & 0x003F3F3Fu32 == 0x00040824u32) by (bit_vector);
                crate::regs::lemma_rmw_field(m_t[0x180A + 0x10 * ii], 0x003F3F3Fu32,
                    0x00040824u32);
                assert(tx_queue_regs_configured(self.mmio@, ii, dma.phys));
            }

            let queue = TxQueue {
                descriptors,
                num_entries: NUM_TX_QUEUE_ENTRIES,
                clean_index: 0,
                tx_index: 0,
                inflight: VecDeque::new(),
                hw_index: 0,
                ring_phys: dma.phys,
            };
            proof {
                assert(512u32 & ((512u32 - 1) as u32) == 0) by (bit_vector);
                assert(is_pow2(NUM_TX_QUEUE_ENTRIES));
                assert(crate::ring::ring_distance(0, 0, NUM_TX_QUEUE_ENTRIES as int) == 0);
            }
            self.tx_queues.push(queue);
            i = i + 1;
            proof {
                assert forall|q: int| 0 <= q < i implies tx_queue_regs_configured(self.mmio@,
                    q, (#[trigger] self.tx_queues@[q]).ring_phys) by {
                    if q < ii {
                        assert(tx_queue_regs_configured(m_q0, q, self.tx_queues@[q].ring_phys));
                    }
                }
            }
        }

        // Enable transmit DMA.
        self.set_reg32(IXGBE_DMATXCTL, IXGBE_DMATXCTL_TE);

        Ok(())
    }

    /// Start receive queue `queue_id`: arm every slot with a fresh buffer,
    /// enable the queue, and publish the full ring to the device.
    pub fn start_rx_queue(&mut self, queue_id: u32) -> (r: Result<(), IxgbeError>)
        requires
            old(self).mmio.len_bytes() == MMIO_LEN,
            queue_id < old(self).num_rx_queues,
            queue_id < MAX_QUEUES,
            old(self).rx_queues@.len() == old(self).num_rx_queues,
            rx_configured(old(self).rx_queues@[queue_id as int]),
        ensures
            final(self).mmio.len_bytes() == MMIO_LEN,
            final(self).num_rx_queues == old(self).num_rx_queues,
            final(self).num_tx_queues == old(self).num_tx_queues,
            final(self).tx_queues == old(self).tx_queues,
            r is Ok,
            final(self).rx_queues@ =~= old(self).rx_queues@.update(queue_id as int,
                final(self).rx_queues@[queue_id as int]),
            rx_started(final(self).rx_queues@[queue_id as int]),
            ({
                let q0 = old(self).rx_queues@[queue_id as int];
                let q1 = final(self).rx_queues@[queue_id as int];
                &&& q1.pool.region == q0.pool.region
                &&& q1.pool.buf_size == q0.pool.buf_size
                &&& q1.ring_phys == q0.ring_phys
                &&& q1.pool.free_stack@ == q0.pool.free_stack@.take(
                        q0.pool.free_stack@.len() - q0.num_entries)
                &&& forall|i: int| 0 <= i < q1.bufs@.len()
                        ==> #[trigger] q1.bufs@[i]
                            == q0.pool.free_stack@[q0.pool.free_stack@.len() - 1 - i]
                &&& forall|i: int| 0 <= i < q1.descriptors@.len()
                        ==> #[trigger] q1.descriptors@[i] == crate::desc::rx_read_desc(
                            (q0.pool.region.phys
                                + q1.bufs@[i] as int * q0.pool.buf_size as int) as u64)
            }),
            final(self).mmio@ == old(self).mmio@
                .update(0x40A + 0x10 * queue_id as int,
                    old(self).mmio@[0x40A + 0x10 * queue_id as int] | IXGBE_RXDCTL_ENABLE)
                .update(0x404 + 0x10 * queue_id as int, 0u32)
                .update(0x406 + 0x10 * queue_id as int, (NUM_RX_QUEUE_ENTRIES - 1) as u32),
            rx_queue_regs_started(final(self).mmio@, queue_id as int),
    {
        let qi = queue_id as usize;
        let mut queue = self.rx_queues.remove(qi);

        // The mask arithmetic of the ring demands a power-of-two size.
        if queue.num_entries & (queue.num_entries - 1) != 0 {
            proof { assert(false); }
            self.rx_queues.insert(qi, queue);
            return Err(IxgbeError::QueueSizeNotPow2);
        }

        let n = queue.num_entries;
        let ghost pool0 = queue.pool;
        proof {
            assert(pool0 == old(self).rx_queues@[queue_id as int].pool);
        }
        let mut i: u32 = 0;
        while i < n
            invariant
                i <= n,
                n == queue.num_entries,
                qi == queue_id as usize,
                queue_id < old(self).num_rx_queues,
                self.mmio.len_bytes() == MMIO_LEN,
                self.num_rx_queues == old(self).num_rx_queues,
                self.num_tx_queues == old(self).num_tx_queues,
                self.tx_queues == old(self).tx_queues,
                old(self).rx_queues@.len() == old(self).num_rx_queues,
                self.rx_queues@ == old(self).rx_queues@.remove(queue_id as int),
                self.mmio == old(self).mmio,
                rx_configured_frame(queue, pool0, n),
                queue.pool.free_stack@ == pool0.free_stack@.take(
                    pool0.free_stack@.len() - i),
                queue.bufs@.len() == i,
                forall|j: int| 0 <= j < i ==> queue.bufs@[j]
                    == pool0.free_stack@[pool0.free_stack@.len() - 1 - j],
                forall|j: int| 0 <= j < i ==> #[trigger] queue.bufs@[j] < queue.pool.num_bufs,
                forall|j: int, k: int| 0 <= j < k < i ==> queue.bufs@[j] != queue.bufs@[k],
                forall|j: int| 0 <= j < i ==> !queue.pool.is_free(#[trigger] queue.bufs@[j]),
                queue.descriptors@.len() == n,
                forall|j: int| 0 <= j < i ==> !rx_dd(#[trigger] queue.descriptors@[j]),
                queue.ring_phys == old(self).rx_queues@[queue_id as int].ring_phys,
                forall|j: int| 0 <= j < i
                    ==> #[trigger] queue.descriptors@[j] == crate::desc::rx_read_desc(
                        (pool0.region.phys + queue.bufs@[j] as int * pool0.buf_size as int) as u64),
            decreases n - i,
        {
            let ghost pre_free = queue.pool.free_stack@;
            let buf = match queue.pool.alloc_buf() {
                Some(buf) => buf,
                None => {
                    // The pool is strictly larger than the ring.
                    proof { assert(false); }
                    self.rx_queues.insert(qi, queue);
                    return Err(IxgbeError::DmaExhausted);
                },
            };
            let phys = queue.pool.phys_of(buf);
            let d = make_rx_read_desc(phys);
            queue.descriptors.set(i as usize, d);
            queue.bufs.push(buf);
            i = i + 1;
            proof {
                let fl = pool0.free_stack@;
                assert(pre_free == fl.take(fl.len() - (i - 1)));
                assert(buf == pre_free[pre_free.len() - 1]);
                assert(buf == fl[fl.len() - i as int]);
                assert(pre_free.drop_last() =~= fl.take(fl.len() - i as int));
                assert forall|j: int| 0 <= j < i implies !queue.pool.is_free(
                    #[trigger] queue.bufs@[j]) by {
                    if j < i - 1 {
                        assert(queue.bufs@[j] == fl[fl.len() - 1 - j]);
                        if queue.pool.free_stack@.contains(queue.bufs@[j]) {
                            let k = choose|k: int| 0 <= k < queue.pool.free_stack@.len()
                                && queue.pool.free_stack@[k] == queue.bufs@[j];
                            assert(fl[k] == fl[fl.len() - 1 - j]);
                        }
                    }
                }
                assert forall|j: int, k: int| 0 <= j < k < i implies
                    queue.bufs@[j] != queue.bufs@[k] by {
                    assert(queue.bufs@[j] == fl[fl.len() - 1 - j]);
                    assert(queue.bufs@[k] == fl[fl.len() - 1 - k]);
                }
            }
        }

        proof {
            assert(queue.wf());
            assert(rx_started(queue));
        }
        self.rx_queues.insert(qi, queue);
        proof {
            assert(self.rx_queues@ =~= old(self).rx_queues@.update(queue_id as int,
                self.rx_queues@[queue_id as int]));
        }

        // Enable the queue and wait for it.
        self.set_flags32(ixgbe_rxdctl(queue_id), IXGBE_RXDCTL_ENABLE);
        self.wait_set_reg32(ixgbe_rxdctl(queue_id), IXGBE_RXDCTL_ENABLE);

        // The ring starts full from the device's view: head at zero, tail
        // one behind it.
        self.set_reg32(ixgbe_rdh(queue_id), 0);
        self.set_reg32(ixgbe_rdt(queue_id), n - 1);

        proof {
            let q = queue_id as int;
            assert((0x01028 + 0x40 * q) / 4 == 0x40A + 0x10 * q);
            assert((0x01010 + 0x40 * q) / 4 == 0x404 + 0x10 * q);
            assert((0x01018 + 0x40 * q) / 4 == 0x406 + 0x10 * q);
            let v0 = old(self).mmio@[0x40A + 0x10 * q];
            crate::regs::lemma_or_idempotent(v0, IXGBE_RXDCTL_ENABLE);
            crate::regs::lemma_or_sets_mask(v0, IXGBE_RXDCTL_ENABLE);
            assert(self.mmio@ =~= old(self).mmio@
                .update(0x40A + 0x10 * q, v0 | IXGBE_RXDCTL_ENABLE)
                .update(0x404 + 0x10 * q, 0u32)
                .update(0x406 + 0x10 * q, (NUM_RX_QUEUE_ENTRIES - 1) as u32));
        }
        Ok(())
    }

    /// Start transmit queue `queue_id`: zero its cursors and enable it.
    pub fn start_tx_queue(&mut self, queue_id: u32) -> (r: Result<(), IxgbeError>)
        requires
            old(self).mmio.len_bytes() == MMIO_LEN,
            queue_id < old(self).num_tx_queues,
            queue_id < MAX_QUEUES,
            old(self).tx_queues@.len() == old(self).num_tx_queues,
            tx_configured(old(self).tx_queues@[queue_id as int]),
        ensures
            final(self).mmio.len_bytes() == MMIO_LEN,
            final(self).num_rx_queues == old(self).num_rx_queues,
            final(self).num_tx_queues == old(self).num_tx_queues,
            final(self).rx_queues == old(self).rx_queues,
            final(self).tx_queues == old(self).tx_queues,
            r is Ok,
            final(self).mmio@ == old(self).mmio@
                .update(0x1804 + 0x10 * queue_id as int, 0u32)
                .update(0x1806 + 0x10 * queue_id as int, 0u32)
                .update(0x180A + 0x10 * queue_id as int,
                    old(self).mmio@[0x180A + 0x10 * queue_id as int] | IXGBE_TXDCTL_ENABLE),
            tx_queue_regs_started(final(self).mmio@, queue_id as int),
    {
        // The mask arithmetic of the ring demands a power-of-two size; the
        // check is fatal here, unlike the log-and-continue a lax driver
        // might get away with.
        let n = self.tx_queues[queue_id as usize].num_entries;
        if n & (n - 1) != 0 {
            proof { assert(false); }
            return Err(IxgbeError::QueueSizeNotPow2);
        }

        // The queue starts out empty.
        self.set_reg32(ixgbe_tdh(queue_id), 0);
        self.set_reg32(ixgbe_tdt(queue_id), 0);

        // Enable the queue and wait for it.
        self.set_flags32(ixgbe_txdctl(queue_id), IXGBE_TXDCTL_ENABLE);
        self.wait_set_reg32(ixgbe_txdctl(queue_id), IXGBE_TXDCTL_ENABLE);

        proof {
            let q = queue_id as int;
            assert((0x06010 + 0x40 * q) / 4 == 0x1804 + 0x10 * q);
            assert((0x06018 + 0x40 * q) / 4 == 0x1806 + 0x10 * q);
            assert((0x06028 + 0x40 * q) / 4 == 0x180A + 0x10 * q);
            let v0 = old(self).mmio@[0x180A + 0x10 * q];
            crate::regs::lemma_or_idempotent(v0, IXGBE_TXDCTL_ENABLE);
            crate::regs::lemma_or_sets_mask(v0, IXGBE_TXDCTL_ENABLE);
            assert(self.mmio@ =~= old(self).mmio@
                .update(0x1804 + 0x10 * q, 0u32)
                .update(0x1806 + 0x10 * q, 0u32)
                .update(0x180A + 0x10 * q, v0 | IXGBE_TXDCTL_ENABLE));
        }
        Ok(())
    }
}

/// The parts of a configured receive queue that arming the ring leaves
/// untouched.
pub open spec fn rx_configured_frame(q: RxQueue, pool0: Mempool, n: u32) -> bool {
    &&& q.num_entries == NUM_RX_QUEUE_ENTRIES
    &&& n == q.num_entries
    &&& is_pow2(q.num_entries)
    &&& q.rx_index == 0
    &&& q.hw_index == 0
    &&& q.pool.wf()
    &&& q.pool.num_bufs == pool0.num_bufs
    &&& q.pool.buf_size == pool0.buf_size
    &&& q.pool.region == pool0.region
    &&& q.pool.num_bufs == MIN_MEMPOOL_ENTRIES
    &&& q.pool.buf_size == PKT_BUF_SIZE
    &&& pool0.free_stack@.len() == pool0.num_bufs
    &&& pool0.wf()
    &&& q.num_entries < q.pool.num_bufs
}

} // verus!

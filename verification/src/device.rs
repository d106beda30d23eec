//! The device: its register window, its queues, and the configuration and
//! statistics operations.
//!
//! The well-formedness predicate carries the driver's ownership discipline:
//! every buffer index is owned by exactly one of its pool's free stack, a
//! receive ring slot, a transmit in-flight slot, or a live packet outside the
//! device; the three owners inside the device are pairwise disjoint.

use vstd::prelude::*;
use std::collections::VecDeque;
use crate::ring::is_pow2;
use crate::regs::{MMIO_LEN, MAX_QUEUES, IXGBE_FCTRL, IXGBE_FCTRL_MPE, IXGBE_FCTRL_UPE,
    IXGBE_LINKS, IXGBE_GPRC, IXGBE_GPTC, IXGBE_GORCL, IXGBE_GORCH, IXGBE_GOTCL, IXGBE_GOTCH,
    link_speed_of};
use crate::mmio::MmioRegion;
use crate::mempool::Mempool;
use crate::desc::Descriptor;
use crate::pkt::{Packet, DeviceStats};

verus! {

/// A receive queue: the descriptor ring, the parallel slot-to-buffer table,
/// the software head, and the pool the ring draws buffers from.  `hw_index`
/// is the device's side of the shared ring: the slot its next write-back
/// lands in.
pub struct RxQueue {
    pub descriptors: Vec<Descriptor>,
    pub num_entries: u32,
    pub rx_index: u32,
    pub bufs: Vec<u32>,
    pub pool: Mempool,
    pub hw_index: u32,
    /// Physical base of the ring's DMA region, as programmed into the
    /// descriptor base address registers.
    pub ring_phys: u64,
}

impl RxQueue {
    pub open spec fn wf(&self) -> bool {
        &&& is_pow2(self.num_entries)
        &&& self.descriptors@.len() == self.num_entries
        &&& self.bufs@.len() == self.num_entries
        &&& self.rx_index < self.num_entries
        &&& self.hw_index < self.num_entries
        &&& self.pool.wf()
        &&& self.num_entries < self.pool.num_bufs
        &&& forall|i: int| 0 <= i < self.bufs@.len() ==> self.bufs@[i] < self.pool.num_bufs
        &&& forall|i: int, j: int| 0 <= i < j < self.bufs@.len() ==> self.bufs@[i] != self.bufs@[j]
        &&& forall|i: int| 0 <= i < self.bufs@.len() ==> !self.pool.is_free(#[trigger] self.bufs@[i])
    }
}

/// One in-flight transmit descriptor's buffer: which pool it belongs to and
/// which buffer it is.
#[derive(Clone, Copy)]
pub struct TxSlot {
    pub pool_id: u32,
    pub buf_index: u32,
}

/// A transmit queue: the descriptor ring, the reclaim and produce cursors,
/// and the first-in first-out queue of in-flight buffers.  `hw_index` is the
/// device's ring cursor: the next descriptor it will send and mark done.
pub struct TxQueue {
    pub descriptors: Vec<Descriptor>,
    pub num_entries: u32,
    pub clean_index: u32,
    pub tx_index: u32,
    pub inflight: VecDeque<TxSlot>,
    pub hw_index: u32,
    /// Physical base of the ring's DMA region, as programmed into the
    /// descriptor base address registers.
    pub ring_phys: u64,
}

impl TxQueue {
    pub open spec fn wf(&self) -> bool {
        &&& is_pow2(self.num_entries)
        &&& self.descriptors@.len() == self.num_entries
        &&& self.clean_index < self.num_entries
        &&& self.tx_index < self.num_entries
        &&& self.hw_index < self.num_entries
        &&& self.inflight@.len() == crate::ring::ring_distance(
                self.clean_index as int, self.tx_index as int, self.num_entries as int)
    }
}

/// The driver's device instance.
pub struct IxgbeDevice {
    pub mmio: MmioRegion,
    pub num_rx_queues: u32,
    pub num_tx_queues: u32,
    pub rx_queues: Vec<RxQueue>,
    pub tx_queues: Vec<TxQueue>,
}

/// The queue counts and queue states of `a` and `b` agree; only the register
/// window may differ.
pub open spec fn same_queues(a: IxgbeDevice, b: IxgbeDevice) -> bool {
    &&& a.num_rx_queues == b.num_rx_queues
    &&& a.num_tx_queues == b.num_tx_queues
    &&& a.rx_queues == b.rx_queues
    &&& a.tx_queues == b.tx_queues
}

/// Well-formedness only looks at the queues and the window length, so a
/// device that differs from a well-formed one in register contents alone is
/// well formed.
pub proof fn lemma_wf_same_queues(a: IxgbeDevice, b: IxgbeDevice)
    requires
        a.wf(),
        same_queues(a, b),
        b.mmio.len_bytes() == MMIO_LEN,
    ensures
        b.wf(),
{
    assert forall|q: int| 0 <= q < b.rx_queues@.len() implies (#[trigger] b.rx_queues@[q]).wf() by {
        assert(b.rx_queues@[q] == a.rx_queues@[q]);
    }
    assert forall|t: int| 0 <= t < b.tx_queues@.len() implies (#[trigger] b.tx_queues@[t]).wf() by {
        assert(b.tx_queues@[t] == a.tx_queues@[t]);
    }
    assert forall|t: int, i: int| b.tx_slot_in_range(t, i)
        implies b.tx_slot_wf(#[trigger] b.tx_slot(t, i)) by {
        assert(a.tx_slot_in_range(t, i));
        assert(a.tx_slot_wf(a.tx_slot(t, i)));
        assert(b.tx_slot(t, i) == a.tx_slot(t, i));
    }
    assert forall|t1: int, i1: int, t2: int, i2: int|
        #![trigger b.tx_slot(t1, i1), b.tx_slot(t2, i2)]
        b.tx_slot_in_range(t1, i1) && b.tx_slot_in_range(t2, i2) && !(t1 == t2 && i1 == i2)
        implies !(b.tx_slot(t1, i1).pool_id == b.tx_slot(t2, i2).pool_id
            && b.tx_slot(t1, i1).buf_index == b.tx_slot(t2, i2).buf_index) by {
        assert(a.tx_slot_in_range(t1, i1));
        assert(a.tx_slot_in_range(t2, i2));
        assert(a.tx_slot(t1, i1) == b.tx_slot(t1, i1));
        assert(a.tx_slot(t2, i2) == b.tx_slot(t2, i2));
        assert(!(a.tx_slot(t1, i1).pool_id == a.tx_slot(t2, i2).pool_id
            && a.tx_slot(t1, i1).buf_index == a.tx_slot(t2, i2).buf_index));
    }
}

impl IxgbeDevice {
    /// The in-flight slot `i` of transmit queue `t`.
    pub open spec fn tx_slot(&self, t: int, i: int) -> TxSlot {
        self.tx_queues@[t].inflight@[i]
    }

    /// `t, i` names an in-flight slot.
    pub open spec fn tx_slot_in_range(&self, t: int, i: int) -> bool {
        0 <= t < self.tx_queues@.len() && 0 <= i < self.tx_queues@[t].inflight@.len()
    }

    /// An in-flight slot names a buffer that exists and that neither its
    /// pool's free stack nor its pool's receive ring owns.
    pub open spec fn tx_slot_wf(&self, s: TxSlot) -> bool {
        &&& s.pool_id < self.num_rx_queues
        &&& s.buf_index < self.rx_queues@[s.pool_id as int].pool.num_bufs
        &&& !self.rx_queues@[s.pool_id as int].pool.is_free(s.buf_index)
        &&& !self.rx_queues@[s.pool_id as int].bufs@.contains(s.buf_index)
    }

    /// No two in-flight slots, in any transmit queues, name the same buffer.
    pub open spec fn tx_slots_distinct(&self) -> bool {
        forall|t1: int, i1: int, t2: int, i2: int|
            #![trigger self.tx_slot(t1, i1), self.tx_slot(t2, i2)]
            self.tx_slot_in_range(t1, i1) && self.tx_slot_in_range(t2, i2)
                && !(t1 == t2 && i1 == i2)
                ==> !(self.tx_slot(t1, i1).pool_id == self.tx_slot(t2, i2).pool_id
                    && self.tx_slot(t1, i1).buf_index == self.tx_slot(t2, i2).buf_index)
    }

    /// The device invariant.
    pub open spec fn wf(&self) -> bool {
        &&& self.mmio.len_bytes() == MMIO_LEN
        &&& self.num_rx_queues <= MAX_QUEUES
        &&& self.num_tx_queues <= MAX_QUEUES
        &&& self.rx_queues@.len() == self.num_rx_queues
        &&& self.tx_queues@.len() == self.num_tx_queues
        &&& forall|q: int| 0 <= q < self.rx_queues@.len() ==> (#[trigger] self.rx_queues@[q]).wf()
        &&& forall|t: int| 0 <= t < self.tx_queues@.len() ==> (#[trigger] self.tx_queues@[t]).wf()
        &&& forall|t: int, i: int| self.tx_slot_in_range(t, i) ==> self.tx_slot_wf(#[trigger] self.tx_slot(t, i))
        &&& self.tx_slots_distinct()
    }

    /// A live packet the device has handed out: its buffer exists and no
    /// owner inside the device holds it, so the packet is its one owner.
    pub open spec fn packet_unowned(&self, p: Packet) -> bool {
        &&& p.pool_id < self.num_rx_queues
        &&& p.buf_index < self.rx_queues@[p.pool_id as int].pool.num_bufs
        &&& !self.rx_queues@[p.pool_id as int].pool.is_free(p.buf_index)
        &&& !self.rx_queues@[p.pool_id as int].bufs@.contains(p.buf_index)
        &&& forall|t: int, i: int|
                #![trigger self.tx_slot(t, i)]
                self.tx_slot_in_range(t, i)
                    ==> !(self.tx_slot(t, i).pool_id == p.pool_id
                        && self.tx_slot(t, i).buf_index == p.buf_index)
    }

    /// Name of this driver.
    pub fn driver_name(&self) -> (r: &'static str)
        ensures r@ == "ixy-ixgbe"@,
    {
        "ixy-ixgbe"
    }

    /// Read the register at byte offset `reg`.
    pub fn get_reg32(&self, reg: u32) -> (r: u32)
        requires self.mmio.in_bounds(reg),
        ensures r == self.mmio.reg_of(reg),
    {
        self.mmio.get_reg32(reg)
    }

    /// Write the register at byte offset `reg`.
    pub fn set_reg32(&mut self, reg: u32, value: u32)
        requires old(self).mmio.in_bounds(reg),
        ensures
            final(self).mmio@ == old(self).mmio@.update(reg as int / 4, value),
            same_queues(*old(self), *final(self)),
            old(self).wf() ==> final(self).wf(),
    {
        self.mmio.set_reg32(reg, value);
        proof {
            if old(self).wf() {
                lemma_wf_same_queues(*old(self), *self);
            }
        }
    }

    /// Set the bits of `flags` in the register at `reg`.
    pub fn set_flags32(&mut self, reg: u32, flags: u32)
        requires old(self).mmio.in_bounds(reg),
        ensures
            final(self).mmio@ == old(self).mmio@.update(reg as int / 4,
                old(self).mmio.reg_of(reg) | flags),
            same_queues(*old(self), *final(self)),
            old(self).wf() ==> final(self).wf(),
    {
        self.mmio.set_flags32(reg, flags);
        proof {
            if old(self).wf() {
                lemma_wf_same_queues(*old(self), *self);
            }
        }
    }

    /// Clear the bits of `flags` in the register at `reg`.
    pub fn clear_flags32(&mut self, reg: u32, flags: u32)
        requires old(self).mmio.in_bounds(reg),
        ensures
            final(self).mmio@ == old(self).mmio@.update(reg as int / 4,
                old(self).mmio.reg_of(reg) & !flags),
            same_queues(*old(self), *final(self)),
            old(self).wf() ==> final(self).wf(),
    {
        self.mmio.clear_flags32(reg, flags);
        proof {
            if old(self).wf() {
                lemma_wf_same_queues(*old(self), *self);
            }
        }
    }

    /// Wait until the device has set every bit of `mask` in `reg`; the model
    /// records the state in which the wait ends.
    pub fn wait_set_reg32(&mut self, reg: u32, mask: u32)
        requires old(self).mmio.in_bounds(reg),
        ensures
            final(self).mmio@ == old(self).mmio@.update(reg as int / 4,
                old(self).mmio.reg_of(reg) | mask),
            final(self).mmio.reg_of(reg) & mask == mask,
            same_queues(*old(self), *final(self)),
            old(self).wf() ==> final(self).wf(),
    {
        self.mmio.wait_set_reg32(reg, mask);
        proof {
            if old(self).wf() {
                lemma_wf_same_queues(*old(self), *self);
            }
        }
    }

    /// Wait until the device has cleared every bit of `mask` in `reg`; the
    /// model records the state in which the wait ends.
    pub fn wait_clear_reg32(&mut self, reg: u32, mask: u32)
        requires old(self).mmio.in_bounds(reg),
        ensures
            final(self).mmio@ == old(self).mmio@.update(reg as int / 4,
                old(self).mmio.reg_of(reg) & !mask),
            final(self).mmio.reg_of(reg) & mask == 0,
            same_queues(*old(self), *final(self)),
            old(self).wf() ==> final(self).wf(),
    {
        self.mmio.wait_clear_reg32(reg, mask);
        proof {
            if old(self).wf() {
                lemma_wf_same_queues(*old(self), *self);
            }
        }
    }

    /// Enable or disable promiscuous mode: both multicast and unicast
    /// promiscuous enable bits of the filter control register.
    pub fn set_promisc(&mut self, enabled: bool)
        requires old(self).mmio.len_bytes() == MMIO_LEN,
        ensures
            old(self).wf() ==> final(self).wf(),
            same_queues(*old(self), *final(self)),
            final(self).mmio@ == old(self).mmio@.update(IXGBE_FCTRL as int / 4,
                if enabled {
                    old(self).mmio.reg_of(IXGBE_FCTRL) | (IXGBE_FCTRL_MPE | IXGBE_FCTRL_UPE)
                } else {
                    old(self).mmio.reg_of(IXGBE_FCTRL) & !(IXGBE_FCTRL_MPE | IXGBE_FCTRL_UPE)
                }),
            !enabled ==> final(self).mmio.reg_of(IXGBE_FCTRL) & (IXGBE_FCTRL_MPE | IXGBE_FCTRL_UPE) == 0,
    {
        if enabled {
            self.set_flags32(IXGBE_FCTRL, IXGBE_FCTRL_MPE | IXGBE_FCTRL_UPE);
        } else {
            self.clear_flags32(IXGBE_FCTRL, IXGBE_FCTRL_MPE | IXGBE_FCTRL_UPE);
            proof {
                let v = old(self).mmio.reg_of(IXGBE_FCTRL);
                let m = IXGBE_FCTRL_MPE | IXGBE_FCTRL_UPE;
                assert((v & !m) & m == 0) by (bit_vector);
            }
        }
    }

    /// The negotiated link speed in megabit per second; zero while the link
    /// is down.
    pub fn get_link_speed(&self) -> (r: u16)
        requires self.mmio.len_bytes() == MMIO_LEN,
        ensures r == link_speed_of(self.mmio.reg_of(IXGBE_LINKS)),
    {
        crate::regs::decode_link_speed(self.get_reg32(IXGBE_LINKS))
    }

    /// Add the device's packet and byte counters to `stats`.  The counter
    /// registers clear on read, so the totals live in `stats`, the sums wrap
    /// at the counter width, and after the call the device's counters read
    /// zero.
    pub fn read_stats(&mut self, stats: &mut DeviceStats)
        requires old(self).mmio.len_bytes() == MMIO_LEN,
        ensures
            final(stats).rx_pkts == vstd::wrapping::u64_specs::wrapping_add(
                old(stats).rx_pkts, old(self).mmio.reg_of(IXGBE_GPRC) as u64),
            final(stats).tx_pkts == vstd::wrapping::u64_specs::wrapping_add(
                old(stats).tx_pkts, old(self).mmio.reg_of(IXGBE_GPTC) as u64),
            final(stats).rx_bytes == vstd::wrapping::u64_specs::wrapping_add(
                old(stats).rx_bytes, u64_of_halves(old(self).mmio.reg_of(IXGBE_GORCL),
                    old(self).mmio.reg_of(IXGBE_GORCH))),
            final(stats).tx_bytes == vstd::wrapping::u64_specs::wrapping_add(
                old(stats).tx_bytes, u64_of_halves(old(self).mmio.reg_of(IXGBE_GOTCL),
                    old(self).mmio.reg_of(IXGBE_GOTCH))),
            final(self).mmio@ == counters_cleared(old(self).mmio@),
            same_queues(*old(self), *final(self)),
            old(self).wf() ==> final(self).wf(),
    {
        let rx_pkts = self.read_counter32(IXGBE_GPRC) as u64;
        let tx_pkts = self.read_counter32(IXGBE_GPTC) as u64;
        let rx_bytes = combine_halves(self.read_counter32(IXGBE_GORCL),
            self.read_counter32(IXGBE_GORCH));
        let tx_bytes = combine_halves(self.read_counter32(IXGBE_GOTCL),
            self.read_counter32(IXGBE_GOTCH));
        stats.rx_pkts = stats.rx_pkts.wrapping_add(rx_pkts);
        stats.tx_pkts = stats.tx_pkts.wrapping_add(tx_pkts);
        stats.rx_bytes = stats.rx_bytes.wrapping_add(rx_bytes);
        stats.tx_bytes = stats.tx_bytes.wrapping_add(tx_bytes);
        proof {
            assert(self.mmio@ =~= counters_cleared(old(self).mmio@));
        }
    }

    /// Read all counter registers and discard the values; the clear-on-read
    /// zeroes the device's counters.
    pub fn reset_stats(&mut self)
        requires old(self).mmio.len_bytes() == MMIO_LEN,
        ensures
            final(self).mmio@ == counters_cleared(old(self).mmio@),
            same_queues(*old(self), *final(self)),
            old(self).wf() ==> final(self).wf(),
    {
        let _ = self.read_counter32(IXGBE_GPRC);
        let _ = self.read_counter32(IXGBE_GPTC);
        let _ = self.read_counter32(IXGBE_GORCL);
        let _ = self.read_counter32(IXGBE_GORCH);
        let _ = self.read_counter32(IXGBE_GOTCL);
        let _ = self.read_counter32(IXGBE_GOTCH);
        proof {
            assert(self.mmio@ =~= counters_cleared(old(self).mmio@));
        }
    }

    /// Read a clear-on-read counter register: the value comes back and the
    /// register drops to zero.
    fn read_counter32(&mut self, reg: u32) -> (r: u32)
        requires old(self).mmio.in_bounds(reg),
        ensures
            r == old(self).mmio.reg_of(reg),
            final(self).mmio@ == old(self).mmio@.update(reg as int / 4, 0u32),
            same_queues(*old(self), *final(self)),
            old(self).wf() ==> final(self).wf(),
    {
        let v = self.get_reg32(reg);
        self.set_reg32(reg, 0);
        v
    }

    /// Take back a live packet the device handed out, returning its buffer
    /// to the owning pool.  On hardware this is the packet's drop; here the
    /// exclusive ownership of the buffer moves back explicitly.
    pub fn return_packet(&mut self, pkt: Packet)
        requires
            old(self).wf(),
            old(self).packet_unowned(pkt),
        ensures
            final(self).wf(),
            final(self).mmio@ == old(self).mmio@,
            final(self).num_rx_queues == old(self).num_rx_queues,
            final(self).num_tx_queues == old(self).num_tx_queues,
            final(self).tx_queues == old(self).tx_queues,
            final(self).rx_queues@ == old(self).rx_queues@.update(pkt.pool_id as int,
                final(self).rx_queues@[pkt.pool_id as int]),
            ({
                let r0 = old(self).rx_queues@[pkt.pool_id as int];
                let r1 = final(self).rx_queues@[pkt.pool_id as int];
                &&& r1.pool.free_stack@ == r0.pool.free_stack@.push(pkt.buf_index)
                &&& r1.pool.num_bufs == r0.pool.num_bufs
                &&& r1.pool.buf_size == r0.pool.buf_size
                &&& r1.pool.region == r0.pool.region
                &&& r1.bufs == r0.bufs
                &&& r1.descriptors == r0.descriptors
                &&& r1.rx_index == r0.rx_index
                &&& r1.hw_index == r0.hw_index
                &&& r1.num_entries == r0.num_entries
                &&& r1.ring_phys == r0.ring_phys
            }),
    {
        let qi = pkt.pool_id as usize;
        let mut rxq = self.rx_queues.remove(qi);
        rxq.pool.free_buf(pkt.buf_index);
        self.rx_queues.insert(qi, rxq);
        proof {
            assert(self.rx_queues@ =~= old(self).rx_queues@.update(pkt.pool_id as int,
                self.rx_queues@[pkt.pool_id as int]));
            lemma_return_packet_wf(*old(self), *self, pkt);
        }
    }
}

/// The register window after the six counter registers cleared on read.
pub open spec fn counters_cleared(m: Seq<u32>) -> Seq<u32> {
    m.update(IXGBE_GPRC as int / 4, 0u32)
        .update(IXGBE_GPTC as int / 4, 0u32)
        .update(IXGBE_GORCL as int / 4, 0u32)
        .update(IXGBE_GORCH as int / 4, 0u32)
        .update(IXGBE_GOTCL as int / 4, 0u32)
        .update(IXGBE_GOTCH as int / 4, 0u32)
}

/// Returning an unowned packet's buffer to its pool keeps the device well
/// formed: the buffer joins the free stack, and nothing else held it.
proof fn lemma_return_packet_wf(a: IxgbeDevice, b: IxgbeDevice, pkt: Packet)
    requires
        a.wf(),
        a.packet_unowned(pkt),
        b.mmio.len_bytes() == MMIO_LEN,
        b.num_rx_queues == a.num_rx_queues,
        b.num_tx_queues == a.num_tx_queues,
        b.tx_queues == a.tx_queues,
        b.rx_queues@.len() == a.rx_queues@.len(),
        forall|q: int| 0 <= q < b.rx_queues@.len() && q != pkt.pool_id as int
            ==> #[trigger] b.rx_queues@[q] == a.rx_queues@[q],
        ({
            let r0 = a.rx_queues@[pkt.pool_id as int];
            let r1 = b.rx_queues@[pkt.pool_id as int];
            &&& r1.pool.wf()
            &&& r1.pool.free_stack@ == r0.pool.free_stack@.push(pkt.buf_index)
            &&& r1.pool.num_bufs == r0.pool.num_bufs
            &&& r1.bufs == r0.bufs
            &&& r1.descriptors == r0.descriptors
            &&& r1.rx_index == r0.rx_index
            &&& r1.hw_index == r0.hw_index
            &&& r1.num_entries == r0.num_entries
        }),
    ensures
        b.wf(),
{
    let pid = pkt.pool_id as int;
    let r0 = a.rx_queues@[pid];
    let r1 = b.rx_queues@[pid];
    assert(r0.wf());
    assert forall|q: int| 0 <= q < b.rx_queues@.len() implies (#[trigger] b.rx_queues@[q]).wf() by {
        if q == pid {
            assert forall|i: int| 0 <= i < r1.bufs@.len()
                implies !r1.pool.is_free(#[trigger] r1.bufs@[i]) by {
                if r1.pool.free_stack@.contains(r1.bufs@[i]) {
                    let k = choose|k: int| 0 <= k < r1.pool.free_stack@.len()
                        && r1.pool.free_stack@[k] == r1.bufs@[i];
                    if k < r0.pool.free_stack@.len() {
                        assert(r0.pool.is_free(r0.bufs@[i])) by {
                            assert(r0.pool.free_stack@[k] == r0.bufs@[i]);
                        }
                    } else {
                        assert(r0.bufs@.contains(pkt.buf_index)) by {
                            assert(r0.bufs@[i] == pkt.buf_index);
                        }
                    }
                }
            }
        } else {
            assert(b.rx_queues@[q] == a.rx_queues@[q]);
        }
    }
    assert forall|t: int| 0 <= t < b.tx_queues@.len() implies (#[trigger] b.tx_queues@[t]).wf() by {
        assert(b.tx_queues@[t] == a.tx_queues@[t]);
    }
    assert forall|t: int, i: int| b.tx_slot_in_range(t, i)
        implies b.tx_slot_wf(#[trigger] b.tx_slot(t, i)) by {
        assert(a.tx_slot_in_range(t, i));
        assert(b.tx_slot(t, i) == a.tx_slot(t, i));
        assert(a.tx_slot_wf(a.tx_slot(t, i)));
        let s = a.tx_slot(t, i);
        if s.pool_id as int == pid {
            assert(!(s.pool_id == pkt.pool_id && s.buf_index == pkt.buf_index));
            assert(!r1.pool.is_free(s.buf_index)) by {
                if r1.pool.free_stack@.contains(s.buf_index) {
                    let k = choose|k: int| 0 <= k < r1.pool.free_stack@.len()
                        && r1.pool.free_stack@[k] == s.buf_index;
                    if k < r0.pool.free_stack@.len() {
                        assert(r0.pool.is_free(s.buf_index)) by {
                            assert(r0.pool.free_stack@[k] == s.buf_index);
                        }
                    }
                }
            }
        } else {
            assert(b.rx_queues@[s.pool_id as int] == a.rx_queues@[s.pool_id as int]);
        }
    }
    assert forall|t1: int, i1: int, t2: int, i2: int|
        #![trigger b.tx_slot(t1, i1), b.tx_slot(t2, i2)]
        b.tx_slot_in_range(t1, i1) && b.tx_slot_in_range(t2, i2) && !(t1 == t2 && i1 == i2)
        implies !(b.tx_slot(t1, i1).pool_id == b.tx_slot(t2, i2).pool_id
            && b.tx_slot(t1, i1).buf_index == b.tx_slot(t2, i2).buf_index) by {
        assert(a.tx_slot_in_range(t1, i1));
        assert(a.tx_slot_in_range(t2, i2));
        assert(b.tx_slot(t1, i1) == a.tx_slot(t1, i1));
        assert(b.tx_slot(t2, i2) == a.tx_slot(t2, i2));
    }
}

/// Ownership of a buffer is exclusive: in a well-formed device, no buffer of
/// a pool is held by more than one of the pool's free stack, the pool's
/// receive ring, and the transmit in-flight queues.  A buffer held by none
/// of them is outside the device, named by exactly one live packet.
pub proof fn lemma_buffer_owner_unique(d: IxgbeDevice, q: int, b: u32)
    requires
        d.wf(),
        0 <= q < d.rx_queues@.len(),
        b < d.rx_queues@[q].pool.num_bufs,
    ensures
        ({
            let in_free = d.rx_queues@[q].pool.is_free(b);
            let in_ring = d.rx_queues@[q].bufs@.contains(b);
            let in_flight = exists|t: int, i: int| d.tx_slot_in_range(t, i)
                && (#[trigger] d.tx_slot(t, i)).pool_id == q && d.tx_slot(t, i).buf_index == b;
            &&& !(in_free && in_ring)
            &&& !(in_free && in_flight)
            &&& !(in_ring && in_flight)
        }),
{
    let queue = d.rx_queues@[q];
    assert(queue.wf());
    if queue.pool.is_free(b) && queue.bufs@.contains(b) {
        let i = choose|i: int| 0 <= i < queue.bufs@.len() && queue.bufs@[i] == b;
        assert(!queue.pool.is_free(queue.bufs@[i]));
    }
    if exists|t: int, i: int| d.tx_slot_in_range(t, i)
        && (#[trigger] d.tx_slot(t, i)).pool_id == q && d.tx_slot(t, i).buf_index == b {
        let (t, i) = choose|t: int, i: int| d.tx_slot_in_range(t, i)
            && (#[trigger] d.tx_slot(t, i)).pool_id == q && d.tx_slot(t, i).buf_index == b;
        assert(d.tx_slot_wf(d.tx_slot(t, i)));
    }
}

/// The 64-bit value split over a low and a high counter register.
pub open spec fn u64_of_halves(lo: u32, hi: u32) -> u64 {
    lo as u64 | ((hi as u64) << 32)
}

/// Combine a split 64-bit counter from its two registers.
pub fn combine_halves(lo: u32, hi: u32) -> (r: u64)
    ensures r == u64_of_halves(lo, hi),
{
    lo as u64 | ((hi as u64) << 32)
}

} // verus!

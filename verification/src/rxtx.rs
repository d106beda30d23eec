//! The data path: batched receive and transmit over the shared descriptor
//! rings, and the device's side of those rings.
//!
//! On hardware the device writes completed descriptors back by DMA; the
//! model exposes that as the `device_receive` and `device_transmit`
//! operations, so the driver's half is verified against an explicit producer.

use vstd::prelude::*;
use crate::ring::{wrap_ring, wrap_spec, ring_distance, is_pow2};
use crate::regs::{IXGBE_RXDADV_STAT_DD, IXGBE_RXDADV_STAT_EOP, IXGBE_ADVTXD_STAT_DD,
    TX_CLEAN_BATCH, ixgbe_rdt, ixgbe_tdt, MMIO_LEN};
use crate::desc::{Descriptor, rx_dd, rx_eop, rx_wb_len, rx_writeback_desc, rx_read_desc,
    tx_dd, tx_read_desc, make_rx_read_desc, make_tx_read_desc};
use crate::device::{IxgbeDevice, RxQueue, TxQueue, TxSlot};
use crate::pkt::{Packet, IxgbeError};

verus! {

impl IxgbeDevice {
    /// The device's half of a receive ring: deliver one frame of `len` bytes
    /// into the next armed slot, overwriting the descriptor with its
    /// write-back.  Returns false, changing nothing, when that slot is still
    /// completed and unreclaimed, which is the ring full from the device's
    /// view.
    pub fn device_receive(&mut self, queue_id: u32, len: u16, eop: bool) -> (r: bool)
        requires
            old(self).wf(),
            queue_id < old(self).num_rx_queues,
        ensures
            final(self).wf(),
            final(self).mmio@ == old(self).mmio@,
            final(self).num_rx_queues == old(self).num_rx_queues,
            final(self).num_tx_queues == old(self).num_tx_queues,
            final(self).tx_queues == old(self).tx_queues,
            !r ==> *final(self) == *old(self),
            r == !rx_dd(old(self).rx_queues@[queue_id as int].descriptors@[
                old(self).rx_queues@[queue_id as int].hw_index as int]),
            r ==> {
                let q0 = old(self).rx_queues@[queue_id as int];
                let q1 = final(self).rx_queues@[queue_id as int];
                &&& final(self).rx_queues@ == old(self).rx_queues@.update(queue_id as int, q1)
                &&& q1.descriptors@ == q0.descriptors@.update(q0.hw_index as int,
                        rx_writeback_desc(len, eop))
                &&& q1.hw_index == wrap_spec(q0.hw_index as int, q0.num_entries as int)
                &&& q1.bufs == q0.bufs
                &&& q1.pool == q0.pool
                &&& q1.rx_index == q0.rx_index
                &&& q1.num_entries == q0.num_entries
                &&& q1.ring_phys == q0.ring_phys
            },
    {
        let qi = queue_id as usize;
        let hw = self.rx_queues[qi].hw_index;
        let d = self.rx_queues[qi].descriptors[hw as usize];
        if d.w2 & IXGBE_RXDADV_STAT_DD != 0 {
            return false;
        }
        let mut queue = self.rx_queues.remove(qi);
        let wb = Descriptor {
            w0: 0,
            w1: 0,
            w2: if eop { IXGBE_RXDADV_STAT_DD | IXGBE_RXDADV_STAT_EOP } else { IXGBE_RXDADV_STAT_DD },
            w3: len as u32,
        };
        queue.descriptors.set(hw as usize, wb);
        queue.hw_index = wrap_ring(hw, queue.num_entries);
        self.rx_queues.insert(qi, queue);
        proof {
            assert(self.rx_queues@ =~= old(self).rx_queues@.update(queue_id as int,
                self.rx_queues@[queue_id as int]));
            lemma_device_update_rx_wf(*old(self), *self, queue_id as int);
        }
        true
    }

    /// The device's half of a transmit ring: send the next pending
    /// descriptor and mark it done.  Returns false, changing nothing, when
    /// it has caught up with the driver's tail.
    pub fn device_transmit(&mut self, queue_id: u32) -> (r: bool)
        requires
            old(self).wf(),
            queue_id < old(self).num_tx_queues,
        ensures
            final(self).wf(),
            final(self).mmio@ == old(self).mmio@,
            final(self).num_rx_queues == old(self).num_rx_queues,
            final(self).num_tx_queues == old(self).num_tx_queues,
            final(self).rx_queues == old(self).rx_queues,
            !r ==> *final(self) == *old(self),
            r == (old(self).tx_queues@[queue_id as int].hw_index
                != old(self).tx_queues@[queue_id as int].tx_index),
            r ==> {
                let q0 = old(self).tx_queues@[queue_id as int];
                let q1 = final(self).tx_queues@[queue_id as int];
                &&& final(self).tx_queues@ == old(self).tx_queues@.update(queue_id as int, q1)
                &&& q1.descriptors@ == q0.descriptors@.update(q0.hw_index as int,
                        dd_marked(q0.descriptors@[q0.hw_index as int]))
                &&& q1.hw_index == wrap_spec(q0.hw_index as int, q0.num_entries as int)
                &&& q1.inflight == q0.inflight
                &&& q1.clean_index == q0.clean_index
                &&& q1.tx_index == q0.tx_index
                &&& q1.num_entries == q0.num_entries
                &&& q1.ring_phys == q0.ring_phys
            },
    {
        let qi = queue_id as usize;
        let hw = self.tx_queues[qi].hw_index;
        if hw == self.tx_queues[qi].tx_index {
            return false;
        }
        let mut queue = self.tx_queues.remove(qi);
        let d = queue.descriptors[hw as usize];
        let marked = Descriptor { w0: d.w0, w1: d.w1, w2: d.w2, w3: d.w3 | IXGBE_ADVTXD_STAT_DD };
        queue.descriptors.set(hw as usize, marked);
        queue.hw_index = wrap_ring(hw, queue.num_entries);
        self.tx_queues.insert(qi, queue);
        proof {
            assert(self.tx_queues@ =~= old(self).tx_queues@.update(queue_id as int,
                self.tx_queues@[queue_id as int]));
            lemma_device_update_tx_desc_wf(*old(self), *self, queue_id as int);
        }
        true
    }
}

/// The ring position `j` slots after the software head of `q`.
pub open spec fn rx_slot_at(q: RxQueue, j: int) -> int {
    (q.rx_index + j) % (q.num_entries as int)
}

/// Where a receive scan from position `i` stops, at most at `max`: the
/// first position that would wrap a full turn, whose descriptor is not done,
/// or whose refill the pool cannot cover.
pub open spec fn rx_stop(q: RxQueue, i: int, max: int) -> int
    decreases max - i,
{
    if i >= max || i >= q.num_entries || i >= q.pool.free_stack@.len()
        || !rx_dd(q.descriptors@[rx_slot_at(q, i)]) {
        i
    } else {
        rx_stop(q, i + 1, max)
    }
}

/// The scan never stops before where it starts.
pub proof fn lemma_rx_stop_ge(q: RxQueue, i: int, max: int)
    ensures
        rx_stop(q, i, max) >= i,
    decreases max - i,
{
    if !(i >= max || i >= q.num_entries || i >= q.pool.free_stack@.len()
        || !rx_dd(q.descriptors@[rx_slot_at(q, i)])) {
        lemma_rx_stop_ge(q, i + 1, max);
    }
}

/// The run of completed descriptors from position `i` after the head of
/// `q`: the first position whose descriptor is not done, capped at one full
/// turn of the ring.
pub open spec fn dd_run(q: RxQueue, i: int) -> int
    decreases q.num_entries - i,
{
    if i < 0 || i >= q.num_entries || !rx_dd(q.descriptors@[rx_slot_at(q, i)]) {
        i
    } else {
        dd_run(q, i + 1)
    }
}

/// The run never ends before where it starts.
pub proof fn lemma_dd_run_ge(q: RxQueue, i: int)
    ensures
        dd_run(q, i) >= i,
    decreases q.num_entries - i,
{
    if !(i < 0 || i >= q.num_entries || !rx_dd(q.descriptors@[rx_slot_at(q, i)])) {
        lemma_dd_run_ge(q, i + 1);
    }
}

/// The receive scan consumes exactly the smallest of the batch limit, the
/// pool's free buffers, and the run of completed descriptors: no completed
/// packet within those limits is lost and none is taken twice.
pub proof fn lemma_rx_stop_is_min(q: RxQueue, i: int, max: int)
    requires
        0 <= i <= max,
        i <= q.pool.free_stack@.len(),
    ensures
        rx_stop(q, i, max) == vstd::math::min(max,
            vstd::math::min(q.pool.free_stack@.len() as int, dd_run(q, i))),
    decreases max - i,
{
    lemma_dd_run_ge(q, i);
    if i >= max || i >= q.num_entries || i >= q.pool.free_stack@.len()
        || !rx_dd(q.descriptors@[rx_slot_at(q, i)]) {
        assert(rx_stop(q, i, max) == i);
        if i < max && i < q.pool.free_stack@.len() {
            assert(dd_run(q, i) == i);
        }
    } else {
        lemma_rx_stop_is_min(q, i + 1, max);
        assert(dd_run(q, i) == dd_run(q, i + 1));
    }
}

impl IxgbeDevice {
    /// Poll receive queue `queue_id` for up to `num_bufs` completed packets.
    ///
    /// Every completed descriptor from the head on yields exactly one
    /// packet, its slot is re-armed with a fresh buffer from the pool, and
    /// the ring's tail register is moved to the last consumed slot; an idle
    /// ring yields nothing and leaves every register untouched.  A completed
    /// descriptor without its end-of-packet bit is a fatal protocol
    /// violation and changes nothing.
    pub fn rx_batch(&mut self, queue_id: u32, num_bufs: u32) -> (r: Result<Vec<Packet>, IxgbeError>)
        requires
            old(self).wf(),
            queue_id < old(self).num_rx_queues,
        ensures
            final(self).num_rx_queues == old(self).num_rx_queues,
            final(self).num_tx_queues == old(self).num_tx_queues,
            final(self).tx_queues == old(self).tx_queues,
            match r {
                Ok(pkts) => ({
                    let q0 = old(self).rx_queues@[queue_id as int];
                    let q1 = final(self).rx_queues@[queue_id as int];
                    let n = rx_stop(q0, 0, num_bufs as int);
                    &&& final(self).wf()
                    &&& final(self).rx_queues@ == old(self).rx_queues@.update(queue_id as int, q1)
                    &&& pkts@.len() == n
                    &&& n == vstd::math::min(num_bufs as int,
                            vstd::math::min(q0.pool.free_stack@.len() as int, dd_run(q0, 0)))
                    &&& n <= num_bufs
                    &&& q1.rx_index == (q0.rx_index + n) % (q0.num_entries as int)
                    &&& q1.num_entries == q0.num_entries
                    &&& q1.hw_index == q0.hw_index
                    &&& q1.ring_phys == q0.ring_phys
                    &&& q1.pool.num_bufs == q0.pool.num_bufs
                    &&& q1.pool.buf_size == q0.pool.buf_size
                    &&& q1.pool.region == q0.pool.region
                    &&& q1.pool.free_stack@ == q0.pool.free_stack@.take(
                            q0.pool.free_stack@.len() - n)
                    &&& forall|j: int| 0 <= j < n ==> ({
                            let s = rx_slot_at(q0, j);
                            &&& (#[trigger] pkts@[j]).pool_id == queue_id
                            &&& pkts@[j].buf_index == q0.bufs@[s]
                            &&& pkts@[j].len == rx_wb_len(q0.descriptors@[s])
                            &&& pkts@[j].addr == q0.pool.region.virt
                                + q0.bufs@[s] as int * q0.pool.buf_size as int
                            &&& rx_dd(q0.descriptors@[s]) && rx_eop(q0.descriptors@[s])
                            &&& q1.bufs@[s] == q0.pool.free_stack@[
                                    q0.pool.free_stack@.len() - 1 - j]
                            &&& !rx_dd(q1.descriptors@[s])
                        })
                    &&& forall|s: int|
                            #![trigger q1.descriptors@[s]]
                            #![trigger q1.bufs@[s]]
                            0 <= s < q0.num_entries
                            && ring_distance(q0.rx_index as int, s, q0.num_entries as int) >= n
                            ==> q1.descriptors@[s] == q0.descriptors@[s]
                                && q1.bufs@[s] == q0.bufs@[s]
                    &&& forall|j: int| 0 <= j < n
                            ==> final(self).packet_unowned(#[trigger] pkts@[j])
                    &&& forall|j: int, k: int| 0 <= j < k < n
                            ==> !(pkts@[j].pool_id == pkts@[k].pool_id
                                && pkts@[j].buf_index == pkts@[k].buf_index)
                    &&& n > 0 ==> final(self).mmio@ == old(self).mmio@.update(
                            (0x01018 + 0x40 * queue_id as int) / 4,
                            ((q0.rx_index + n - 1) % (q0.num_entries as int)) as u32)
                    &&& n == 0 ==> final(self).mmio@ == old(self).mmio@
                }),
                Err(e) => ({
                    let q0 = old(self).rx_queues@[queue_id as int];
                    &&& e == IxgbeError::MultiSegmentPacket
                    &&& *final(self) == *old(self)
                    &&& exists|j: int|
                            #![trigger rx_slot_at(q0, j)]
                            0 <= j < rx_stop(q0, 0, num_bufs as int)
                            && !rx_eop(q0.descriptors@[rx_slot_at(q0, j)])
                }),
            },
    {
        let qi = queue_id as usize;
        let ghost q0 = self.rx_queues@[queue_id as int];
        let num = self.rx_queues[qi].num_entries;
        let rx0 = self.rx_queues[qi].rx_index;
        let free_avail = self.rx_queues[qi].pool.free_count();

        // First pass, read-only: find where the scan stops, and fail before
        // touching anything if a completed descriptor lacks its
        // end-of-packet bit.
        proof {
            assert(old(self).rx_queues@[queue_id as int].wf());
            vstd::arithmetic::div_mod::lemma_small_mod(rx0 as nat, num as nat);
        }
        let mut n: u32 = 0;
        let mut cur: u32 = rx0;
        loop
            invariant
                *self == *old(self),
                old(self).wf(),
                queue_id < old(self).num_rx_queues,
                qi == queue_id as usize,
                q0 == old(self).rx_queues@[queue_id as int],
                num == q0.num_entries,
                rx0 == q0.rx_index,
                free_avail == q0.pool.free_stack@.len(),
                n <= num_bufs,
                n <= num,
                n as usize <= free_avail,
                cur == rx_slot_at(q0, n as int),
                cur < num,
                rx_stop(q0, 0, num_bufs as int) == rx_stop(q0, n as int, num_bufs as int),
                forall|j: int|
                    #![trigger rx_slot_at(q0, j)]
                    0 <= j < n ==> rx_dd(q0.descriptors@[rx_slot_at(q0, j)])
                        && rx_eop(q0.descriptors@[rx_slot_at(q0, j)]),
            ensures
                n <= num_bufs,
                n <= num,
                n as usize <= free_avail,
                rx_stop(q0, 0, num_bufs as int) == n as int,
                forall|j: int|
                    #![trigger rx_slot_at(q0, j)]
                    0 <= j < n ==> rx_dd(q0.descriptors@[rx_slot_at(q0, j)])
                        && rx_eop(q0.descriptors@[rx_slot_at(q0, j)]),
            decreases num_bufs - n,
        {
            if n == num_bufs || n == num || n as usize == free_avail {
                proof {
                    assert(rx_stop(q0, n as int, num_bufs as int) == n as int);
                }
                break;
            }
            let d = self.rx_queues[qi].descriptors[cur as usize];
            proof {
                assert(d == q0.descriptors@[rx_slot_at(q0, n as int)]);
            }
            if d.w2 & IXGBE_RXDADV_STAT_DD == 0 {
                proof {
                    assert(!rx_dd(q0.descriptors@[rx_slot_at(q0, n as int)]));
                    assert(rx_stop(q0, n as int, num_bufs as int) == n as int);
                }
                break;
            }
            if d.w2 & IXGBE_RXDADV_STAT_EOP == 0 {
                proof {
                    assert(rx_dd(q0.descriptors@[rx_slot_at(q0, n as int)]));
                    assert(!rx_eop(q0.descriptors@[rx_slot_at(q0, n as int)]));
                    assert(rx_stop(q0, n as int, num_bufs as int)
                        == rx_stop(q0, n as int + 1, num_bufs as int));
                    lemma_rx_stop_ge(q0, n as int + 1, num_bufs as int);
                    let j = n as int;
                    assert(0 <= j < rx_stop(q0, 0, num_bufs as int)
                        && !rx_eop(q0.descriptors@[rx_slot_at(q0, j)]));
                }
                return Err(IxgbeError::MultiSegmentPacket);
            }
            proof {
                assert(rx_dd(q0.descriptors@[rx_slot_at(q0, n as int)]));
                assert(rx_stop(q0, n as int, num_bufs as int)
                    == rx_stop(q0, n as int + 1, num_bufs as int));
                crate::ring::lemma_wrap_next(rx0 as int, n as int, num as int);
            }
            cur = wrap_ring(cur, num);
            n = n + 1;
        }
        proof {
            assert(rx_stop(q0, 0, num_bufs as int) == n as int);
            lemma_rx_stop_is_min(q0, 0, num_bufs as int);
        }

        // Second pass: consume exactly those `n` slots.
        let mut queue = self.rx_queues.remove(qi);
        let mut packets: Vec<Packet> = Vec::new();
        let ghost free0 = q0.pool.free_stack@;
        proof {
            vstd::arithmetic::div_mod::lemma_small_mod(rx0 as nat, num as nat);
        }
        let mut i: u32 = 0;
        let mut cur: u32 = rx0;
        let mut last: u32 = rx0;
        while i < n
            invariant
                old(self).wf(),
                queue_id < old(self).num_rx_queues,
                qi == queue_id as usize,
                q0 == old(self).rx_queues@[queue_id as int],
                q0.wf(),
                num == q0.num_entries,
                rx0 == q0.rx_index,
                free0 == q0.pool.free_stack@,
                n <= num,
                n as int <= free0.len(),
                forall|j: int|
                    #![trigger rx_slot_at(q0, j)]
                    0 <= j < n ==> rx_dd(q0.descriptors@[rx_slot_at(q0, j)])
                        && rx_eop(q0.descriptors@[rx_slot_at(q0, j)]),
                i <= n,
                cur == rx_slot_at(q0, i as int),
                cur < num,
                i > 0 ==> last == rx_slot_at(q0, i as int - 1),
                self.rx_queues@ == old(self).rx_queues@.remove(queue_id as int),
                self.tx_queues == old(self).tx_queues,
                self.num_rx_queues == old(self).num_rx_queues,
                self.num_tx_queues == old(self).num_tx_queues,
                self.mmio == old(self).mmio,
                queue.num_entries == q0.num_entries,
                queue.rx_index == q0.rx_index,
                queue.hw_index == q0.hw_index,
                queue.ring_phys == q0.ring_phys,
                queue.descriptors@.len() == num,
                queue.bufs@.len() == num,
                queue.pool.wf(),
                queue.pool.num_bufs == q0.pool.num_bufs,
                queue.pool.buf_size == q0.pool.buf_size,
                queue.pool.region == q0.pool.region,
                queue.pool.free_stack@ == free0.take(free0.len() - i),
                packets@.len() == i,
                forall|j: int| 0 <= j < i ==> ({
                    let s = rx_slot_at(q0, j);
                    &&& (#[trigger] packets@[j]).pool_id == queue_id
                    &&& packets@[j].buf_index == q0.bufs@[s]
                    &&& packets@[j].len == rx_wb_len(q0.descriptors@[s])
                    &&& packets@[j].addr == q0.pool.region.virt
                        + q0.bufs@[s] as int * q0.pool.buf_size as int
                    &&& queue.bufs@[s] == free0[free0.len() - 1 - j]
                    &&& !rx_dd(queue.descriptors@[s])
                }),
                forall|s: int|
                    #![trigger queue.descriptors@[s]]
                    #![trigger queue.bufs@[s]]
                    0 <= s < num && ring_distance(rx0 as int, s, num as int) >= i
                        ==> queue.descriptors@[s] == q0.descriptors@[s]
                            && queue.bufs@[s] == q0.bufs@[s],
                forall|s: int| 0 <= s < queue.bufs@.len()
                    ==> #[trigger] queue.bufs@[s] < queue.pool.num_bufs,
                forall|s: int, t: int| 0 <= s < t < queue.bufs@.len()
                    ==> queue.bufs@[s] != queue.bufs@[t],
                forall|s: int| 0 <= s < queue.bufs@.len()
                    ==> !queue.pool.is_free(#[trigger] queue.bufs@[s]),
            decreases n - i,
        {
            let ghost qpre = queue;
            proof {
                crate::ring::lemma_ring_distance_small(rx0 as int, i as int, num as int);
            }
            let d = queue.descriptors[cur as usize];
            proof {
                assert(queue.descriptors@[cur as int] == q0.descriptors@[cur as int]);
            }
            proof {
                let w: u32 = d.w3;
                assert(w & 0xFFFF <= 0xFFFF) by (bit_vector);
            }
            let len = (d.w3 & 0xFFFF) as u16;
            let old_buf = queue.bufs[cur as usize];
            let addr = queue.pool.virt_of(old_buf);
            packets.push(Packet { addr, len, pool_id: queue_id, buf_index: old_buf });
            let ghost pre_free = queue.pool.free_stack@;
            let new_buf = match queue.pool.alloc_buf() {
                Some(b) => b,
                None => {
                    proof { assert(false); }
                    return Err(IxgbeError::DmaExhausted);
                },
            };
            let phys = queue.pool.phys_of(new_buf);
            let fresh = make_rx_read_desc(phys);
            queue.descriptors.set(cur as usize, fresh);
            queue.bufs.set(cur as usize, new_buf);
            last = cur;
            proof {
                crate::ring::lemma_wrap_next(rx0 as int, i as int, num as int);
                assert(pre_free == free0.take(free0.len() - i));
                assert(new_buf == free0[free0.len() - 1 - i]);
                assert(queue.pool.free_stack@ =~= free0.take(free0.len() - (i + 1)));
            }
            cur = wrap_ring(cur, num);
            i = i + 1;
            proof {
                assert forall|s: int|
                    #![trigger queue.descriptors@[s]]
                    #![trigger queue.bufs@[s]]
                    0 <= s < num && ring_distance(rx0 as int, s, num as int) >= i
                    implies queue.descriptors@[s] == q0.descriptors@[s]
                        && queue.bufs@[s] == q0.bufs@[s] by {
                    assert(s != last as int) by {
                        crate::ring::lemma_ring_distance_small(rx0 as int, i as int - 1, num as int);
                    }
                    assert(queue.descriptors@[s] == qpre.descriptors@[s]);
                    assert(queue.bufs@[s] == qpre.bufs@[s]);
                    assert(qpre.descriptors@[s] == q0.descriptors@[s]
                        && qpre.bufs@[s] == q0.bufs@[s]);
                }
                assert forall|j: int| 0 <= j < i implies ({
                    let s = rx_slot_at(q0, j);
                    &&& (#[trigger] packets@[j]).pool_id == queue_id
                    &&& packets@[j].buf_index == q0.bufs@[s]
                    &&& packets@[j].len == rx_wb_len(q0.descriptors@[s])
                    &&& packets@[j].addr == q0.pool.region.virt
                        + q0.bufs@[s] as int * q0.pool.buf_size as int
                    &&& queue.bufs@[s] == free0[free0.len() - 1 - j]
                    &&& !rx_dd(queue.descriptors@[s])
                }) by {
                    if j < i - 1 {
                        let s = rx_slot_at(q0, j);
                        crate::ring::lemma_ring_distance_small(rx0 as int, j, num as int);
                        crate::ring::lemma_ring_distance_small(rx0 as int, i as int - 1, num as int);
                        assert(s != last as int);
                        assert(queue.descriptors@[s] == qpre.descriptors@[s]);
                        assert(queue.bufs@[s] == qpre.bufs@[s]);
                    }
                }
                let nf = queue.pool.free_stack@;
                assert forall|s: int| 0 <= s < queue.bufs@.len()
                    implies !queue.pool.is_free(#[trigger] queue.bufs@[s]) by {
                    if nf.contains(queue.bufs@[s]) {
                        let k = choose|k: int| 0 <= k < nf.len() && nf[k] == queue.bufs@[s];
                        assert(nf[k] == pre_free[k]);
                        if s == last as int {
                            assert(pre_free[pre_free.len() - 1] == new_buf);
                        } else {
                            assert(pre_free.contains(queue.bufs@[s]));
                        }
                    }
                }
                assert forall|s: int, t: int| 0 <= s < t < queue.bufs@.len()
                    implies queue.bufs@[s] != queue.bufs@[t] by {
                    if t == last as int && s != last as int {
                        assert(pre_free.contains(new_buf));
                    } else if s == last as int {
                        assert(pre_free.contains(new_buf));
                    }
                }
            }
        }

        queue.rx_index = cur;
        proof {
            assert(queue.wf());
        }
        self.rx_queues.insert(qi, queue);
        proof {
            assert(self.rx_queues@ =~= old(self).rx_queues@.update(queue_id as int,
                self.rx_queues@[queue_id as int]));
            let q1 = self.rx_queues@[queue_id as int];
            assert forall|x: u32| #[trigger] q1.pool.is_free(x)
                implies q0.pool.is_free(x) by {
                if q1.pool.free_stack@.contains(x) {
                    let k = choose|k: int| 0 <= k < q1.pool.free_stack@.len()
                        && q1.pool.free_stack@[k] == x;
                    assert(free0[k] == x);
                }
            }
            assert forall|p: int| 0 <= p < q1.bufs@.len()
                implies q0.bufs@.contains(#[trigger] q1.bufs@[p])
                    || q0.pool.is_free(q1.bufs@[p]) by {
                let dp = ring_distance(rx0 as int, p, num as int);
                vstd::arithmetic::div_mod::lemma_mod_bound(p - rx0, num as int);
                if dp >= n {
                    assert(q1.bufs@[p] == q0.bufs@[p]);
                    assert(q0.bufs@.contains(q0.bufs@[p]));
                } else {
                    crate::ring::lemma_slot_of_distance(rx0 as int, p, num as int);
                    assert(p == rx_slot_at(q0, dp));
                    assert(packets@[dp].pool_id == queue_id);
                    assert(q1.bufs@[p] == free0[free0.len() - 1 - dp]);
                    assert(q0.pool.free_stack@.contains(q1.bufs@[p]));
                }
            }
            lemma_device_update_rx_batch_wf(*old(self), *self, queue_id as int);
        }

        if n > 0 {
            let rdt = ixgbe_rdt(queue_id);
            proof {
                assert(self.mmio.in_bounds(rdt));
            }
            self.set_reg32(rdt, last);
        }

        proof {
            let q1 = self.rx_queues@[queue_id as int];
            assert forall|j: int| 0 <= j < n
                implies self.packet_unowned(#[trigger] packets@[j]) by {
                let sj = rx_slot_at(q0, j);
                crate::ring::lemma_ring_distance_small(rx0 as int, j, num as int);
                assert(q0.bufs@.contains(packets@[j].buf_index)) by {
                    assert(q0.bufs@[sj] == packets@[j].buf_index);
                }
                assert(!q1.bufs@.contains(packets@[j].buf_index)) by {
                    if q1.bufs@.contains(packets@[j].buf_index) {
                        let p = choose|p: int| 0 <= p < q1.bufs@.len()
                            && q1.bufs@[p] == packets@[j].buf_index;
                        let dp = ring_distance(rx0 as int, p, num as int);
                        vstd::arithmetic::div_mod::lemma_mod_bound(p - rx0, num as int);
                        if dp >= n {
                            assert(q1.bufs@[p] == q0.bufs@[p]);
                            assert(p != sj);
                        } else {
                            crate::ring::lemma_slot_of_distance(rx0 as int, p, num as int);
                            assert(p == rx_slot_at(q0, dp));
                            assert(packets@[dp].pool_id == queue_id);
                            assert(q1.bufs@[p] == free0[free0.len() - 1 - dp]);
                            assert(q0.pool.is_free(q1.bufs@[p]));
                            assert(!q0.pool.is_free(q0.bufs@[sj]));
                        }
                    }
                }
                assert forall|x: u32| #[trigger] q1.pool.is_free(x)
                    implies q0.pool.is_free(x) by {
                    if q1.pool.free_stack@.contains(x) {
                        let k = choose|k: int| 0 <= k < q1.pool.free_stack@.len()
                            && q1.pool.free_stack@[k] == x;
                        assert(free0[k] == x);
                    }
                }
                lemma_rx_batch_packet_unowned(*old(self), *self, queue_id as int,
                    packets@[j]);
            }
            assert forall|j: int, k: int| 0 <= j < k < n
                implies !(packets@[j].pool_id == packets@[k].pool_id
                    && packets@[j].buf_index == packets@[k].buf_index) by {
                crate::ring::lemma_ring_distance_small(rx0 as int, j, num as int);
                crate::ring::lemma_ring_distance_small(rx0 as int, k, num as int);
                assert(rx_slot_at(q0, j) != rx_slot_at(q0, k));
            }
        }
        Ok(packets)
    }
}

/// After a receive batch the device is still well formed: the queue is well
/// formed again, its free stack only shrank, and every ring slot holds a
/// buffer that the old ring or the old free stack held.
pub proof fn lemma_device_update_rx_batch_wf(a: IxgbeDevice, b: IxgbeDevice, qid: int)
    requires
        a.wf(),
        b.mmio.len_bytes() == MMIO_LEN,
        b.num_rx_queues == a.num_rx_queues,
        b.num_tx_queues == a.num_tx_queues,
        b.tx_queues == a.tx_queues,
        0 <= qid < a.rx_queues@.len(),
        b.rx_queues@ == a.rx_queues@.update(qid, b.rx_queues@[qid]),
        b.rx_queues@[qid].wf(),
        b.rx_queues@[qid].pool.num_bufs == a.rx_queues@[qid].pool.num_bufs,
        forall|x: u32| #[trigger] b.rx_queues@[qid].pool.is_free(x)
            ==> a.rx_queues@[qid].pool.is_free(x),
        forall|p: int| 0 <= p < b.rx_queues@[qid].bufs@.len()
            ==> a.rx_queues@[qid].bufs@.contains(#[trigger] b.rx_queues@[qid].bufs@[p])
                || a.rx_queues@[qid].pool.is_free(b.rx_queues@[qid].bufs@[p]),
    ensures
        b.wf(),
{
    let qa = a.rx_queues@[qid];
    let qb = b.rx_queues@[qid];
    assert forall|q: int| 0 <= q < b.rx_queues@.len() implies (#[trigger] b.rx_queues@[q]).wf() by {
        if q != qid {
            assert(b.rx_queues@[q] == a.rx_queues@[q]);
        }
    }
    assert forall|t: int| 0 <= t < b.tx_queues@.len() implies (#[trigger] b.tx_queues@[t]).wf() by {
        assert(b.tx_queues@[t] == a.tx_queues@[t]);
    }
    assert forall|t: int, i: int| b.tx_slot_in_range(t, i)
        implies b.tx_slot_wf(#[trigger] b.tx_slot(t, i)) by {
        assert(a.tx_slot_in_range(t, i));
        assert(b.tx_slot(t, i) == a.tx_slot(t, i));
        assert(a.tx_slot_wf(a.tx_slot(t, i)));
        let s = a.tx_slot(t, i);
        if s.pool_id == qid {
            assert(!qb.pool.is_free(s.buf_index));
            assert(!qb.bufs@.contains(s.buf_index)) by {
                if qb.bufs@.contains(s.buf_index) {
                    let p = choose|p: int| 0 <= p < qb.bufs@.len() && qb.bufs@[p] == s.buf_index;
                    assert(qa.bufs@.contains(qb.bufs@[p]) || qa.pool.is_free(qb.bufs@[p]));
                }
            }
        } else {
            assert(b.rx_queues@[s.pool_id as int] == a.rx_queues@[s.pool_id as int]);
        }
    }
    assert forall|t1: int, i1: int, t2: int, i2: int|
        #![trigger b.tx_slot(t1, i1), b.tx_slot(t2, i2)]
        b.tx_slot_in_range(t1, i1) && b.tx_slot_in_range(t2, i2) && !(t1 == t2 && i1 == i2)
        implies !(b.tx_slot(t1, i1).pool_id == b.tx_slot(t2, i2).pool_id
            && b.tx_slot(t1, i1).buf_index == b.tx_slot(t2, i2).buf_index) by {
        assert(a.tx_slot_in_range(t1, i1));
        assert(a.tx_slot_in_range(t2, i2));
        assert(b.tx_slot(t1, i1) == a.tx_slot(t1, i1));
        assert(b.tx_slot(t2, i2) == a.tx_slot(t2, i2));
    }
}

/// A packet whose buffer left the receive ring during a batch has no owner
/// inside the device any more.
pub proof fn lemma_rx_batch_packet_unowned(a: IxgbeDevice, b: IxgbeDevice, qid: int, pkt: Packet)
    requires
        a.wf(),
        b.num_rx_queues == a.num_rx_queues,
        b.tx_queues == a.tx_queues,
        0 <= qid < a.rx_queues@.len(),
        b.rx_queues@.len() == a.rx_queues@.len(),
        pkt.pool_id == qid,
        pkt.buf_index < a.rx_queues@[qid].pool.num_bufs,
        a.rx_queues@[qid].bufs@.contains(pkt.buf_index),
        !b.rx_queues@[qid].bufs@.contains(pkt.buf_index),
        forall|x: u32| #[trigger] b.rx_queues@[qid].pool.is_free(x)
            ==> a.rx_queues@[qid].pool.is_free(x),
        b.rx_queues@[qid].pool.num_bufs == a.rx_queues@[qid].pool.num_bufs,
    ensures
        b.packet_unowned(pkt),
{
    let qa = a.rx_queues@[qid];
    assert(qa.wf());
    assert(!b.rx_queues@[qid].pool.is_free(pkt.buf_index)) by {
        if b.rx_queues@[qid].pool.is_free(pkt.buf_index) {
            assert(qa.pool.is_free(pkt.buf_index));
            let p = choose|p: int| 0 <= p < qa.bufs@.len() && qa.bufs@[p] == pkt.buf_index;
            assert(!qa.pool.is_free(qa.bufs@[p]));
        }
    }
    assert forall|t: int, i: int|
        #![trigger b.tx_slot(t, i)]
        b.tx_slot_in_range(t, i)
        implies !(b.tx_slot(t, i).pool_id == pkt.pool_id
            && b.tx_slot(t, i).buf_index == pkt.buf_index) by {
        assert(a.tx_slot_in_range(t, i));
        assert(b.tx_slot(t, i) == a.tx_slot(t, i));
        assert(a.tx_slot_wf(a.tx_slot(t, i)));
        let s = a.tx_slot(t, i);
        if s.pool_id == qid && s.buf_index == pkt.buf_index {
            assert(!qa.bufs@.contains(s.buf_index));
        }
    }
}

/// The reclaim cursor after the batched clean: while a full batch is
/// outstanding and the last descriptor of that batch is done, the cursor
/// jumps past the batch.  The device completes descriptors in order, so the
/// whole batch is done when its last descriptor is.
pub open spec fn clean_stop(descs: Seq<Descriptor>, clean: int, tx: int, num: int) -> int
    decreases ring_distance(clean, tx, num) via clean_stop_decreases
{
    if num > 0 && 0 <= clean < num && 0 <= tx < num
        && ring_distance(clean, tx, num) >= TX_CLEAN_BATCH
        && tx_dd(descs[(clean + TX_CLEAN_BATCH - 1) % num]) {
        clean_stop(descs, (clean + TX_CLEAN_BATCH) % num, tx, num)
    } else {
        clean
    }
}

#[via_fn]
proof fn clean_stop_decreases(descs: Seq<Descriptor>, clean: int, tx: int, num: int) {
    if num > 0 && 0 <= clean < num && 0 <= tx < num
        && ring_distance(clean, tx, num) >= TX_CLEAN_BATCH
        && tx_dd(descs[(clean + TX_CLEAN_BATCH - 1) % num]) {
        vstd::arithmetic::div_mod::lemma_mod_bound(tx - clean, num);
        crate::ring::lemma_ring_distance_from_shift(clean, TX_CLEAN_BATCH as int, tx, num);
        vstd::arithmetic::div_mod::lemma_small_mod(
            (ring_distance(clean, tx, num) - TX_CLEAN_BATCH) as nat, num as nat);
        vstd::arithmetic::div_mod::lemma_mod_bound(clean + TX_CLEAN_BATCH, num);
    }
}

/// The buffers of the slots of `s` that belong to pool `p`, oldest first.
pub open spec fn freed_for(s: Seq<TxSlot>, p: int) -> Seq<u32>
    decreases s.len(),
{
    if s.len() == 0 {
        Seq::empty()
    } else {
        let rest = freed_for(s.drop_last(), p);
        if s.last().pool_id == p {
            rest.push(s.last().buf_index)
        } else {
            rest
        }
    }
}

/// Every buffer in `freed_for(s, p)` is the buffer of some slot of `s` with
/// pool `p`.
pub proof fn lemma_freed_for_elems(s: Seq<TxSlot>, p: int)
    ensures
        forall|e: u32| #[trigger] freed_for(s, p).contains(e)
            ==> exists|m: int| 0 <= m < s.len() && s[m].pool_id == p && s[m].buf_index == e,
    decreases s.len(),
{
    if s.len() > 0 {
        lemma_freed_for_elems(s.drop_last(), p);
        assert forall|e: u32| #[trigger] freed_for(s, p).contains(e)
            implies exists|m: int| 0 <= m < s.len() && s[m].pool_id == p
                && s[m].buf_index == e by {
            let f = freed_for(s, p);
            let rest = freed_for(s.drop_last(), p);
            if s.last().pool_id == p && e == s.last().buf_index {
                assert(s[s.len() - 1].pool_id == p && s[s.len() - 1].buf_index == e);
            } else {
                let k = choose|k: int| 0 <= k < f.len() && f[k] == e;
                if s.last().pool_id == p {
                    assert(f == rest.push(s.last().buf_index));
                    assert(rest.contains(e)) by {
                        assert(rest[k] == e);
                    }
                } else {
                    assert(rest.contains(e)) by {
                        assert(rest[k] == e);
                    }
                }
                let m = choose|m: int| 0 <= m < s.drop_last().len()
                    && s.drop_last()[m].pool_id == p && s.drop_last()[m].buf_index == e;
                assert(s[m].pool_id == p && s[m].buf_index == e);
            }
        }
    }
}

/// The in-flight slots the packets of `pkts` become.
pub open spec fn slots_of(pkts: Seq<Packet>) -> Seq<TxSlot> {
    pkts.map_values(|p: Packet| TxSlot { pool_id: p.pool_id, buf_index: p.buf_index })
}

impl IxgbeDevice {
    /// Send the packets of `packets`, in order, on transmit queue
    /// `queue_id`, taking the accepted ones from the front of the vector;
    /// the caller keeps the rest.
    ///
    /// Finished descriptors are first reclaimed in batches and their buffers
    /// returned to their pools.  Then each packet in turn is written to the
    /// next free descriptor until the ring is full, one slot always left
    /// empty to keep a full ring distinguishable from an empty one.  Finally
    /// the tail register publishes the new producer cursor.
    pub fn tx_batch(&mut self, queue_id: u32, packets: &mut Vec<Packet>) -> (sent: u32)
        requires
            old(self).wf(),
            queue_id < old(self).num_tx_queues,
            forall|j: int| 0 <= j < old(packets)@.len()
                ==> old(self).packet_unowned(#[trigger] old(packets)@[j]),
            forall|j: int, k: int| 0 <= j < k < old(packets)@.len()
                ==> !(old(packets)@[j].pool_id == old(packets)@[k].pool_id
                    && old(packets)@[j].buf_index == old(packets)@[k].buf_index),
        ensures
            final(self).wf(),
            final(self).num_rx_queues == old(self).num_rx_queues,
            final(self).num_tx_queues == old(self).num_tx_queues,
            sent as int <= old(packets)@.len(),
            final(packets)@ == old(packets)@.skip(sent as int),
            ({
                let t0 = old(self).tx_queues@[queue_id as int];
                let t1 = final(self).tx_queues@[queue_id as int];
                let num = t0.num_entries as int;
                let clean1 = clean_stop(t0.descriptors@, t0.clean_index as int,
                    t0.tx_index as int, num);
                let cleaned = ring_distance(t0.clean_index as int, clean1, num);
                let cap = num - 1 - (t0.inflight@.len() - cleaned);
                &&& final(self).tx_queues@ == old(self).tx_queues@.update(queue_id as int, t1)
                &&& t1.clean_index == clean1
                &&& t1.num_entries == t0.num_entries
                &&& t1.hw_index == t0.hw_index
                &&& t1.ring_phys == t0.ring_phys
                &&& t1.tx_index == (t0.tx_index + sent) % num
                &&& t1.inflight@ == t0.inflight@.skip(cleaned)
                        + slots_of(old(packets)@.take(sent as int))
                &&& sent as int == if old(packets)@.len() <= cap { old(packets)@.len() as int } else { cap }
                &&& forall|j: int| 0 <= j < sent ==> ({
                        let p = old(packets)@[j];
                        #[trigger] t1.descriptors@[(t0.tx_index + j) % num] == tx_read_desc(
                            (old(self).rx_queues@[p.pool_id as int].pool.region.phys
                                + p.buf_index as int
                                    * old(self).rx_queues@[p.pool_id as int].pool.buf_size as int) as u64,
                            p.len)
                    })
                &&& forall|s: int|
                        #![trigger t1.descriptors@[s]]
                        0 <= s < num && ring_distance(t0.tx_index as int, s, num) >= sent
                        ==> t1.descriptors@[s] == t0.descriptors@[s]
                &&& forall|p: int| 0 <= p < old(self).num_rx_queues ==> ({
                        let r0 = old(self).rx_queues@[p];
                        let r1 = #[trigger] final(self).rx_queues@[p];
                        &&& r1.pool.free_stack@ == r0.pool.free_stack@
                                + freed_for(t0.inflight@.take(cleaned), p)
                        &&& r1.bufs == r0.bufs
                        &&& r1.descriptors == r0.descriptors
                        &&& r1.rx_index == r0.rx_index
                        &&& r1.hw_index == r0.hw_index
                        &&& r1.num_entries == r0.num_entries
                        &&& r1.ring_phys == r0.ring_phys
                        &&& r1.pool.num_bufs == r0.pool.num_bufs
                        &&& r1.pool.buf_size == r0.pool.buf_size
                        &&& r1.pool.region == r0.pool.region
                    })
                &&& final(self).mmio@ == old(self).mmio@.update(
                        (0x06018 + 0x40 * queue_id as int) / 4, t1.tx_index as u32)
            }),
    {
        let qi = queue_id as usize;
        let ghost t0 = self.tx_queues@[queue_id as int];
        proof {
            assert(old(self).tx_queues@[queue_id as int].wf());
        }
        let mut queue = self.tx_queues.remove(qi);
        let num = queue.num_entries;
        let tx0 = queue.tx_index;
        let ghost numi = num as int;

        // Reclaim finished descriptors in batches, collecting the buffers to
        // free.  Only the last descriptor of a batch is checked: the device
        // completes in order.
        let mut clean_index = queue.clean_index;
        let mut freed: Vec<TxSlot> = Vec::new();
        proof {
            vstd::arithmetic::div_mod::lemma_mod_bound(tx0 as int - t0.clean_index as int, numi);
            crate::ring::lemma_ring_distance_zero(t0.clean_index as int, t0.clean_index as int,
                numi);
            vstd::arithmetic::div_mod::lemma_small_mod(t0.clean_index as nat, num as nat);
        }
        loop
            invariant
                self.rx_queues == old(self).rx_queues,
                self.tx_queues@ == old(self).tx_queues@.remove(queue_id as int),
                self.mmio == old(self).mmio,
                self.num_rx_queues == old(self).num_rx_queues,
                self.num_tx_queues == old(self).num_tx_queues,
                old(self).wf(),
                queue_id < old(self).num_tx_queues,
                qi == queue_id as usize,
                t0 == old(self).tx_queues@[queue_id as int],
                t0.wf(),
                num == t0.num_entries,
                numi == num as int,
                tx0 == t0.tx_index,
                queue.descriptors == t0.descriptors,
                queue.num_entries == t0.num_entries,
                queue.tx_index == t0.tx_index,
                queue.hw_index == t0.hw_index,
                queue.ring_phys == t0.ring_phys,
                clean_index < num,
                freed@.len() <= t0.inflight@.len(),
                freed@ == t0.inflight@.take(freed@.len() as int),
                queue.inflight@ == t0.inflight@.skip(freed@.len() as int),
                clean_index as int == (t0.clean_index + freed@.len()) % numi,
                ring_distance(clean_index as int, tx0 as int, numi)
                    == t0.inflight@.len() - freed@.len(),
                clean_stop(t0.descriptors@, t0.clean_index as int, tx0 as int, numi)
                    == clean_stop(t0.descriptors@, clean_index as int, tx0 as int, numi),
            ensures
                clean_index as int == clean_stop(t0.descriptors@, t0.clean_index as int,
                    tx0 as int, numi),
                clean_index < num,
                freed@.len() <= t0.inflight@.len(),
                freed@ == t0.inflight@.take(freed@.len() as int),
                queue.inflight@ == t0.inflight@.skip(freed@.len() as int),
                clean_index as int == (t0.clean_index + freed@.len()) % numi,
                ring_distance(clean_index as int, tx0 as int, numi)
                    == t0.inflight@.len() - freed@.len(),
                queue.descriptors == t0.descriptors,
                queue.num_entries == t0.num_entries,
                queue.tx_index == t0.tx_index,
                queue.hw_index == t0.hw_index,
                queue.ring_phys == t0.ring_phys,
                self.rx_queues == old(self).rx_queues,
                self.tx_queues@ == old(self).tx_queues@.remove(queue_id as int),
                self.mmio == old(self).mmio,
            decreases ring_distance(clean_index as int, tx0 as int, numi),
        {
            let cleanable: u32 = if tx0 >= clean_index {
                tx0 - clean_index
            } else {
                num - (clean_index - tx0)
            };
            proof {
                if tx0 >= clean_index {
                    vstd::arithmetic::div_mod::lemma_small_mod((tx0 - clean_index) as nat,
                        num as nat);
                } else {
                    vstd::arithmetic::div_mod::lemma_mod_add_multiples_vanish(
                        tx0 as int - clean_index as int, numi);
                    vstd::arithmetic::div_mod::lemma_small_mod(
                        (tx0 as int - clean_index as int + numi) as nat, num as nat);
                }
                assert(cleanable as int == ring_distance(clean_index as int, tx0 as int, numi));
            }
            if cleanable < TX_CLEAN_BATCH {
                break;
            }
            proof {
                vstd::arithmetic::div_mod::lemma_mod_bound(tx0 as int - clean_index as int,
                    numi);
            }
            let cleanup_to: u32 = if clean_index >= num - (TX_CLEAN_BATCH - 1) {
                clean_index - (num - (TX_CLEAN_BATCH - 1))
            } else {
                clean_index + (TX_CLEAN_BATCH - 1)
            };
            proof {
                if clean_index + TX_CLEAN_BATCH - 1 >= num {
                    vstd::arithmetic::div_mod::lemma_mod_sub_multiples_vanish(
                        clean_index as int + TX_CLEAN_BATCH - 1, numi);
                    vstd::arithmetic::div_mod::lemma_small_mod(
                        (clean_index as int + TX_CLEAN_BATCH - 1 - numi) as nat, num as nat);
                } else {
                    vstd::arithmetic::div_mod::lemma_small_mod(
                        (clean_index as int + TX_CLEAN_BATCH - 1) as nat, num as nat);
                }
                assert(cleanup_to as int == (clean_index as int + TX_CLEAN_BATCH - 1) % numi);
            }
            let d = queue.descriptors[cleanup_to as usize];
            if d.w3 & IXGBE_ADVTXD_STAT_DD == 0 {
                proof {
                    assert(!tx_dd(t0.descriptors@[(clean_index as int + TX_CLEAN_BATCH - 1)
                        % numi]));
                }
                break;
            }
            let ghost k0 = freed@.len() as int;
            let mut b: u32 = 0;
            while b < TX_CLEAN_BATCH
                invariant
                    b <= TX_CLEAN_BATCH,
                    freed@.len() == k0 + b,
                    k0 + TX_CLEAN_BATCH <= t0.inflight@.len(),
                    freed@ == t0.inflight@.take(freed@.len() as int),
                    queue.inflight@ == t0.inflight@.skip(freed@.len() as int),
                    queue.descriptors == t0.descriptors,
                    queue.num_entries == t0.num_entries,
                    queue.tx_index == t0.tx_index,
                    queue.hw_index == t0.hw_index,
                    queue.ring_phys == t0.ring_phys,
                decreases TX_CLEAN_BATCH - b,
            {
                let ghost kpre = freed@.len() as int;
                let slot = match queue.inflight.pop_front() {
                    Some(s) => s,
                    None => {
                        proof { assert(false); }
                        return 0;
                    },
                };
                freed.push(slot);
                b = b + 1;
                proof {
                    assert(slot == t0.inflight@[kpre]);
                    assert(freed@ =~= t0.inflight@.take(kpre + 1));
                    assert(queue.inflight@ =~= t0.inflight@.skip(kpre + 1));
                }
            }
            proof {
                assert(clean_stop(t0.descriptors@, clean_index as int, tx0 as int, numi)
                    == clean_stop(t0.descriptors@,
                        (clean_index as int + TX_CLEAN_BATCH) % numi, tx0 as int, numi));
            }
            let ghost old_clean = clean_index as int;
            clean_index = if clean_index >= num - TX_CLEAN_BATCH {
                clean_index - (num - TX_CLEAN_BATCH)
            } else {
                clean_index + TX_CLEAN_BATCH
            };
            proof {
                if old_clean + TX_CLEAN_BATCH >= numi {
                    vstd::arithmetic::div_mod::lemma_mod_sub_multiples_vanish(
                        old_clean + TX_CLEAN_BATCH, numi);
                    vstd::arithmetic::div_mod::lemma_small_mod(
                        (old_clean + TX_CLEAN_BATCH - numi) as nat, num as nat);
                } else {
                    vstd::arithmetic::div_mod::lemma_small_mod(
                        (old_clean + TX_CLEAN_BATCH) as nat, num as nat);
                }
                assert(clean_index as int == (old_clean + TX_CLEAN_BATCH) % numi);
                vstd::arithmetic::div_mod::lemma_mod_twice(t0.clean_index as int
                    + freed@.len() - TX_CLEAN_BATCH, numi);
                vstd::arithmetic::div_mod::lemma_add_mod_noop(t0.clean_index as int
                    + freed@.len() - TX_CLEAN_BATCH, TX_CLEAN_BATCH as int, numi);
                vstd::arithmetic::div_mod::lemma_small_mod(TX_CLEAN_BATCH as nat, num as nat);
                vstd::arithmetic::div_mod::lemma_add_mod_noop(
                    (t0.clean_index as int + freed@.len() - TX_CLEAN_BATCH) % numi,
                    TX_CLEAN_BATCH as int, numi);
                assert(clean_index as int == (t0.clean_index + freed@.len()) % numi);
                crate::ring::lemma_ring_distance_from_shift(old_clean, TX_CLEAN_BATCH as int,
                    tx0 as int, numi);
                vstd::arithmetic::div_mod::lemma_small_mod(
                    (t0.inflight@.len() - freed@.len()) as nat, num as nat);
            }
        }
        queue.clean_index = clean_index;
        let ghost clean1 = clean_index as int;
        let ghost cleaned = freed@.len() as int;
        proof {
            crate::ring::lemma_ring_distance_zero(t0.clean_index as int, t0.clean_index as int,
                numi);
            crate::ring::lemma_ring_distance_add(t0.clean_index as int, t0.clean_index as int,
                cleaned, numi);
            vstd::arithmetic::div_mod::lemma_small_mod(t0.clean_index as nat, num as nat);
            vstd::arithmetic::div_mod::lemma_mod_bound(tx0 as int - t0.clean_index as int, numi);
            vstd::arithmetic::div_mod::lemma_small_mod(cleaned as nat, num as nat);
            assert(ring_distance(t0.clean_index as int, clean1, numi) == cleaned);
        }

        // Return the reclaimed buffers to their pools, oldest first.
        proof {
            assert forall|m2: int| 0 <= m2 < cleaned
                implies !self.rx_queues@[#[trigger] freed@[m2].pool_id as int].pool.is_free(
                    freed@[m2].buf_index) by {
                assert(freed@[m2] == t0.inflight@[m2]);
                assert(old(self).tx_slot_in_range(queue_id as int, m2));
                assert(old(self).tx_slot_wf(old(self).tx_slot(queue_id as int, m2)));
            }
            assert forall|p: int| 0 <= p < self.rx_queues@.len() implies
                #[trigger] self.rx_queues@[p].pool.free_stack@
                    == old(self).rx_queues@[p].pool.free_stack@
                        + freed_for(freed@.take(0), p) by {
                assert(freed@.take(0) =~= Seq::<TxSlot>::empty());
                assert(freed_for(freed@.take(0), p) =~= Seq::<u32>::empty());
                assert(self.rx_queues@[p].pool.free_stack@
                    =~= self.rx_queues@[p].pool.free_stack@ + Seq::<u32>::empty());
                assert(old(self).rx_queues@[p].wf());
            }
            assert forall|p: int| 0 <= p < self.rx_queues@.len() implies
                (#[trigger] self.rx_queues@[p]).pool.wf() by {
                assert(old(self).rx_queues@[p].wf());
            }
        }
        let mut m: usize = 0;
        while m < freed.len()
            invariant
                old(self).wf(),
                queue_id < old(self).num_tx_queues,
                t0 == old(self).tx_queues@[queue_id as int],
                m <= freed@.len(),
                cleaned == freed@.len() as int,
                cleaned <= t0.inflight@.len(),
                freed@ == t0.inflight@.take(cleaned),
                self.tx_queues@ == old(self).tx_queues@.remove(queue_id as int),
                self.mmio == old(self).mmio,
                self.num_rx_queues == old(self).num_rx_queues,
                self.num_tx_queues == old(self).num_tx_queues,
                self.rx_queues@.len() == old(self).rx_queues@.len(),
                forall|p: int| 0 <= p < self.rx_queues@.len() ==> ({
                    let r0 = old(self).rx_queues@[p];
                    let r1 = #[trigger] self.rx_queues@[p];
                    &&& r1.pool.wf()
                    &&& r1.bufs == r0.bufs
                    &&& r1.descriptors == r0.descriptors
                    &&& r1.rx_index == r0.rx_index
                    &&& r1.hw_index == r0.hw_index
                    &&& r1.num_entries == r0.num_entries
                    &&& r1.ring_phys == r0.ring_phys
                    &&& r1.pool.num_bufs == r0.pool.num_bufs
                    &&& r1.pool.buf_size == r0.pool.buf_size
                    &&& r1.pool.region == r0.pool.region
                    &&& r1.pool.free_stack@ == r0.pool.free_stack@
                            + freed_for(freed@.take(m as int), p)
                }),
                forall|m2: int| m <= m2 < cleaned
                    ==> !self.rx_queues@[#[trigger] freed@[m2].pool_id as int].pool.is_free(
                        freed@[m2].buf_index),
            decreases freed@.len() - m,
        {
            proof {
                assert(freed@[m as int] == t0.inflight@[m as int]);
                assert(old(self).tx_slot_in_range(queue_id as int, m as int));
                assert(old(self).tx_slot_wf(old(self).tx_slot(queue_id as int, m as int)));
            }
            let slot = freed[m];
            let pi = slot.pool_id as usize;
            let ghost pre_rx = self.rx_queues@;
            let mut rxq = self.rx_queues.remove(pi);
            rxq.pool.free_buf(slot.buf_index);
            self.rx_queues.insert(pi, rxq);
            m = m + 1;
            proof {
                assert(self.rx_queues@ =~= pre_rx.update(pi as int,
                    self.rx_queues@[pi as int]));
                assert forall|p: int| 0 <= p < self.rx_queues@.len() implies ({
                    let r0 = old(self).rx_queues@[p];
                    let r1 = #[trigger] self.rx_queues@[p];
                    r1.pool.free_stack@ == r0.pool.free_stack@
                        + freed_for(freed@.take(m as int), p)
                }) by {
                    assert(freed@.take(m as int).drop_last() =~= freed@.take(m as int - 1));
                    assert(freed@.take(m as int).last() == slot);
                    if p == pi as int {
                        assert(freed_for(freed@.take(m as int), p)
                            == freed_for(freed@.take(m as int - 1), p).push(slot.buf_index));
                        assert(self.rx_queues@[p].pool.free_stack@
                            =~= old(self).rx_queues@[p].pool.free_stack@
                                + freed_for(freed@.take(m as int), p));
                    } else {
                        assert(freed_for(freed@.take(m as int), p)
                            == freed_for(freed@.take(m as int - 1), p));
                        assert(self.rx_queues@[p] == pre_rx[p]);
                    }
                }
                assert forall|m2: int| m <= m2 < cleaned
                    implies !self.rx_queues@[#[trigger] freed@[m2].pool_id as int].pool.is_free(
                        freed@[m2].buf_index) by {
                    assert(freed@[m2] == t0.inflight@[m2]);
                    assert(old(self).tx_slot_in_range(queue_id as int, m2));
                    assert(old(self).tx_slot_in_range(queue_id as int, m as int - 1));
                    assert(!(old(self).tx_slot(queue_id as int, m as int - 1).pool_id
                        == old(self).tx_slot(queue_id as int, m2).pool_id
                        && old(self).tx_slot(queue_id as int, m as int - 1).buf_index
                            == old(self).tx_slot(queue_id as int, m2).buf_index));
                    let p2 = freed@[m2].pool_id as int;
                    if p2 == pi as int {
                        let f1 = self.rx_queues@[p2].pool.free_stack@;
                        let f0 = pre_rx[p2].pool.free_stack@;
                        assert(f1 == f0.push(slot.buf_index));
                        if f1.contains(freed@[m2].buf_index) {
                            let k = choose|k: int| 0 <= k < f1.len()
                                && f1[k] == freed@[m2].buf_index;
                            if k < f0.len() {
                                assert(f0.contains(freed@[m2].buf_index)) by {
                                    assert(f0[k] == freed@[m2].buf_index);
                                }
                            }
                        }
                    } else {
                        assert(self.rx_queues@[p2] == pre_rx[p2]);
                    }
                }
            }
        }

        // Enqueue until the input is drained or one slot short of full.
        proof {
            assert(freed@.take(cleaned) =~= freed@);
            assert forall|p: int| 0 <= p < self.rx_queues@.len() implies
                #[trigger] self.rx_queues@[p].pool.free_stack@
                    == old(self).rx_queues@[p].pool.free_stack@
                        + freed_for(t0.inflight@.take(cleaned), p) by {
                assert(freed_for(freed@.take(cleaned as int), p)
                    == freed_for(t0.inflight@.take(cleaned), p));
            }
        }
        let ghost d0 = t0.inflight@.len() - cleaned;
        let mut sent: u32 = 0;
        let mut cur: u32 = tx0;
        proof {
            vstd::arithmetic::div_mod::lemma_small_mod(tx0 as nat, num as nat);
        }
        while packets.len() > 0
            invariant
                old(self).wf(),
                queue_id < old(self).num_tx_queues,
                qi == queue_id as usize,
                t0 == old(self).tx_queues@[queue_id as int],
                t0.wf(),
                num == t0.num_entries,
                numi == num as int,
                tx0 == t0.tx_index,
                clean1 == clean_index as int,
                clean_index < num,
                cleaned <= t0.inflight@.len(),
                d0 == t0.inflight@.len() - cleaned,
                forall|j: int| 0 <= j < old(packets)@.len()
                    ==> old(self).packet_unowned(#[trigger] old(packets)@[j]),
                sent as int <= old(packets)@.len(),
                packets@ == old(packets)@.skip(sent as int),
                cur as int == (tx0 + sent) % numi,
                cur < num,
                ring_distance(clean1, cur as int, numi) == d0 + sent,
                d0 + sent <= numi - 1,
                self.tx_queues@ == old(self).tx_queues@.remove(queue_id as int),
                self.mmio == old(self).mmio,
                self.num_rx_queues == old(self).num_rx_queues,
                self.num_tx_queues == old(self).num_tx_queues,
                self.rx_queues@.len() == old(self).rx_queues@.len(),
                forall|p: int| 0 <= p < self.rx_queues@.len() ==> ({
                    let r0 = old(self).rx_queues@[p];
                    let r1 = #[trigger] self.rx_queues@[p];
                    &&& r1.pool.wf()
                    &&& r1.bufs == r0.bufs
                    &&& r1.descriptors == r0.descriptors
                    &&& r1.rx_index == r0.rx_index
                    &&& r1.hw_index == r0.hw_index
                    &&& r1.num_entries == r0.num_entries
                    &&& r1.ring_phys == r0.ring_phys
                    &&& r1.pool.num_bufs == r0.pool.num_bufs
                    &&& r1.pool.buf_size == r0.pool.buf_size
                    &&& r1.pool.region == r0.pool.region
                    &&& r1.pool.free_stack@ == r0.pool.free_stack@
                            + freed_for(t0.inflight@.take(cleaned), p)
                }),
                queue.num_entries == t0.num_entries,
                queue.tx_index == t0.tx_index,
                queue.hw_index == t0.hw_index,
                queue.ring_phys == t0.ring_phys,
                queue.clean_index == clean_index,
                queue.descriptors@.len() == num,
                queue.inflight@ == t0.inflight@.skip(cleaned)
                    + slots_of(old(packets)@.take(sent as int)),
                forall|j: int| 0 <= j < sent ==> ({
                    let p = old(packets)@[j];
                    #[trigger] queue.descriptors@[(tx0 + j) % numi] == tx_read_desc(
                        (old(self).rx_queues@[p.pool_id as int].pool.region.phys
                            + p.buf_index as int
                                * old(self).rx_queues@[p.pool_id as int].pool.buf_size as int) as u64,
                        p.len)
                }),
                forall|s: int|
                    #![trigger queue.descriptors@[s]]
                    0 <= s < num && ring_distance(tx0 as int, s, numi) >= sent
                    ==> queue.descriptors@[s] == t0.descriptors@[s],
            ensures
                sent as int <= old(packets)@.len(),
                packets@ == old(packets)@.skip(sent as int),
                cur as int == (tx0 + sent) % numi,
                cur < num,
                ring_distance(clean1, cur as int, numi) == d0 + sent,
                sent as int == old(packets)@.len() || d0 + sent == numi - 1,
                queue.inflight@ == t0.inflight@.skip(cleaned)
                    + slots_of(old(packets)@.take(sent as int)),
                queue.num_entries == t0.num_entries,
                queue.tx_index == t0.tx_index,
                queue.hw_index == t0.hw_index,
                queue.ring_phys == t0.ring_phys,
                queue.clean_index == clean_index,
                queue.descriptors@.len() == num,
                forall|j: int| 0 <= j < sent ==> ({
                    let p = old(packets)@[j];
                    #[trigger] queue.descriptors@[(tx0 + j) % numi] == tx_read_desc(
                        (old(self).rx_queues@[p.pool_id as int].pool.region.phys
                            + p.buf_index as int
                                * old(self).rx_queues@[p.pool_id as int].pool.buf_size as int) as u64,
                        p.len)
                }),
                forall|s: int|
                    #![trigger queue.descriptors@[s]]
                    0 <= s < num && ring_distance(tx0 as int, s, numi) >= sent
                    ==> queue.descriptors@[s] == t0.descriptors@[s],
                self.tx_queues@ == old(self).tx_queues@.remove(queue_id as int),
                self.mmio == old(self).mmio,
                self.num_rx_queues == old(self).num_rx_queues,
                self.num_tx_queues == old(self).num_tx_queues,
                self.rx_queues@.len() == old(self).rx_queues@.len(),
                forall|p: int| 0 <= p < self.rx_queues@.len() ==> ({
                    let r0 = old(self).rx_queues@[p];
                    let r1 = #[trigger] self.rx_queues@[p];
                    &&& r1.pool.wf()
                    &&& r1.bufs == r0.bufs
                    &&& r1.descriptors == r0.descriptors
                    &&& r1.rx_index == r0.rx_index
                    &&& r1.hw_index == r0.hw_index
                    &&& r1.num_entries == r0.num_entries
                    &&& r1.ring_phys == r0.ring_phys
                    &&& r1.pool.num_bufs == r0.pool.num_bufs
                    &&& r1.pool.buf_size == r0.pool.buf_size
                    &&& r1.pool.region == r0.pool.region
                    &&& r1.pool.free_stack@ == r0.pool.free_stack@
                            + freed_for(t0.inflight@.take(cleaned), p)
                }),
            decreases packets@.len(),
        {
            proof {
                assert(is_pow2(num)) by {
                    assert(t0.wf());
                }
            }
            let next = wrap_ring(cur, num);
            proof {
                crate::ring::lemma_wrap_is_mod(cur as int, numi);
                crate::ring::lemma_ring_distance_add(clean1, cur as int, 1, numi);
                crate::ring::lemma_ring_distance_zero(clean1, next as int, numi);
                if d0 + sent + 1 == numi {
                    vstd::arithmetic::div_mod::lemma_mod_self_0(numi);
                } else {
                    vstd::arithmetic::div_mod::lemma_small_mod((d0 + sent + 1) as nat,
                        num as nat);
                }
            }
            if next == clean_index {
                proof {
                    assert(d0 + sent == numi - 1);
                }
                break;
            }
            proof {
                assert(d0 + sent + 1 <= numi - 1);
            }
            let pkt = packets.remove(0);
            proof {
                assert(pkt == old(packets)@[sent as int]);
                assert(old(self).packet_unowned(old(packets)@[sent as int]));
                assert(packets@ =~= old(packets)@.skip(sent as int + 1));
            }
            let pi2 = pkt.pool_id as usize;
            let phys = self.rx_queues[pi2].pool.phys_of(pkt.buf_index);
            let d = make_tx_read_desc(phys, pkt.len);
            let ghost qpre = queue;
            queue.descriptors.set(cur as usize, d);
            queue.inflight.push_back(TxSlot { pool_id: pkt.pool_id, buf_index: pkt.buf_index });
            let ghost cur_pre = cur as int;
            cur = next;
            sent = sent + 1;
            proof {
                crate::ring::lemma_wrap_next(tx0 as int, sent as int - 1, numi);
                crate::ring::lemma_ring_distance_small(tx0 as int, sent as int - 1, numi)
                ;
                assert(queue.inflight@ =~= t0.inflight@.skip(cleaned)
                    + slots_of(old(packets)@.take(sent as int))) by {
                    assert(old(packets)@.take(sent as int)
                        =~= old(packets)@.take(sent as int - 1).push(pkt));
                    assert(slots_of(old(packets)@.take(sent as int))
                        =~= slots_of(old(packets)@.take(sent as int - 1)).push(
                            TxSlot { pool_id: pkt.pool_id, buf_index: pkt.buf_index }));
                }
                assert forall|j: int| 0 <= j < sent implies ({
                    let p = old(packets)@[j];
                    #[trigger] queue.descriptors@[(tx0 + j) % numi] == tx_read_desc(
                        (old(self).rx_queues@[p.pool_id as int].pool.region.phys
                            + p.buf_index as int
                                * old(self).rx_queues@[p.pool_id as int].pool.buf_size as int) as u64,
                        p.len)
                }) by {
                    crate::ring::lemma_ring_distance_small(tx0 as int, j, numi);
                    if j < sent - 1 {
                        assert((tx0 + j) % numi != cur_pre);
                        assert(queue.descriptors@[(tx0 + j) % numi]
                            == qpre.descriptors@[(tx0 + j) % numi]);
                    }
                }
                assert forall|s: int|
                    #![trigger queue.descriptors@[s]]
                    0 <= s < num && ring_distance(tx0 as int, s, numi) >= sent
                    implies queue.descriptors@[s] == t0.descriptors@[s] by {
                    crate::ring::lemma_ring_distance_small(tx0 as int, sent as int - 1, numi);
                    assert(s != cur_pre);
                    assert(queue.descriptors@[s] == qpre.descriptors@[s]);
                }
            }
        }

        queue.tx_index = cur;
        proof {
            assert(queue.wf()) by {
                assert(queue.inflight@.len() == d0 + sent);
                assert(ring_distance(queue.clean_index as int, queue.tx_index as int, numi)
                    == d0 + sent);
            }
        }
        self.tx_queues.insert(qi, queue);
        proof {
            assert(self.tx_queues@ =~= old(self).tx_queues@.update(queue_id as int,
                self.tx_queues@[queue_id as int]));
            let fresh = slots_of(old(packets)@.take(sent as int));
            assert forall|m2: int| 0 <= m2 < fresh.len() implies ({
                let s = #[trigger] fresh[m2];
                &&& s.pool_id < old(self).num_rx_queues
                &&& s.buf_index < old(self).rx_queues@[s.pool_id as int].pool.num_bufs
                &&& !old(self).rx_queues@[s.pool_id as int].pool.is_free(s.buf_index)
                &&& !old(self).rx_queues@[s.pool_id as int].bufs@.contains(s.buf_index)
                &&& forall|t3: int, i3: int| old(self).tx_slot_in_range(t3, i3)
                        ==> !(#[trigger] old(self).tx_slot(t3, i3).pool_id == s.pool_id
                            && old(self).tx_slot(t3, i3).buf_index == s.buf_index)
            }) by {
                assert(old(self).packet_unowned(old(packets)@[m2]));
            }
            assert forall|m1: int, m2: int| 0 <= m1 < m2 < fresh.len()
                implies !(fresh[m1].pool_id == fresh[m2].pool_id
                    && fresh[m1].buf_index == fresh[m2].buf_index) by {
                assert(fresh[m1] == TxSlot { pool_id: old(packets)@[m1].pool_id,
                    buf_index: old(packets)@[m1].buf_index });
            }
            lemma_tx_batch_wf(*old(self), *self, queue_id as int, cleaned, fresh);
        }

        let tdt = ixgbe_tdt(queue_id);
        proof {
            assert(self.mmio.in_bounds(tdt));
        }
        self.set_reg32(tdt, cur);
        proof {
            let cap = numi - 1 - d0;
            if (sent as int) < old(packets)@.len() {
                assert(d0 + sent == numi - 1);
            }
        }
        sent
    }
}

/// After a transmit batch the device is still well formed: the cleaned
/// prefix of the in-flight queue moved into the pools' free stacks, and the
/// newly enqueued slots came from packets the caller owned.
pub proof fn lemma_tx_batch_wf(
    a: IxgbeDevice,
    b: IxgbeDevice,
    qid: int,
    cleaned: int,
    fresh: Seq<TxSlot>,
)
    requires
        a.wf(),
        b.mmio.len_bytes() == MMIO_LEN,
        b.num_rx_queues == a.num_rx_queues,
        b.num_tx_queues == a.num_tx_queues,
        b.rx_queues@.len() == a.rx_queues@.len(),
        b.tx_queues@.len() == a.tx_queues@.len(),
        0 <= qid < a.tx_queues@.len(),
        0 <= cleaned <= a.tx_queues@[qid].inflight@.len(),
        forall|t: int| 0 <= t < b.tx_queues@.len() && t != qid
            ==> #[trigger] b.tx_queues@[t] == a.tx_queues@[t],
        b.tx_queues@[qid].wf(),
        b.tx_queues@[qid].inflight@ == a.tx_queues@[qid].inflight@.skip(cleaned) + fresh,
        forall|p: int| 0 <= p < b.rx_queues@.len() ==> ({
            let r0 = a.rx_queues@[p];
            let r1 = #[trigger] b.rx_queues@[p];
            &&& r1.pool.wf()
            &&& r1.pool.num_bufs == r0.pool.num_bufs
            &&& r1.bufs == r0.bufs
            &&& r1.descriptors == r0.descriptors
            &&& r1.rx_index == r0.rx_index
            &&& r1.hw_index == r0.hw_index
            &&& r1.num_entries == r0.num_entries
            &&& r1.pool.buf_size == r0.pool.buf_size
            &&& r1.pool.region == r0.pool.region
            &&& r1.pool.free_stack@ == r0.pool.free_stack@
                    + freed_for(a.tx_queues@[qid].inflight@.take(cleaned), p)
        }),
        forall|m: int| 0 <= m < fresh.len() ==> ({
            let s = #[trigger] fresh[m];
            &&& s.pool_id < a.num_rx_queues
            &&& s.buf_index < a.rx_queues@[s.pool_id as int].pool.num_bufs
            &&& !a.rx_queues@[s.pool_id as int].pool.is_free(s.buf_index)
            &&& !a.rx_queues@[s.pool_id as int].bufs@.contains(s.buf_index)
            &&& forall|t: int, i: int| a.tx_slot_in_range(t, i)
                    ==> !(#[trigger] a.tx_slot(t, i).pool_id == s.pool_id
                        && a.tx_slot(t, i).buf_index == s.buf_index)
        }),
        forall|m1: int, m2: int| 0 <= m1 < m2 < fresh.len()
            ==> !(fresh[m1].pool_id == fresh[m2].pool_id
                && fresh[m1].buf_index == fresh[m2].buf_index),
    ensures
        b.wf(),
{
    let prefix = a.tx_queues@[qid].inflight@.take(cleaned);
    let skiplen = a.tx_queues@[qid].inflight@.len() - cleaned;
    lemma_freed_for_elems(prefix, 0);

    // Map each slot of b to its origin in a.
    assert forall|t: int, i: int| b.tx_slot_in_range(t, i)
        implies slot_origin_ok(a, b, qid, cleaned, fresh, t, i) by {
        if t != qid {
            assert(b.tx_slot(t, i) == a.tx_slot(t, i));
            assert(a.tx_slot_in_range(t, i));
        } else if i < skiplen {
            assert(b.tx_slot(t, i) == a.tx_slot(qid, i + cleaned));
            assert(a.tx_slot_in_range(qid, i + cleaned));
        } else {
            assert(b.tx_slot(t, i) == fresh[i - skiplen]);
        }
    }

    // A buffer freed into pool `p` is the buffer of a cleaned slot.
    assert forall|p: int, x: u32|
        0 <= p < b.rx_queues@.len() && #[trigger] b.rx_queues@[p].pool.is_free(x)
            && !a.rx_queues@[p].pool.is_free(x)
        implies exists|m: int| 0 <= m < cleaned && a.tx_slot(qid, m).pool_id == p
            && a.tx_slot(qid, m).buf_index == x by {
        let f1 = b.rx_queues@[p].pool.free_stack@;
        let f0 = a.rx_queues@[p].pool.free_stack@;
        let k = choose|k: int| 0 <= k < f1.len() && f1[k] == x;
        if k < f0.len() {
            assert(f0.contains(x)) by { assert(f0[k] == x); }
        } else {
            lemma_freed_for_elems(prefix, p);
            assert(freed_for(prefix, p).contains(x)) by {
                assert(freed_for(prefix, p)[k - f0.len()] == x);
            }
            let m = choose|m: int| 0 <= m < prefix.len() && prefix[m].pool_id == p
                && prefix[m].buf_index == x;
            assert(a.tx_slot(qid, m).pool_id == p && a.tx_slot(qid, m).buf_index == x);
        }
    }

    assert forall|q: int| 0 <= q < b.rx_queues@.len() implies (#[trigger] b.rx_queues@[q]).wf() by {
        let r0 = a.rx_queues@[q];
        let r1 = b.rx_queues@[q];
        assert(r0.wf());
        assert forall|i: int| 0 <= i < r1.bufs@.len()
            implies !r1.pool.is_free(#[trigger] r1.bufs@[i]) by {
            if r1.pool.is_free(r1.bufs@[i]) {
                assert(!r0.pool.is_free(r0.bufs@[i]));
                let m = choose|m: int| 0 <= m < cleaned && a.tx_slot(qid, m).pool_id == q
                    && a.tx_slot(qid, m).buf_index == r1.bufs@[i];
                assert(a.tx_slot_in_range(qid, m));
                assert(a.tx_slot_wf(a.tx_slot(qid, m)));
                    assert(r0.bufs@.contains(r0.bufs@[i])) by { assert(r0.bufs@[i] == r0.bufs@[i]); }
            }
        }
    }
    assert forall|t: int| 0 <= t < b.tx_queues@.len() implies (#[trigger] b.tx_queues@[t]).wf() by {
        if t != qid {
            assert(b.tx_queues@[t] == a.tx_queues@[t]);
        }
    }
    assert forall|t: int, i: int| b.tx_slot_in_range(t, i)
        implies b.tx_slot_wf(#[trigger] b.tx_slot(t, i)) by {
        let s = b.tx_slot(t, i);
        assert(slot_origin_ok(a, b, qid, cleaned, fresh, t, i));
        assert(s.pool_id < b.num_rx_queues && s.buf_index
            < b.rx_queues@[s.pool_id as int].pool.num_bufs
            && !a.rx_queues@[s.pool_id as int].pool.is_free(s.buf_index)
            && !a.rx_queues@[s.pool_id as int].bufs@.contains(s.buf_index));
        assert(!b.rx_queues@[s.pool_id as int].pool.is_free(s.buf_index)) by {
            if b.rx_queues@[s.pool_id as int].pool.is_free(s.buf_index) {
                let m = choose|m: int| 0 <= m < cleaned
                    && a.tx_slot(qid, m).pool_id == s.pool_id as int
                    && a.tx_slot(qid, m).buf_index == s.buf_index;
                assert(a.tx_slot_in_range(qid, m));
                lemma_slot_origin_distinct(a, b, qid, cleaned, fresh, t, i, m);
            }
        }
        assert(!b.rx_queues@[s.pool_id as int].bufs@.contains(s.buf_index));
    }
    assert forall|t1: int, i1: int, t2: int, i2: int|
        #![trigger b.tx_slot(t1, i1), b.tx_slot(t2, i2)]
        b.tx_slot_in_range(t1, i1) && b.tx_slot_in_range(t2, i2) && !(t1 == t2 && i1 == i2)
        implies !(b.tx_slot(t1, i1).pool_id == b.tx_slot(t2, i2).pool_id
            && b.tx_slot(t1, i1).buf_index == b.tx_slot(t2, i2).buf_index) by {
        lemma_slot_pair_distinct(a, b, qid, cleaned, fresh, t1, i1, t2, i2);
    }
}

/// Each in-flight slot of `b` is an old slot of another queue, a kept old
/// slot of queue `qid`, or one of the freshly enqueued slots.
pub open spec fn slot_origin_ok(
    a: IxgbeDevice,
    b: IxgbeDevice,
    qid: int,
    cleaned: int,
    fresh: Seq<TxSlot>,
    t: int,
    i: int,
) -> bool {
    let skiplen = a.tx_queues@[qid].inflight@.len() - cleaned;
    if t != qid {
        b.tx_slot(t, i) == a.tx_slot(t, i) && a.tx_slot_in_range(t, i)
    } else if i < skiplen {
        b.tx_slot(t, i) == a.tx_slot(qid, i + cleaned) && a.tx_slot_in_range(qid, i + cleaned)
    } else {
        0 <= i - skiplen < fresh.len() && b.tx_slot(t, i) == fresh[i - skiplen]
    }
}

/// A slot of `b` never names the buffer of a cleaned slot.
proof fn lemma_slot_origin_distinct(
    a: IxgbeDevice,
    b: IxgbeDevice,
    qid: int,
    cleaned: int,
    fresh: Seq<TxSlot>,
    t: int,
    i: int,
    m: int,
)
    requires
        a.wf(),
        0 <= qid < a.tx_queues@.len(),
        0 <= cleaned <= a.tx_queues@[qid].inflight@.len(),
        b.tx_slot_in_range(t, i),
        slot_origin_ok(a, b, qid, cleaned, fresh, t, i),
        0 <= m < cleaned,
        forall|m2: int| 0 <= m2 < fresh.len() ==> ({
            let s = #[trigger] fresh[m2];
            forall|t3: int, i3: int| a.tx_slot_in_range(t3, i3)
                ==> !(#[trigger] a.tx_slot(t3, i3).pool_id == s.pool_id
                    && a.tx_slot(t3, i3).buf_index == s.buf_index)
        }),
    ensures
        !(b.tx_slot(t, i).pool_id == a.tx_slot(qid, m).pool_id
            && b.tx_slot(t, i).buf_index == a.tx_slot(qid, m).buf_index),
{
    let skiplen = a.tx_queues@[qid].inflight@.len() - cleaned;
    assert(a.tx_slot_in_range(qid, m));
    if t != qid {
        assert(b.tx_slot(t, i) == a.tx_slot(t, i));
    } else if i < skiplen {
        assert(b.tx_slot(t, i) == a.tx_slot(qid, i + cleaned));
    } else {
        let s = fresh[i - skiplen];
        assert(!(a.tx_slot(qid, m).pool_id == s.pool_id
            && a.tx_slot(qid, m).buf_index == s.buf_index));
    }
}

/// Two distinct slots of `b` never name the same buffer.
proof fn lemma_slot_pair_distinct(
    a: IxgbeDevice,
    b: IxgbeDevice,
    qid: int,
    cleaned: int,
    fresh: Seq<TxSlot>,
    t1: int,
    i1: int,
    t2: int,
    i2: int,
)
    requires
        a.wf(),
        0 <= qid < a.tx_queues@.len(),
        0 <= cleaned <= a.tx_queues@[qid].inflight@.len(),
        b.tx_slot_in_range(t1, i1),
        b.tx_slot_in_range(t2, i2),
        !(t1 == t2 && i1 == i2),
        slot_origin_ok(a, b, qid, cleaned, fresh, t1, i1),
        slot_origin_ok(a, b, qid, cleaned, fresh, t2, i2),
        forall|m2: int| 0 <= m2 < fresh.len() ==> ({
            let s = #[trigger] fresh[m2];
            forall|t3: int, i3: int| a.tx_slot_in_range(t3, i3)
                ==> !(#[trigger] a.tx_slot(t3, i3).pool_id == s.pool_id
                    && a.tx_slot(t3, i3).buf_index == s.buf_index)
        }),
        forall|m1: int, m2: int| 0 <= m1 < m2 < fresh.len()
            ==> !(fresh[m1].pool_id == fresh[m2].pool_id
                && fresh[m1].buf_index == fresh[m2].buf_index),
    ensures
        !(b.tx_slot(t1, i1).pool_id == b.tx_slot(t2, i2).pool_id
            && b.tx_slot(t1, i1).buf_index == b.tx_slot(t2, i2).buf_index),
{
    let skiplen = a.tx_queues@[qid].inflight@.len() - cleaned;
    let s1 = b.tx_slot(t1, i1);
    let s2 = b.tx_slot(t2, i2);
    let f1 = t1 == qid && i1 >= skiplen;
    let f2 = t2 == qid && i2 >= skiplen;
    if f1 && f2 {
        let m1 = i1 - skiplen;
        let m2 = i2 - skiplen;
        if m1 < m2 {
            assert(!(fresh[m1].pool_id == fresh[m2].pool_id
                && fresh[m1].buf_index == fresh[m2].buf_index));
        } else {
            assert(!(fresh[m2].pool_id == fresh[m1].pool_id
                && fresh[m2].buf_index == fresh[m1].buf_index));
        }
    } else if f1 {
        let s = fresh[i1 - skiplen];
        if t2 != qid {
            assert(!(a.tx_slot(t2, i2).pool_id == s.pool_id
                && a.tx_slot(t2, i2).buf_index == s.buf_index));
        } else {
            assert(!(a.tx_slot(qid, i2 + cleaned).pool_id == s.pool_id
                && a.tx_slot(qid, i2 + cleaned).buf_index == s.buf_index));
        }
    } else if f2 {
        let s = fresh[i2 - skiplen];
        if t1 != qid {
            assert(!(a.tx_slot(t1, i1).pool_id == s.pool_id
                && a.tx_slot(t1, i1).buf_index == s.buf_index));
        } else {
            assert(!(a.tx_slot(qid, i1 + cleaned).pool_id == s.pool_id
                && a.tx_slot(qid, i1 + cleaned).buf_index == s.buf_index));
        }
    } else {
        let j1: int = if t1 == qid { i1 + cleaned } else { i1 };
        let j2: int = if t2 == qid { i2 + cleaned } else { i2 };
        assert(a.tx_slot_in_range(t1, j1) && a.tx_slot_in_range(t2, j2));
        assert(!(t1 == t2 && j1 == j2));
        assert(!(a.tx_slot(t1, j1).pool_id == a.tx_slot(t2, j2).pool_id
            && a.tx_slot(t1, j1).buf_index == a.tx_slot(t2, j2).buf_index));
    }
}

/// A transmit descriptor with its done bit set by the device.
pub open spec fn dd_marked(d: Descriptor) -> Descriptor {
    Descriptor { w0: d.w0, w1: d.w1, w2: d.w2, w3: d.w3 | IXGBE_ADVTXD_STAT_DD }
}

/// Rewriting descriptors or the device cursor of one receive queue leaves
/// the device well formed: ownership never mentions descriptor contents.
pub proof fn lemma_device_update_rx_wf(a: IxgbeDevice, b: IxgbeDevice, qid: int)
    requires
        a.wf(),
        b.mmio.len_bytes() == MMIO_LEN,
        b.num_rx_queues == a.num_rx_queues,
        b.num_tx_queues == a.num_tx_queues,
        b.tx_queues == a.tx_queues,
        0 <= qid < a.rx_queues@.len(),
        b.rx_queues@.len() == a.rx_queues@.len(),
        forall|q: int| 0 <= q < b.rx_queues@.len() && q != qid
            ==> #[trigger] b.rx_queues@[q] == a.rx_queues@[q],
        b.rx_queues@[qid].wf(),
        b.rx_queues@[qid].bufs == a.rx_queues@[qid].bufs,
        b.rx_queues@[qid].pool == a.rx_queues@[qid].pool,
    ensures
        b.wf(),
{
    assert forall|q: int| 0 <= q < b.rx_queues@.len() implies (#[trigger] b.rx_queues@[q]).wf() by {
        if q != qid {
            assert(b.rx_queues@[q] == a.rx_queues@[q]);
        }
    }
    assert forall|t: int| 0 <= t < b.tx_queues@.len() implies (#[trigger] b.tx_queues@[t]).wf() by {
        assert(b.tx_queues@[t] == a.tx_queues@[t]);
    }
    assert forall|t: int, i: int| b.tx_slot_in_range(t, i)
        implies b.tx_slot_wf(#[trigger] b.tx_slot(t, i)) by {
        assert(a.tx_slot_in_range(t, i));
        assert(b.tx_slot(t, i) == a.tx_slot(t, i));
        assert(a.tx_slot_wf(a.tx_slot(t, i)));
        let s = a.tx_slot(t, i);
        if s.pool_id == qid {
            assert(b.rx_queues@[qid].pool == a.rx_queues@[qid].pool);
            assert(b.rx_queues@[qid].bufs == a.rx_queues@[qid].bufs);
        } else {
            assert(b.rx_queues@[s.pool_id as int] == a.rx_queues@[s.pool_id as int]);
        }
    }
    assert forall|t1: int, i1: int, t2: int, i2: int|
        #![trigger b.tx_slot(t1, i1), b.tx_slot(t2, i2)]
        b.tx_slot_in_range(t1, i1) && b.tx_slot_in_range(t2, i2) && !(t1 == t2 && i1 == i2)
        implies !(b.tx_slot(t1, i1).pool_id == b.tx_slot(t2, i2).pool_id
            && b.tx_slot(t1, i1).buf_index == b.tx_slot(t2, i2).buf_index) by {
        assert(a.tx_slot_in_range(t1, i1));
        assert(a.tx_slot_in_range(t2, i2));
        assert(b.tx_slot(t1, i1) == a.tx_slot(t1, i1));
        assert(b.tx_slot(t2, i2) == a.tx_slot(t2, i2));
    }
}

/// Rewriting descriptors or the device cursor of one transmit queue leaves
/// the device well formed.
pub proof fn lemma_device_update_tx_desc_wf(a: IxgbeDevice, b: IxgbeDevice, qid: int)
    requires
        a.wf(),
        b.mmio.len_bytes() == MMIO_LEN,
        b.num_rx_queues == a.num_rx_queues,
        b.num_tx_queues == a.num_tx_queues,
        b.rx_queues == a.rx_queues,
        0 <= qid < a.tx_queues@.len(),
        b.tx_queues@.len() == a.tx_queues@.len(),
        forall|t: int| 0 <= t < b.tx_queues@.len() && t != qid
            ==> #[trigger] b.tx_queues@[t] == a.tx_queues@[t],
        b.tx_queues@[qid].wf(),
        b.tx_queues@[qid].inflight == a.tx_queues@[qid].inflight,
    ensures
        b.wf(),
{
    assert forall|q: int| 0 <= q < b.rx_queues@.len() implies (#[trigger] b.rx_queues@[q]).wf() by {
        assert(b.rx_queues@[q] == a.rx_queues@[q]);
    }
    assert forall|t: int| 0 <= t < b.tx_queues@.len() implies (#[trigger] b.tx_queues@[t]).wf() by {
        if t != qid {
            assert(b.tx_queues@[t] == a.tx_queues@[t]);
        }
    }
    assert forall|t: int, i: int| b.tx_slot_in_range(t, i)
        implies b.tx_slot_wf(#[trigger] b.tx_slot(t, i)) by {
        assert(b.tx_slot(t, i) == a.tx_slot(t, i));
        assert(a.tx_slot_in_range(t, i));
        assert(a.tx_slot_wf(a.tx_slot(t, i)));
    }
    assert forall|t1: int, i1: int, t2: int, i2: int|
        #![trigger b.tx_slot(t1, i1), b.tx_slot(t2, i2)]
        b.tx_slot_in_range(t1, i1) && b.tx_slot_in_range(t2, i2) && !(t1 == t2 && i1 == i2)
        implies !(b.tx_slot(t1, i1).pool_id == b.tx_slot(t2, i2).pool_id
            && b.tx_slot(t1, i1).buf_index == b.tx_slot(t2, i2).buf_index) by {
        assert(a.tx_slot_in_range(t1, i1));
        assert(a.tx_slot_in_range(t2, i2));
        assert(b.tx_slot(t1, i1) == a.tx_slot(t1, i1));
        assert(b.tx_slot(t2, i2) == a.tx_slot(t2, i2));
    }
}

} // verus!

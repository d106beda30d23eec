use ixgbe::device::IxgbeDevice;
use ixgbe::dma::{virt_to_phys, DMA_VIRT_BASE};
use ixgbe::mempool::Mempool;
use ixgbe::pkt::{DeviceStats, IxgbeError};
use ixgbe::regs;
use ixgbe::ring::wrap_ring;

fn fresh_device() -> IxgbeDevice {
    IxgbeDevice::init("0000:03:00.0", 1, 1).expect("init failed")
}

#[test]
fn wrap_advances_and_wraps() {
    assert_eq!(wrap_ring(0, 512), 1);
    assert_eq!(wrap_ring(5, 512), 6);
    assert_eq!(wrap_ring(511, 512), 0);
    assert_eq!(wrap_ring(7, 8), 0);
}

#[test]
fn link_speed_decoding() {
    assert_eq!(regs::decode_link_speed(0), 0);
    assert_eq!(regs::decode_link_speed(regs::IXGBE_LINKS_SPEED_10G_82599), 0);
    assert_eq!(
        regs::decode_link_speed(regs::IXGBE_LINKS_UP | regs::IXGBE_LINKS_SPEED_100_82599),
        100
    );
    assert_eq!(
        regs::decode_link_speed(regs::IXGBE_LINKS_UP | regs::IXGBE_LINKS_SPEED_1G_82599),
        1000
    );
    assert_eq!(
        regs::decode_link_speed(regs::IXGBE_LINKS_UP | regs::IXGBE_LINKS_SPEED_10G_82599),
        10000
    );
    assert_eq!(regs::decode_link_speed(regs::IXGBE_LINKS_UP), 0);
}

#[test]
fn txdctl_threshold_packing() {
    let packed = regs::pack_txdctl_thresholds(0xFFFF_FFFF);
    assert_eq!(packed & 0x3F, 36);
    assert_eq!((packed >> 8) & 0x3F, 8);
    assert_eq!((packed >> 16) & 0x3F, 4);
    assert_eq!(packed & !0x003F_3F3F, 0xFFFF_FFFF & !0x003F_3F3F);
}

#[test]
fn virt_phys_translation() {
    assert_eq!(virt_to_phys(DMA_VIRT_BASE + 5), 5);
    assert_eq!(virt_to_phys(DMA_VIRT_BASE), 0);
}

#[test]
fn mempool_is_lifo() {
    let mut id: u32 = 0;
    let mut pool = Mempool::allocate(&mut id, 16, 2048).expect("pool");
    assert_eq!(pool.free_count(), 16);
    let a = pool.alloc_buf().expect("buf");
    assert_eq!(a, 15);
    let b = pool.alloc_buf().expect("buf");
    assert_eq!(b, 14);
    pool.free_buf(a);
    assert_eq!(pool.alloc_buf(), Some(15));
    assert_eq!(pool.free_count(), 14);
}

#[test]
fn mempool_exhaustion_is_soft() {
    let mut id: u32 = 0;
    let mut pool = Mempool::allocate(&mut id, 2, 2048).expect("pool");
    assert!(pool.alloc_buf().is_some());
    assert!(pool.alloc_buf().is_some());
    assert_eq!(pool.alloc_buf(), None);
}

#[test]
fn init_rejects_too_many_queues() {
    let r = IxgbeDevice::init("0000:03:00.0", regs::MAX_QUEUES + 1, 1);
    assert!(matches!(r, Err(IxgbeError::TooManyQueues)));
    let r = IxgbeDevice::init("0000:03:00.0", 1, regs::MAX_QUEUES + 1);
    assert!(matches!(r, Err(IxgbeError::TooManyQueues)));
}

#[test]
fn init_brings_the_device_up() {
    let dev = fresh_device();
    assert_eq!(dev.driver_name(), "ixy-ixgbe");
    // The waits ended with the awaited bits in place.
    assert_eq!(dev.get_reg32(regs::IXGBE_EEC) & regs::IXGBE_EEC_ARD, regs::IXGBE_EEC_ARD);
    assert_eq!(dev.get_reg32(regs::IXGBE_CTRL) & regs::IXGBE_CTRL_RST_MASK, 0);
    // Receive and transmit DMA are on, promiscuous mode is on.
    assert_eq!(dev.get_reg32(regs::IXGBE_RXCTRL) & regs::IXGBE_RXCTRL_RXEN, 1);
    assert_eq!(dev.get_reg32(regs::IXGBE_DMATXCTL), regs::IXGBE_DMATXCTL_TE);
    let fctrl = dev.get_reg32(regs::IXGBE_FCTRL);
    assert_eq!(fctrl & regs::IXGBE_FCTRL_MPE, regs::IXGBE_FCTRL_MPE);
    assert_eq!(fctrl & regs::IXGBE_FCTRL_UPE, regs::IXGBE_FCTRL_UPE);
    // No link is modelled, so the speed reads zero.
    assert_eq!(dev.get_link_speed(), 0);
    // The ring starts full from the device's view.
    assert_eq!(dev.rx_queues[0].num_entries, 512);
    assert_eq!(dev.rx_queues[0].bufs.len(), 512);
    assert_eq!(dev.rx_queues[0].pool.free_count(), 4096 - 512);
}

#[test]
fn link_comes_up_when_the_register_says_so() {
    let mut dev = fresh_device();
    dev.set_reg32(
        regs::IXGBE_LINKS,
        regs::IXGBE_LINKS_UP | regs::IXGBE_LINKS_SPEED_10G_82599,
    );
    assert_eq!(dev.get_link_speed(), 10000);
    assert_eq!(dev.wait_for_link(), 10000);
}

#[test]
fn empty_rx_returns_nothing_and_leaves_rdt_alone() {
    let mut dev = fresh_device();
    let rdt_before = dev.get_reg32(0x01018);
    assert_eq!(rdt_before, 511);
    let pkts = dev.rx_batch(0, 32).expect("rx");
    assert!(pkts.is_empty());
    assert_eq!(dev.get_reg32(0x01018), 511);
}

#[test]
fn rx_yields_each_delivered_frame_once() {
    let mut dev = fresh_device();
    assert!(dev.device_receive(0, 60, true));
    assert!(dev.device_receive(0, 61, true));
    assert!(dev.device_receive(0, 62, true));
    let pkts = dev.rx_batch(0, 32).expect("rx");
    assert_eq!(pkts.len(), 3);
    assert_eq!(pkts[0].len, 60);
    assert_eq!(pkts[1].len, 61);
    assert_eq!(pkts[2].len, 62);
    assert_eq!(pkts[0].pool_id, 0);
    // Buffers came off the ring; the refills came off the pool.
    assert_ne!(pkts[0].buf_index, pkts[1].buf_index);
    assert_ne!(pkts[1].buf_index, pkts[2].buf_index);
    assert_eq!(dev.rx_queues[0].rx_index, 3);
    assert_eq!(dev.rx_queues[0].pool.free_count(), 4096 - 512 - 3);
    // The tail register points at the last consumed slot.
    assert_eq!(dev.get_reg32(0x01018), 2);
    // Nothing more is pending.
    let pkts = dev.rx_batch(0, 32).expect("rx");
    assert!(pkts.is_empty());
}

#[test]
fn rx_respects_the_batch_limit() {
    let mut dev = fresh_device();
    for _ in 0..8 {
        assert!(dev.device_receive(0, 64, true));
    }
    let pkts = dev.rx_batch(0, 5).expect("rx");
    assert_eq!(pkts.len(), 5);
    let pkts = dev.rx_batch(0, 5).expect("rx");
    assert_eq!(pkts.len(), 3);
}

#[test]
fn rx_rejects_multi_segment_frames() {
    let mut dev = fresh_device();
    assert!(dev.device_receive(0, 2048, false));
    let rx_index_before = dev.rx_queues[0].rx_index;
    let r = dev.rx_batch(0, 32);
    assert!(matches!(r, Err(IxgbeError::MultiSegmentPacket)));
    assert_eq!(dev.rx_queues[0].rx_index, rx_index_before);
}

#[test]
fn rx_wraps_around_the_ring() {
    let mut dev = fresh_device();
    let mut live = Vec::new();
    for _ in 0..517 {
        assert!(dev.device_receive(0, 64, true));
        let mut pkts = dev.rx_batch(0, 4).expect("rx");
        live.append(&mut pkts);
    }
    assert_eq!(live.len(), 517);
    assert_eq!(dev.rx_queues[0].rx_index, 5);
    // Pool conservation: free plus ring plus live packets is the whole pool.
    assert_eq!(
        dev.rx_queues[0].pool.free_count() + 512 + live.len(),
        4096
    );
}

#[test]
fn tx_backpressure_leaves_one_slot_empty() {
    let mut dev = fresh_device();
    let mut pkts = Vec::new();
    for _ in 0..600 {
        assert!(dev.device_receive(0, 64, true));
        let mut got = dev.rx_batch(0, 1).expect("rx");
        pkts.append(&mut got);
    }
    assert_eq!(pkts.len(), 600);
    // No transmit completions happen, so exactly 511 fit: one slot stays
    // empty to keep full and empty distinguishable.
    let sent = dev.tx_batch(0, &mut pkts);
    assert_eq!(sent, 511);
    assert_eq!(pkts.len(), 600 - 511);
    assert_eq!(dev.tx_queues[0].tx_index, 511);
    assert_eq!(dev.tx_queues[0].inflight.len(), 511);
    assert_eq!(dev.get_reg32(0x06018), 511);
    // Still full on a second try.
    let sent = dev.tx_batch(0, &mut pkts);
    assert_eq!(sent, 0);
    assert_eq!(pkts.len(), 89);
}

#[test]
fn forwarding_conserves_the_pool() {
    let mut dev = fresh_device();
    for _ in 0..100 {
        assert!(dev.device_receive(0, 64, true));
        let mut pkts = dev.rx_batch(0, 4).expect("rx");
        assert_eq!(pkts.len(), 1);
        let sent = dev.tx_batch(0, &mut pkts);
        assert_eq!(sent, 1);
        assert!(pkts.is_empty());
        assert!(dev.device_transmit(0));
    }
    let q = &dev.tx_queues[0];
    // The in-flight queue length always equals the cursor distance.
    let dist = (q.tx_index as i64 - q.clean_index as i64).rem_euclid(512) as usize;
    assert_eq!(q.inflight.len(), dist);
    // Every buffer is in the free stack, on the ring, or in flight.
    assert_eq!(
        dev.rx_queues[0].pool.free_count() + 512 + q.inflight.len(),
        4096
    );
    // Batched cleaning reclaimed in multiples of the batch size.
    assert_eq!(q.clean_index % 32, 0);
}

#[test]
fn tx_cleans_in_batches_of_thirty_two() {
    let mut dev = fresh_device();
    let mut live = Vec::new();
    for _ in 0..40 {
        assert!(dev.device_receive(0, 64, true));
        let mut got = dev.rx_batch(0, 1).expect("rx");
        live.append(&mut got);
    }
    let sent = dev.tx_batch(0, &mut live);
    assert_eq!(sent, 40);
    for _ in 0..40 {
        assert!(dev.device_transmit(0));
    }
    // Nothing was cleaned yet; the next batch call reclaims one full batch.
    assert_eq!(dev.tx_queues[0].inflight.len(), 40);
    let free_before = dev.rx_queues[0].pool.free_count();
    let sent = dev.tx_batch(0, &mut Vec::new());
    assert_eq!(sent, 0);
    assert_eq!(dev.tx_queues[0].inflight.len(), 8);
    assert_eq!(dev.tx_queues[0].clean_index, 32);
    assert_eq!(dev.rx_queues[0].pool.free_count(), free_before + 32);
}

#[test]
fn promiscuous_toggle_clears_both_bits() {
    let mut dev = fresh_device();
    dev.set_promisc(true);
    let fctrl = dev.get_reg32(regs::IXGBE_FCTRL);
    assert_ne!(fctrl & (regs::IXGBE_FCTRL_MPE | regs::IXGBE_FCTRL_UPE), 0);
    dev.set_promisc(false);
    let fctrl = dev.get_reg32(regs::IXGBE_FCTRL);
    assert_eq!(fctrl & regs::IXGBE_FCTRL_MPE, 0);
    assert_eq!(fctrl & regs::IXGBE_FCTRL_UPE, 0);
}

#[test]
fn stats_accumulate_split_counters() {
    let mut dev = fresh_device();
    let mut stats = DeviceStats::new();
    dev.read_stats(&mut stats);
    assert_eq!(stats.rx_pkts, 0);
    assert_eq!(stats.rx_bytes, 0);
    dev.set_reg32(regs::IXGBE_GPRC, 5);
    dev.set_reg32(regs::IXGBE_GPTC, 7);
    dev.set_reg32(regs::IXGBE_GORCL, 4);
    dev.set_reg32(regs::IXGBE_GORCH, 2);
    dev.set_reg32(regs::IXGBE_GOTCL, 1);
    dev.read_stats(&mut stats);
    assert_eq!(stats.rx_pkts, 5);
    assert_eq!(stats.tx_pkts, 7);
    assert_eq!(stats.rx_bytes, (2u64 << 32) | 4);
    assert_eq!(stats.tx_bytes, 1);
    // The counters clear on read, so a second read adds nothing.
    assert_eq!(dev.get_reg32(regs::IXGBE_GPRC), 0);
    assert_eq!(dev.get_reg32(regs::IXGBE_GORCH), 0);
    dev.read_stats(&mut stats);
    assert_eq!(stats.rx_pkts, 5);
    assert_eq!(stats.rx_bytes, (2u64 << 32) | 4);
}

#[test]
fn reset_stats_zeroes_the_counters() {
    let mut dev = fresh_device();
    dev.set_reg32(regs::IXGBE_GPRC, 9);
    dev.set_reg32(regs::IXGBE_GOTCH, 3);
    dev.reset_stats();
    assert_eq!(dev.get_reg32(regs::IXGBE_GPRC), 0);
    assert_eq!(dev.get_reg32(regs::IXGBE_GOTCH), 0);
    let mut stats = DeviceStats::new();
    dev.read_stats(&mut stats);
    assert_eq!(stats.rx_pkts, 0);
    assert_eq!(stats.tx_bytes, 0);
}

#[test]
fn returned_packets_refill_the_pool() {
    let mut dev = fresh_device();
    assert!(dev.device_receive(0, 60, true));
    let mut pkts = dev.rx_batch(0, 1).expect("rx");
    let pkt = pkts.pop().expect("packet");
    let buf = pkt.buf_index;
    assert_eq!(dev.rx_queues[0].pool.free_count(), 4096 - 512 - 1);
    dev.return_packet(pkt);
    assert_eq!(dev.rx_queues[0].pool.free_count(), 4096 - 512);
    // The returned buffer is on top of the stack and is reused first.
    assert_eq!(dev.rx_queues[0].pool.free_stack.last(), Some(&buf));
}

#[test]
fn init_programs_the_ring_registers() {
    let dev = fresh_device();
    // Receive ring 0: base, length, cursors, enable.
    let phys = dev.rx_queues[0].ring_phys;
    assert_eq!(dev.get_reg32(0x01000), (phys & 0xFFFF_FFFF) as u32);
    assert_eq!(dev.get_reg32(0x01004), (phys >> 32) as u32);
    assert_eq!(dev.get_reg32(0x01008), 512 * 16);
    assert_eq!(dev.get_reg32(0x01010), 0);
    assert_eq!(dev.get_reg32(0x01018), 511);
    assert_ne!(dev.get_reg32(0x01028) & regs::IXGBE_RXDCTL_ENABLE, 0);
    // Transmit ring 0: base, length, cursors, thresholds, enable.
    let phys = dev.tx_queues[0].ring_phys;
    assert_eq!(dev.get_reg32(0x06000), (phys & 0xFFFF_FFFF) as u32);
    assert_eq!(dev.get_reg32(0x06008), 512 * 16);
    assert_eq!(dev.get_reg32(0x06010), 0);
    assert_eq!(dev.get_reg32(0x06018), 0);
    assert_eq!(dev.get_reg32(0x06028) & 0x003F_3F3F, 0x0004_0824);
    assert_ne!(dev.get_reg32(0x06028) & regs::IXGBE_TXDCTL_ENABLE, 0);
    // Link setup: 10G serial, XAUI, negotiation restarted.
    let autoc = dev.get_reg32(regs::IXGBE_AUTOC);
    assert_eq!(autoc & regs::IXGBE_AUTOC_LMS_MASK, regs::IXGBE_AUTOC_LMS_10G_SERIAL);
    assert_eq!(autoc & regs::IXGBE_AUTOC_10G_PMA_PMD_MASK, regs::IXGBE_AUTOC_10G_XAUI);
    assert_ne!(autoc & regs::IXGBE_AUTOC_AN_RESTART, 0);
    // Interrupts masked, packet buffers sized, fresh ring memory all-ones.
    assert_eq!(dev.get_reg32(regs::IXGBE_EIMC), 0x7FFF_FFFF);
    assert_eq!(dev.get_reg32(0x03C00), regs::IXGBE_RXPBSIZE_128KB);
    assert_eq!(dev.get_reg32(0x03C04), 0);
    assert_eq!(dev.get_reg32(0x0CC00), regs::IXGBE_TXPBSIZE_40KB);
    assert_eq!(dev.tx_queues[0].descriptors[0].w3, 0xFFFF_FFFF);
}

#[test]
fn tx_descriptor_layout() {
    let d = ixgbe::desc::make_tx_read_desc(0x1234_5678_9ABC_DEF0, 60);
    assert_eq!(d.w0, 0x9ABC_DEF0);
    assert_eq!(d.w1, 0x1234_5678);
    assert_eq!(d.w2 & 0xFFFF, 60);
    assert_ne!(d.w2 & regs::IXGBE_ADVTXD_DCMD_EOP, 0);
    assert_ne!(d.w2 & regs::IXGBE_ADVTXD_DCMD_RS, 0);
    assert_ne!(d.w2 & regs::IXGBE_ADVTXD_DCMD_IFCS, 0);
    assert_ne!(d.w2 & regs::IXGBE_ADVTXD_DCMD_DEXT, 0);
    assert_eq!(d.w3, 60 << regs::IXGBE_ADVTXD_PAYLEN_SHIFT);
}

#[test]
fn rx_descriptor_arming_clears_status() {
    let d = ixgbe::desc::make_rx_read_desc(0x8000_0000);
    assert_eq!(d.w0, 0x8000_0000);
    assert_eq!(d.w1, 0);
    assert_eq!(d.w2, 0);
    assert_eq!(d.w3, 0);
}

#[test]
fn device_refuses_to_overrun_unreclaimed_slots() {
    let mut dev = fresh_device();
    for _ in 0..512 {
        assert!(dev.device_receive(0, 64, true));
    }
    // Every slot completed and none reclaimed: the ring is full for the
    // device.
    assert!(!dev.device_receive(0, 64, true));
    let pkts = dev.rx_batch(0, 1).expect("rx");
    assert_eq!(pkts.len(), 1);
    assert!(dev.device_receive(0, 64, true));
}

#[test]
fn tx_writes_the_descriptor_it_promised() {
    let mut dev = fresh_device();
    assert!(dev.device_receive(0, 99, true));
    let mut pkts = dev.rx_batch(0, 1).expect("rx");
    let buf = pkts[0].buf_index;
    let sent = dev.tx_batch(0, &mut pkts);
    assert_eq!(sent, 1);
    let d = &dev.tx_queues[0].descriptors[0];
    let phys = dev.rx_queues[0].pool.phys_of(buf);
    assert_eq!(d.w0, (phys & 0xFFFF_FFFF) as u32);
    assert_eq!(d.w1, (phys >> 32) as u32);
    assert_eq!(d.w2 & 0xFFFF, 99);
    assert_eq!(d.w3, 99 << regs::IXGBE_ADVTXD_PAYLEN_SHIFT);
    assert_eq!(
        dev.tx_queues[0].inflight.front().map(|s| s.buf_index),
        Some(buf)
    );
}

#[test]
fn rx_never_skips_an_unfinished_slot() {
    let mut dev = fresh_device();
    // Mark a later slot done while the head slot is still pending; the scan
    // must stop at the head and deliver nothing.
    dev.rx_queues[0].descriptors[1] = ixgbe::desc::Descriptor {
        w0: 0,
        w1: 0,
        w2: regs::IXGBE_RXDADV_STAT_DD | regs::IXGBE_RXDADV_STAT_EOP,
        w3: 42,
    };
    let pkts = dev.rx_batch(0, 32).expect("rx");
    assert!(pkts.is_empty());
    assert_eq!(dev.rx_queues[0].rx_index, 0);
}

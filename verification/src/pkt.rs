//! Packets, accumulated device statistics, and the driver's error type.

use vstd::prelude::*;

verus! {

/// A transferable ticket naming one in-use buffer of one pool.  The receive
/// path hands packets out; the transmit path takes them and returns their
/// buffers to the pool once the device has sent them.
pub struct Packet {
    /// Virtual address of the packet data.
    pub addr: u64,
    /// Bytes of packet data in the buffer.
    pub len: u16,
    /// The queue whose pool owns the buffer.
    pub pool_id: u32,
    /// The buffer the packet occupies.
    pub buf_index: u32,
}

impl Packet {
    /// Virtual address of the packet data.
    pub fn get_addr(&self) -> (r: u64)
        ensures r == self.addr,
    {
        self.addr
    }

    /// Bytes of packet data.
    pub fn get_len(&self) -> (r: u16)
        ensures r == self.len,
    {
        self.len
    }
}

/// Packet and byte counters accumulated over `read_stats` calls.
pub struct DeviceStats {
    pub rx_pkts: u64,
    pub tx_pkts: u64,
    pub rx_bytes: u64,
    pub tx_bytes: u64,
}

impl DeviceStats {
    /// Counters starting at zero.
    pub fn new() -> (r: DeviceStats)
        ensures
            r.rx_pkts == 0 && r.tx_pkts == 0 && r.rx_bytes == 0 && r.tx_bytes == 0,
    {
        DeviceStats { rx_pkts: 0, tx_pkts: 0, rx_bytes: 0, tx_bytes: 0 }
    }
}

/// What can go wrong: configuration and allocation failures at init, and the
/// one data-path protocol violation, a completed descriptor without its
/// end-of-packet bit (the device split a frame over several buffers).
#[derive(Clone, Copy, PartialEq, Eq, Structural, Debug)]
pub enum IxgbeError {
    /// More queues asked for than the device supports.
    TooManyQueues,
    /// A ring size that is not a power of two.
    QueueSizeNotPow2,
    /// The DMA space cannot back another ring or pool.
    DmaExhausted,
    /// A received frame did not fit one buffer.
    MultiSegmentPacket,
}

} // verus!

//! User-space driver model for the Intel 82599 family of 10-gigabit
//! Ethernet controllers.
//!
//! The crate verifies the driver's logic: the datasheet-ordered bring-up
//! sequence, the packet-buffer pool with its ownership discipline, and the
//! lock-free receive and transmit descriptor rings.  The device's BAR0
//! register window, the DMA regions and the descriptor rings are modelled as
//! plain memory owned by the library; the volatile accesses and the PCI
//! mapping that a deployment on real hardware needs are ordinary I/O and live
//! in the surrounding harness.

pub mod ring;
pub mod regs;
pub mod mmio;
pub mod dma;
pub mod mempool;
pub mod desc;
pub mod pkt;
pub mod device;
pub mod init;
pub mod rxtx;

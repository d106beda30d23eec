//! Model of the device's BAR0 register window.
//!
//! The window is an array of 32-bit registers addressed by byte offset.  On
//! real hardware every access is a volatile load or store of the mapped PCI
//! region; the library holds the window as plain memory and states exactly
//! which register each operation touches, so that the sequencing logic above
//! it is verified.  Each access is bounds-checked against the window length.
//!
//! The registers that the device itself changes (reset completion, EEPROM
//! auto-read, DMA init, queue enable) are covered by the wait operations: a
//! wait returns only once the device has brought the bits to the awaited
//! state, so the model records that state.  The timed polling loop around a
//! wait is I/O and belongs to the harness.

use vstd::prelude::*;

verus! {

/// A BAR0 register window of `regs.len() * 4` bytes.
pub struct MmioRegion {
    regs: Vec<u32>,
}

impl MmioRegion {
    /// The registers, one 32-bit value per 4-byte offset.
    pub closed spec fn view(&self) -> Seq<u32> {
        self.regs@
    }

    /// Byte length of the window.
    pub open spec fn len_bytes(&self) -> int {
        self@.len() as int * 4
    }

    /// The value of the register at byte offset `reg`.
    pub open spec fn reg_of(&self, reg: u32) -> u32 {
        self@[reg as int / 4]
    }

    /// An offset that the window accepts: 32-bit aligned and in bounds.
    pub open spec fn in_bounds(&self, reg: u32) -> bool {
        reg % 4 == 0 && reg + 4 <= self.len_bytes()
    }

    /// A fresh window of `num_regs` registers, all zero.
    pub fn new_zeroed(num_regs: usize) -> (r: MmioRegion)
        ensures
            r@ == Seq::new(num_regs as nat, |i: int| 0u32),
    {
        let mut regs: Vec<u32> = Vec::new();
        let mut i: usize = 0;
        while i < num_regs
            invariant
                i <= num_regs,
                regs@ == Seq::new(i as nat, |j: int| 0u32),
            decreases num_regs - i,
        {
            regs.push(0);
            i = i + 1;
            proof {
                assert(regs@ =~= Seq::new(i as nat, |j: int| 0u32));
            }
        }
        MmioRegion { regs }
    }

    /// Read the 32-bit register at byte offset `reg`.
    pub fn get_reg32(&self, reg: u32) -> (r: u32)
        requires
            self.in_bounds(reg),
        ensures
            r == self.reg_of(reg),
    {
        self.regs[(reg / 4) as usize]
    }

    /// Write the 32-bit register at byte offset `reg`.
    pub fn set_reg32(&mut self, reg: u32, value: u32)
        requires
            old(self).in_bounds(reg),
        ensures
            final(self)@ == old(self)@.update(reg as int / 4, value),
    {
        self.regs.set((reg / 4) as usize, value);
    }

    /// Set the bits of `flags` in the register at `reg`.
    pub fn set_flags32(&mut self, reg: u32, flags: u32)
        requires
            old(self).in_bounds(reg),
        ensures
            final(self)@ == old(self)@.update(reg as int / 4, old(self).reg_of(reg) | flags),
    {
        let v = self.get_reg32(reg);
        self.set_reg32(reg, v | flags);
    }

    /// Clear the bits of `flags` in the register at `reg`.
    pub fn clear_flags32(&mut self, reg: u32, flags: u32)
        requires
            old(self).in_bounds(reg),
        ensures
            final(self)@ == old(self)@.update(reg as int / 4, old(self).reg_of(reg) & !flags),
    {
        let v = self.get_reg32(reg);
        self.set_reg32(reg, v & !flags);
    }

    /// Wait until the device has set every bit of `mask` in `reg`.  The model
    /// records the state in which the wait ends; the poll-and-sleep loop that
    /// spans the wait on real hardware is the harness's.
    pub fn wait_set_reg32(&mut self, reg: u32, mask: u32)
        requires
            old(self).in_bounds(reg),
        ensures
            final(self)@ == old(self)@.update(reg as int / 4, old(self).reg_of(reg) | mask),
            final(self).reg_of(reg) & mask == mask,
    {
        let v = self.get_reg32(reg);
        let nv = v | mask;
        proof {
            assert((nv & mask == mask) == ((v | mask) & mask == mask)) by (bit_vector)
                requires nv == v | mask;
            assert((v | mask) & mask == mask) by (bit_vector);
        }
        self.set_reg32(reg, nv);
        proof {
            assert(self.reg_of(reg) == nv);
        }
    }

    /// Wait until the device has cleared every bit of `mask` in `reg`.  As
    /// with the set-wait, the model records the state in which the wait ends.
    pub fn wait_clear_reg32(&mut self, reg: u32, mask: u32)
        requires
            old(self).in_bounds(reg),
        ensures
            final(self)@ == old(self)@.update(reg as int / 4, old(self).reg_of(reg) & !mask),
            final(self).reg_of(reg) & mask == 0,
    {
        let v = self.get_reg32(reg);
        let nv = v & !mask;
        proof {
            assert((v & !mask) & mask == 0) by (bit_vector);
        }
        self.set_reg32(reg, nv);
    }
}

} // verus!

//! Page/offset splitting of 16-bit logical register addresses.
//!
//! Registers are selected by writing the page that contains them into
//! the page-select registers -- but in the 1-byte addressing mode (the
//! default), only bits 15:8 of the address are significant as the page:
//! bits 31:16 are hardcoded and bits 7:0 travel with the bus
//! transaction itself.

use vstd::prelude::*;

verus! {

pub const PAGE_ADDR_7_0: u8 = 0xfc;

pub const PAGE_ADDR_15_8: u8 = 0xfd;

pub const PAGE_ADDR_23_16: u8 = 0xfe;

pub const PAGE_ADDR_31_24: u8 = 0xff;

/// The page-select value for a logical address: its high byte.
pub fn page(addr: u16) -> (p: u8)
    ensures
        p == addr / 256,
{
    proof {
        assert((addr >> 8) as u8 == addr / 256) by (bit_vector);
    }
    (addr >> 8) as u8
}

/// The in-page offset for a logical address: its low byte.
pub fn offset(addr: u16) -> (o: u8)
    ensures
        o == addr % 256,
{
    proof {
        assert((addr & 0xff) as u8 == addr % 256) by (bit_vector);
    }
    (addr & 0xff) as u8
}

} // verus!

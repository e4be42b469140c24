//! Register map and value codec for the Renesas 8A3XXXX (ClockMatrix)
//! family of programmable clock-generator devices.
//!
//! The crate describes every addressable register of the device family
//! (a name, an offset within a module, and a width/format tag) and
//! translates between raw device byte sequences and the semantic values
//! they carry: plain little-endian integers, fixed-point frequency
//! ratios, and epoch-based timestamps.  It also splits 16-bit logical
//! register addresses into the page/offset pair used on the narrow bus,
//! and checks the table-wide integrity invariants: no two registers may
//! occupy overlapping byte ranges, and no two registers may share a
//! name.

mod addr;
mod contents;
mod payload;
mod table;
mod validate;

pub use addr::offset;
pub use addr::page;
pub use addr::PAGE_ADDR_15_8;
pub use addr::PAGE_ADDR_23_16;
pub use addr::PAGE_ADDR_31_24;
pub use addr::PAGE_ADDR_7_0;
pub use contents::spec_size;
pub use contents::Contents;
pub use payload::le_bytes;
pub use payload::le_value;
pub use payload::lemma_decode_le;
pub use payload::lemma_le_bytes_value;
pub use payload::lemma_round_trip;
pub use payload::spec_value;
pub use payload::Payload;
pub use table::modules;
pub use table::Module;
pub use table::Register;
pub use validate::all_names;
pub use validate::bases_ranges;
pub use validate::bases_scan_end;
pub use validate::bases_scan_ok;
pub use validate::check_addresses;
pub use validate::check_names;
pub use validate::distinct;
pub use validate::lemma_scan_ranges_disjoint;
pub use validate::module_names;
pub use validate::mods_scan_end;
pub use validate::mods_scan_ok;
pub use validate::name_views;
pub use validate::names_unique;
pub use validate::ranges_separated;
pub use validate::reg_ranges;
pub use validate::regs_scan_end;
pub use validate::regs_scan_ok;
pub use validate::table_addresses_ok;
pub use validate::table_ranges;

//! The register table: every addressable register of the device
//! family, grouped into modules.
//!
//! The table is compiled from the family's register description and is
//! read-only data: it is built once and never mutated.  A module that
//! is replicated at several locations in the address space carries one
//! base address per instance; every instance has the same registers.

use crate::contents::Contents;
use crate::validate::bases_scan_end;
use crate::validate::lemma_bases_scan1;
use crate::validate::lemma_bases_scan2;
use crate::validate::lemma_regs_scan2;
use crate::validate::lemma_regs_scan3;
use crate::validate::lemma_regs_scan4;
use crate::validate::mods_scan_ok;
use crate::validate::regs_scan_end;
use crate::validate::table_addresses_ok;
use vstd::prelude::*;

verus! {

/// A named, fixed-width storage location at a fixed offset within a
/// module.
#[derive(Debug)]
pub struct Register {
    pub name: String,
    pub offset: u16,
    pub contents: Contents,
}

/// A named functional unit of the device, instantiated at one or more
/// base addresses, with a fixed set of registers.
#[derive(Debug)]
pub struct Module {
    pub name: String,
    pub base: Vec<u16>,
    pub registers: Vec<Register>,
}

fn reg(name: &str, offset: u16, contents: Contents) -> (r: Register)
    ensures
        r.name@ == name@,
        r.offset == offset,
        r.contents == contents,
{
    Register { name: String::from_str(name), offset, contents }
}

/// The full, ordered, immutable register table of the device family.
/// Modules appear in ascending order of their lowest base address, and
/// the table provably passes the ascending address scan: no two
/// register byte ranges anywhere in it overlap.
pub fn modules() -> (res: Vec<Module>)
    ensures
        res@.len() == 5,
        forall|i: int| 0 <= i < res@.len() ==> #[trigger] res@[i].base@.len() >= 1,
        table_addresses_ok(res@),
{
    let mut res: Vec<Module> = Vec::new();

    let mut base: Vec<u16> = Vec::new();
    base.push(0xc03c);
    let mut registers: Vec<Register> = Vec::new();
    registers.push(reg("DPLL_SYS_STATUS", 0x0000, Contents::Byte));
    registers.push(reg("DPLL_SYS_APLL_STATUS", 0x0001, Contents::Byte));
    registers.push(reg("USER_GPIO0_TO_7_STATUS", 0x0002, Contents::Byte));
    registers.push(reg("USER_GPIO8_TO_15_STATUS", 0x0003, Contents::Byte));
    res.push(Module { name: String::from_str("status"), base, registers });

    let mut base: Vec<u16> = Vec::new();
    base.push(0xc500);
    base.push(0xc520);
    let mut registers: Vec<Register> = Vec::new();
    registers.push(reg("TOD_CFG", 0x0000, Contents::Byte));
    registers.push(reg("TOD_VALUE", 0x0001, Contents::TimeOfDay));
    res.push(Module { name: String::from_str("tod"), base, registers });

    let mut base: Vec<u16> = Vec::new();
    base.push(0xc600);
    base.push(0xc680);
    let mut registers: Vec<Register> = Vec::new();
    registers.push(reg("DPLL_CTRL", 0x0000, Contents::Byte));
    registers.push(reg("DPLL_PHASE_OFFSET", 0x0002, Contents::Word32));
    registers.push(reg("DPLL_FREQ", 0x0008, Contents::Frequency));
    registers.push(reg("DPLL_TARGET", 0x0010, Contents::Word48));
    res.push(Module { name: String::from_str("dpll"), base, registers });

    let mut base: Vec<u16> = Vec::new();
    base.push(0xc700);
    base.push(0xc710);
    let mut registers: Vec<Register> = Vec::new();
    registers.push(reg("OUT_DIV", 0x0000, Contents::Word32));
    registers.push(reg("OUT_PHASE_ADJ", 0x0004, Contents::Word24));
    registers.push(reg("OUT_CTRL", 0x0008, Contents::Word));
    registers.push(reg("OUT_MISC", 0x000b, Contents::Word40));
    res.push(Module { name: String::from_str("output"), base, registers });

    let mut base: Vec<u16> = Vec::new();
    base.push(0xcf68);
    let mut registers: Vec<Register> = Vec::new();
    registers.push(reg("EEPROM_I2C_ADDR", 0x0000, Contents::Byte));
    registers.push(reg("EEPROM_OFFSET", 0x0001, Contents::Word));
    registers.push(reg("EEPROM_CMD", 0x0003, Contents::Word));
    res.push(Module { name: String::from_str("eeprom"), base, registers });

    proof {
        lemma_table_scan(res@);
    }
    res
}

/// The concrete table passes the ascending address scan: each module
/// instance's registers rise monotonically, and each module begins at
/// or after the end of the one before it.
proof fn lemma_table_scan(t: Seq<Module>)
    requires
        t.len() == 5,
        t[0].base@ =~= seq![0xc03cu16],
        t[1].base@ =~= seq![0xc500u16, 0xc520u16],
        t[2].base@ =~= seq![0xc600u16, 0xc680u16],
        t[3].base@ =~= seq![0xc700u16, 0xc710u16],
        t[4].base@ =~= seq![0xcf68u16],
        t[0].registers@.len() == 4,
        t[0].registers@[0].offset == 0x0000 && t[0].registers@[0].contents is Byte,
        t[0].registers@[1].offset == 0x0001 && t[0].registers@[1].contents is Byte,
        t[0].registers@[2].offset == 0x0002 && t[0].registers@[2].contents is Byte,
        t[0].registers@[3].offset == 0x0003 && t[0].registers@[3].contents is Byte,
        t[1].registers@.len() == 2,
        t[1].registers@[0].offset == 0x0000 && t[1].registers@[0].contents is Byte,
        t[1].registers@[1].offset == 0x0001 && t[1].registers@[1].contents is TimeOfDay,
        t[2].registers@.len() == 4,
        t[2].registers@[0].offset == 0x0000 && t[2].registers@[0].contents is Byte,
        t[2].registers@[1].offset == 0x0002 && t[2].registers@[1].contents is Word32,
        t[2].registers@[2].offset == 0x0008 && t[2].registers@[2].contents is Frequency,
        t[2].registers@[3].offset == 0x0010 && t[2].registers@[3].contents is Word48,
        t[3].registers@.len() == 4,
        t[3].registers@[0].offset == 0x0000 && t[3].registers@[0].contents is Word32,
        t[3].registers@[1].offset == 0x0004 && t[3].registers@[1].contents is Word24,
        t[3].registers@[2].offset == 0x0008 && t[3].registers@[2].contents is Word,
        t[3].registers@[3].offset == 0x000b && t[3].registers@[3].contents is Word40,
        t[4].registers@.len() == 3,
        t[4].registers@[0].offset == 0x0000 && t[4].registers@[0].contents is Byte,
        t[4].registers@[1].offset == 0x0001 && t[4].registers@[1].contents is Word,
        t[4].registers@[2].offset == 0x0003 && t[4].registers@[2].contents is Word,
    ensures
        table_addresses_ok(t),
{
    let regs0 = t[0].registers@;
    let regs1 = t[1].registers@;
    let regs2 = t[2].registers@;
    let regs3 = t[3].registers@;
    let regs4 = t[4].registers@;
    assert(regs0 =~= seq![regs0[0], regs0[1], regs0[2], regs0[3]]);
    assert(regs1 =~= seq![regs1[0], regs1[1]]);
    assert(regs2 =~= seq![regs2[0], regs2[1], regs2[2], regs2[3]]);
    assert(regs3 =~= seq![regs3[0], regs3[1], regs3[2], regs3[3]]);
    assert(regs4 =~= seq![regs4[0], regs4[1], regs4[2]]);

    lemma_regs_scan4(regs0[0], regs0[1], regs0[2], regs0[3], 0xc03c, 0);
    lemma_bases_scan1(0xc03c, regs0, 0);
    let s1 = bases_scan_end(t[0].base@, regs0, 0);
    assert(s1 == 0xc040);

    lemma_regs_scan2(regs1[0], regs1[1], 0xc500, s1);
    lemma_regs_scan2(regs1[0], regs1[1], 0xc520, regs_scan_end(regs1, 0xc500, s1));
    lemma_bases_scan2(0xc500, 0xc520, regs1, s1);
    let s2 = bases_scan_end(t[1].base@, regs1, s1);
    assert(s2 == 0xc52c);

    lemma_regs_scan4(regs2[0], regs2[1], regs2[2], regs2[3], 0xc600, s2);
    lemma_regs_scan4(regs2[0], regs2[1], regs2[2], regs2[3], 0xc680, regs_scan_end(
        regs2,
        0xc600,
        s2,
    ));
    lemma_bases_scan2(0xc600, 0xc680, regs2, s2);
    let s3 = bases_scan_end(t[2].base@, regs2, s2);
    assert(s3 == 0xc696);

    lemma_regs_scan4(regs3[0], regs3[1], regs3[2], regs3[3], 0xc700, s3);
    lemma_regs_scan4(regs3[0], regs3[1], regs3[2], regs3[3], 0xc710, regs_scan_end(
        regs3,
        0xc700,
        s3,
    ));
    lemma_bases_scan2(0xc700, 0xc710, regs3, s3);
    let s4 = bases_scan_end(t[3].base@, regs3, s3);
    assert(s4 == 0xc720);

    lemma_regs_scan3(regs4[0], regs4[1], regs4[2], 0xcf68, s4);
    lemma_bases_scan1(0xcf68, regs4, s4);
    let s5 = bases_scan_end(t[4].base@, regs4, s4);
    assert(s5 == 0xcf6d);

    assert(t.skip(5) =~= Seq::<Module>::empty());
    assert(t.skip(4).skip(1) =~= t.skip(5));
    assert(t.skip(3).skip(1) =~= t.skip(4));
    assert(t.skip(2).skip(1) =~= t.skip(3));
    assert(t.skip(1).skip(1) =~= t.skip(2));
    assert(mods_scan_ok(t.skip(5), s5));
    assert(mods_scan_ok(t.skip(4), s4));
    assert(mods_scan_ok(t.skip(3), s3));
    assert(mods_scan_ok(t.skip(2), s2));
    assert(mods_scan_ok(t.skip(1), s1));
    assert(mods_scan_ok(t, 0));
}

} // verus!

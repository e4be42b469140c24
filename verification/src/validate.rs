//! Table-wide integrity checks.
//!
//! The register table describes a flat address space shared by every
//! module instance, so its invariants are global: no two register byte
//! ranges anywhere in the table may overlap, and no two registers
//! anywhere in the table may share a name.  Both checks walk the whole
//! table; a failure is a defect in the table itself, to be caught
//! before it ships, not a runtime condition.

use crate::contents::spec_size;
use crate::table::Module;
use crate::table::Register;
use vstd::prelude::*;

verus! {

// ------------------------------------------------------------------
// Non-overlap of byte ranges, via an ascending scan.
// ------------------------------------------------------------------

/// Scanning one module instance's registers in declared order from the
/// high-water mark `seen`: every register's byte range must begin at
/// or after the end of the range before it.
pub open spec fn regs_scan_ok(regs: Seq<Register>, base: u16, seen: int) -> bool
    decreases regs.len(),
{
    if regs.len() == 0 {
        true
    } else {
        &&& seen <= base + regs[0].offset
        &&& regs_scan_ok(regs.skip(1), base, base + regs[0].offset + spec_size(regs[0].contents))
    }
}

/// The high-water mark after scanning one module instance's registers.
pub open spec fn regs_scan_end(regs: Seq<Register>, base: u16, seen: int) -> int
    decreases regs.len(),
{
    if regs.len() == 0 {
        seen
    } else {
        regs_scan_end(regs.skip(1), base, base + regs[0].offset + spec_size(regs[0].contents))
    }
}

/// Scanning every instance of one module, one base address at a time.
pub open spec fn bases_scan_ok(bases: Seq<u16>, regs: Seq<Register>, seen: int) -> bool
    decreases bases.len(),
{
    if bases.len() == 0 {
        true
    } else {
        &&& regs_scan_ok(regs, bases[0], seen)
        &&& bases_scan_ok(bases.skip(1), regs, regs_scan_end(regs, bases[0], seen))
    }
}

/// The high-water mark after scanning every instance of one module.
pub open spec fn bases_scan_end(bases: Seq<u16>, regs: Seq<Register>, seen: int) -> int
    decreases bases.len(),
{
    if bases.len() == 0 {
        seen
    } else {
        bases_scan_end(bases.skip(1), regs, regs_scan_end(regs, bases[0], seen))
    }
}

/// Scanning the whole table, module by module.
pub open spec fn mods_scan_ok(mods: Seq<Module>, seen: int) -> bool
    decreases mods.len(),
{
    if mods.len() == 0 {
        true
    } else {
        &&& bases_scan_ok(mods[0].base@, mods[0].registers@, seen)
        &&& mods_scan_ok(mods.skip(1), bases_scan_end(mods[0].base@, mods[0].registers@, seen))
    }
}

/// The table's registers, visited in ascending scan order, never step
/// back below the running high-water mark.
pub open spec fn table_addresses_ok(mods: Seq<Module>) -> bool {
    mods_scan_ok(mods, 0)
}

/// Scans one module instance.  Returns the new high-water mark, or
/// `None` on the first register that falls below it.
fn scan_regs(regs: &Vec<Register>, base: u16, seen: u32) -> (r: Option<u32>)
    ensures
        r is Some <==> regs_scan_ok(regs@, base, seen as int),
        r matches Some(end) ==> end == regs_scan_end(regs@, base, seen as int),
{
    let mut cur: u32 = seen;
    let mut i: usize = 0;
    proof {
        assert(regs@.skip(0) =~= regs@);
    }
    while i < regs.len()
        invariant
            i <= regs@.len(),
            regs_scan_ok(regs@, base, seen as int) <==> regs_scan_ok(
                regs@.skip(i as int),
                base,
                cur as int,
            ),
            regs_scan_ok(regs@.skip(i as int), base, cur as int) ==> regs_scan_end(
                regs@,
                base,
                seen as int,
            ) == regs_scan_end(regs@.skip(i as int), base, cur as int),
        decreases regs@.len() - i,
    {
        let r = &regs[i];
        let addr: u32 = base as u32 + r.offset as u32;
        proof {
            assert(regs@.skip(i as int).skip(1) =~= regs@.skip(i as int + 1));
        }
        if addr < cur {
            return None;
        }
        cur = addr + r.contents.size() as u32;
        i = i + 1;
    }
    proof {
        assert(regs@.skip(regs@.len() as int) =~= Seq::<Register>::empty());
    }
    Some(cur)
}

/// Scans every instance of one module.
fn scan_bases(bases: &Vec<u16>, regs: &Vec<Register>, seen: u32) -> (r: Option<u32>)
    ensures
        r is Some <==> bases_scan_ok(bases@, regs@, seen as int),
        r matches Some(end) ==> end == bases_scan_end(bases@, regs@, seen as int),
{
    let mut cur: u32 = seen;
    let mut i: usize = 0;
    proof {
        assert(bases@.skip(0) =~= bases@);
    }
    while i < bases.len()
        invariant
            i <= bases@.len(),
            bases_scan_ok(bases@, regs@, seen as int) <==> bases_scan_ok(
                bases@.skip(i as int),
                regs@,
                cur as int,
            ),
            bases_scan_ok(bases@.skip(i as int), regs@, cur as int) ==> bases_scan_end(
                bases@,
                regs@,
                seen as int,
            ) == bases_scan_end(bases@.skip(i as int), regs@, cur as int),
        decreases bases@.len() - i,
    {
        proof {
            assert(bases@.skip(i as int).skip(1) =~= bases@.skip(i as int + 1));
        }
        match scan_regs(regs, bases[i], cur) {
            None => {
                return None;
            },
            Some(end) => {
                cur = end;
            },
        }
        i = i + 1;
    }
    proof {
        assert(bases@.skip(bases@.len() as int) =~= Seq::<u16>::empty());
    }
    Some(cur)
}

/// Walks the full table in declared order and reports whether every
/// register byte range begins at or after the end of the range seen
/// before it -- the ascending-scan form of global non-overlap.
pub fn check_addresses(mods: &Vec<Module>) -> (ok: bool)
    ensures
        ok == table_addresses_ok(mods@),
{
    let mut cur: u32 = 0;
    let mut i: usize = 0;
    proof {
        assert(mods@.skip(0) =~= mods@);
    }
    while i < mods.len()
        invariant
            i <= mods@.len(),
            table_addresses_ok(mods@) <==> mods_scan_ok(mods@.skip(i as int), cur as int),
        decreases mods@.len() - i,
    {
        let m = &mods[i];
        proof {
            assert(mods@.skip(i as int).skip(1) =~= mods@.skip(i as int + 1));
        }
        match scan_bases(&m.base, &m.registers, cur) {
            None => {
                return false;
            },
            Some(end) => {
                cur = end;
            },
        }
        i = i + 1;
    }
    proof {
        assert(mods@.skip(mods@.len() as int) =~= Seq::<Module>::empty());
    }
    true
}

// ------------------------------------------------------------------
// The law behind the scan: it implies pairwise disjointness.
// ------------------------------------------------------------------

/// The absolute byte ranges `[lo, hi)` of one module instance's
/// registers, in declared order.
pub open spec fn reg_ranges(regs: Seq<Register>, base: u16) -> Seq<(int, int)> {
    regs.map_values(|r: Register| (base + r.offset, base + r.offset + spec_size(r.contents)))
}

/// The byte ranges of every instance of one module.
pub open spec fn bases_ranges(bases: Seq<u16>, regs: Seq<Register>) -> Seq<(int, int)>
    decreases bases.len(),
{
    if bases.len() == 0 {
        Seq::empty()
    } else {
        reg_ranges(regs, bases[0]) + bases_ranges(bases.skip(1), regs)
    }
}

/// The byte ranges of every register instance in the whole table, in
/// scan order.
pub open spec fn table_ranges(mods: Seq<Module>) -> Seq<(int, int)>
    decreases mods.len(),
{
    if mods.len() == 0 {
        Seq::empty()
    } else {
        bases_ranges(mods[0].base@, mods[0].registers@) + table_ranges(mods.skip(1))
    }
}

/// Every range ends at or before every later range begins: no two of
/// them share a byte.
pub open spec fn ranges_separated(rs: Seq<(int, int)>) -> bool {
    forall|i: int, j: int| 0 <= i < j < rs.len() ==> rs[i].1 <= rs[j].0
}

proof fn lemma_regs_ranges(regs: Seq<Register>, base: u16, seen: int)
    requires
        regs_scan_ok(regs, base, seen),
    ensures
        ranges_separated(reg_ranges(regs, base)),
        forall|k: int|
            0 <= k < reg_ranges(regs, base).len() ==> seen <= (#[trigger] reg_ranges(
                regs,
                base,
            )[k]).0 && reg_ranges(regs, base)[k].1 <= regs_scan_end(regs, base, seen),
        seen <= regs_scan_end(regs, base, seen),
    decreases regs.len(),
{
    if regs.len() > 0 {
        let full = reg_ranges(regs, base);
        let tail = regs.skip(1);
        let seen2 = base + regs[0].offset + spec_size(regs[0].contents);
        let end = regs_scan_end(regs, base, seen);
        lemma_regs_ranges(tail, base, seen2);
        assert(end == regs_scan_end(tail, base, seen2));
        assert(reg_ranges(tail, base) =~= full.skip(1));
        assert(full[0] == (base + regs[0].offset, seen2));
        assert forall|k: int| 0 <= k < full.len() implies seen <= (#[trigger] full[k]).0
            && full[k].1 <= end by {
            if k > 0 {
                assert(full[k] == reg_ranges(tail, base)[k - 1]);
            }
        }
        assert forall|i: int, j: int| 0 <= i < j < full.len() implies full[i].1 <= full[j].0 by {
            assert(full[j] == reg_ranges(tail, base)[j - 1]);
            if i > 0 {
                assert(full[i] == reg_ranges(tail, base)[i - 1]);
                assert(ranges_separated(reg_ranges(tail, base)));
            }
        }
    }
}

proof fn lemma_bases_ranges(bases: Seq<u16>, regs: Seq<Register>, seen: int)
    requires
        bases_scan_ok(bases, regs, seen),
    ensures
        ranges_separated(bases_ranges(bases, regs)),
        forall|k: int|
            0 <= k < bases_ranges(bases, regs).len() ==> seen <= (#[trigger] bases_ranges(
                bases,
                regs,
            )[k]).0 && bases_ranges(bases, regs)[k].1 <= bases_scan_end(bases, regs, seen),
        seen <= bases_scan_end(bases, regs, seen),
    decreases bases.len(),
{
    if bases.len() > 0 {
        let full = bases_ranges(bases, regs);
        let head = reg_ranges(regs, bases[0]);
        let rest = bases_ranges(bases.skip(1), regs);
        let seen2 = regs_scan_end(regs, bases[0], seen);
        let end = bases_scan_end(bases, regs, seen);
        lemma_regs_ranges(regs, bases[0], seen);
        lemma_bases_ranges(bases.skip(1), regs, seen2);
        assert(end == bases_scan_end(bases.skip(1), regs, seen2));
        assert(full == head + rest);
        assert forall|k: int| 0 <= k < full.len() implies seen <= (#[trigger] full[k]).0
            && full[k].1 <= end by {
            if k < head.len() {
                assert(full[k] == head[k]);
            } else {
                assert(full[k] == rest[k - head.len()]);
            }
        }
        assert forall|i: int, j: int| 0 <= i < j < full.len() implies full[i].1 <= full[j].0 by {
            if j < head.len() {
                assert(full[i] == head[i] && full[j] == head[j]);
                assert(ranges_separated(head));
            } else if i >= head.len() {
                assert(full[i] == rest[i - head.len()] && full[j] == rest[j - head.len()]);
                assert(ranges_separated(rest));
            } else {
                assert(full[i] == head[i] && full[j] == rest[j - head.len()]);
                assert(head[i].1 <= seen2);
                assert(seen2 <= rest[j - head.len()].0);
            }
        }
    }
}

proof fn lemma_mods_ranges(mods: Seq<Module>, seen: int)
    requires
        mods_scan_ok(mods, seen),
    ensures
        ranges_separated(table_ranges(mods)),
        forall|k: int|
            0 <= k < table_ranges(mods).len() ==> seen <= (#[trigger] table_ranges(mods)[k]).0
                && table_ranges(mods)[k].1 <= mods_scan_end(mods, seen),
        seen <= mods_scan_end(mods, seen),
    decreases mods.len(),
{
    if mods.len() > 0 {
        let full = table_ranges(mods);
        let head = bases_ranges(mods[0].base@, mods[0].registers@);
        let rest = table_ranges(mods.skip(1));
        let seen2 = bases_scan_end(mods[0].base@, mods[0].registers@, seen);
        let end = mods_scan_end(mods, seen);
        lemma_bases_ranges(mods[0].base@, mods[0].registers@, seen);
        lemma_mods_ranges(mods.skip(1), seen2);
        assert(end == mods_scan_end(mods.skip(1), seen2));
        assert(full == head + rest);
        assert forall|k: int| 0 <= k < full.len() implies seen <= (#[trigger] full[k]).0
            && full[k].1 <= end by {
            if k < head.len() {
                assert(full[k] == head[k]);
            } else {
                assert(full[k] == rest[k - head.len()]);
            }
        }
        assert forall|i: int, j: int| 0 <= i < j < full.len() implies full[i].1 <= full[j].0 by {
            if j < head.len() {
                assert(full[i] == head[i] && full[j] == head[j]);
                assert(ranges_separated(head));
            } else if i >= head.len() {
                assert(full[i] == rest[i - head.len()] && full[j] == rest[j - head.len()]);
                assert(ranges_separated(rest));
            } else {
                assert(full[i] == head[i] && full[j] == rest[j - head.len()]);
                assert(head[i].1 <= seen2);
                assert(seen2 <= rest[j - head.len()].0);
            }
        }
    }
}

/// The high-water-mark after scanning the whole table.
pub open spec fn mods_scan_end(mods: Seq<Module>, seen: int) -> int
    decreases mods.len(),
{
    if mods.len() == 0 {
        seen
    } else {
        mods_scan_end(mods.skip(1), bases_scan_end(mods[0].base@, mods[0].registers@, seen))
    }
}

/// A table that passes the ascending scan has pairwise-disjoint
/// register byte ranges: across all module instances, every range ends
/// at or before every later range begins.
pub proof fn lemma_scan_ranges_disjoint(mods: Seq<Module>)
    requires
        table_addresses_ok(mods),
    ensures
        ranges_separated(table_ranges(mods)),
{
    lemma_mods_ranges(mods, 0);
}


// ------------------------------------------------------------------
// Scan facts for small, concrete register lists, used to establish
// the table's invariants at construction time.
// ------------------------------------------------------------------

pub(crate) proof fn lemma_regs_scan1(r0: Register, base: u16, seen: int)
    requires
        seen <= base + r0.offset,
    ensures
        regs_scan_ok(seq![r0], base, seen),
        regs_scan_end(seq![r0], base, seen) == base + r0.offset + spec_size(r0.contents),
{
    assert(seq![r0].skip(1) =~= Seq::<Register>::empty());
    reveal_with_fuel(regs_scan_ok, 2);
    reveal_with_fuel(regs_scan_end, 2);
}

pub(crate) proof fn lemma_regs_scan2(r0: Register, r1: Register, base: u16, seen: int)
    requires
        seen <= base + r0.offset,
        base + r0.offset + spec_size(r0.contents) <= base + r1.offset,
    ensures
        regs_scan_ok(seq![r0, r1], base, seen),
        regs_scan_end(seq![r0, r1], base, seen) == base + r1.offset + spec_size(r1.contents),
{
    lemma_regs_scan1(r1, base, base + r0.offset + spec_size(r0.contents));
    assert(seq![r0, r1].skip(1) =~= seq![r1]);
}

pub(crate) proof fn lemma_regs_scan3(r0: Register, r1: Register, r2: Register, base: u16, seen: int)
    requires
        seen <= base + r0.offset,
        base + r0.offset + spec_size(r0.contents) <= base + r1.offset,
        base + r1.offset + spec_size(r1.contents) <= base + r2.offset,
    ensures
        regs_scan_ok(seq![r0, r1, r2], base, seen),
        regs_scan_end(seq![r0, r1, r2], base, seen) == base + r2.offset + spec_size(r2.contents),
{
    lemma_regs_scan2(r1, r2, base, base + r0.offset + spec_size(r0.contents));
    assert(seq![r0, r1, r2].skip(1) =~= seq![r1, r2]);
}

pub(crate) proof fn lemma_regs_scan4(
    r0: Register,
    r1: Register,
    r2: Register,
    r3: Register,
    base: u16,
    seen: int,
)
    requires
        seen <= base + r0.offset,
        base + r0.offset + spec_size(r0.contents) <= base + r1.offset,
        base + r1.offset + spec_size(r1.contents) <= base + r2.offset,
        base + r2.offset + spec_size(r2.contents) <= base + r3.offset,
    ensures
        regs_scan_ok(seq![r0, r1, r2, r3], base, seen),
        regs_scan_end(seq![r0, r1, r2, r3], base, seen) == base + r3.offset + spec_size(
            r3.contents,
        ),
{
    lemma_regs_scan3(r1, r2, r3, base, base + r0.offset + spec_size(r0.contents));
    assert(seq![r0, r1, r2, r3].skip(1) =~= seq![r1, r2, r3]);
}

pub(crate) proof fn lemma_bases_scan1(b0: u16, regs: Seq<Register>, seen: int)
    requires
        regs_scan_ok(regs, b0, seen),
    ensures
        bases_scan_ok(seq![b0], regs, seen),
        bases_scan_end(seq![b0], regs, seen) == regs_scan_end(regs, b0, seen),
{
    assert(seq![b0].skip(1) =~= Seq::<u16>::empty());
    reveal_with_fuel(bases_scan_ok, 2);
    reveal_with_fuel(bases_scan_end, 2);
}

pub(crate) proof fn lemma_bases_scan2(b0: u16, b1: u16, regs: Seq<Register>, seen: int)
    requires
        regs_scan_ok(regs, b0, seen),
        regs_scan_ok(regs, b1, regs_scan_end(regs, b0, seen)),
    ensures
        bases_scan_ok(seq![b0, b1], regs, seen),
        bases_scan_end(seq![b0, b1], regs, seen) == regs_scan_end(
            regs,
            b1,
            regs_scan_end(regs, b0, seen),
        ),
{
    lemma_bases_scan1(b1, regs, regs_scan_end(regs, b0, seen));
    assert(seq![b0, b1].skip(1) =~= seq![b1]);
}

// ------------------------------------------------------------------
// Global uniqueness of register names.
// ------------------------------------------------------------------

/// The names of one module's registers, in declared order.
pub open spec fn module_names(regs: Seq<Register>) -> Seq<Seq<char>>
    decreases regs.len(),
{
    if regs.len() == 0 {
        Seq::empty()
    } else {
        seq![regs[0].name@] + module_names(regs.skip(1))
    }
}

/// The names of every register in the table, module by module.
pub open spec fn all_names(mods: Seq<Module>) -> Seq<Seq<char>>
    decreases mods.len(),
{
    if mods.len() == 0 {
        Seq::empty()
    } else {
        module_names(mods[0].registers@) + all_names(mods.skip(1))
    }
}

/// No element occurs twice.
pub open spec fn distinct(ns: Seq<Seq<char>>) -> bool {
    forall|i: int, j: int| 0 <= i < j < ns.len() ==> ns[i] != ns[j]
}

/// No two registers anywhere in the table share a name.
pub open spec fn names_unique(mods: Seq<Module>) -> bool {
    distinct(all_names(mods))
}

/// The names of a list of `String`s, as character sequences.
pub open spec fn name_views(seen: Seq<String>) -> Seq<Seq<char>> {
    seen.map_values(|s: String| s@)
}

proof fn lemma_module_names_concat(a: Seq<Register>, b: Seq<Register>)
    ensures
        module_names(a + b) == module_names(a) + module_names(b),
    decreases a.len(),
{
    if a.len() == 0 {
        assert(a + b =~= b);
        assert(module_names(a) + module_names(b) =~= module_names(b));
    } else {
        assert((a + b).skip(1) =~= a.skip(1) + b);
        lemma_module_names_concat(a.skip(1), b);
        assert(module_names(a + b) =~= module_names(a) + module_names(b));
    }
}

proof fn lemma_all_names_concat(a: Seq<Module>, b: Seq<Module>)
    ensures
        all_names(a + b) == all_names(a) + all_names(b),
    decreases a.len(),
{
    if a.len() == 0 {
        assert(a + b =~= b);
        assert(all_names(a) + all_names(b) =~= all_names(b));
    } else {
        assert((a + b).skip(1) =~= a.skip(1) + b);
        lemma_all_names_concat(a.skip(1), b);
        assert(all_names(a + b) =~= all_names(a) + all_names(b));
    }
}

/// A duplicate in a prefix stays a duplicate however the sequence goes
/// on.
proof fn lemma_not_distinct_extend(a: Seq<Seq<char>>, b: Seq<Seq<char>>)
    ensures
        !distinct(a) ==> !distinct(a + b),
{
    if !distinct(a) {
        let (i, j): (int, int) = choose|i: int, j: int| 0 <= i < j < a.len() && a[i] == a[j];
        assert((a + b)[i] == a[i]);
        assert((a + b)[j] == a[j]);
        assert(!distinct(a + b));
    }
}

/// Linear search for a register name among those already seen.
fn contains_name(seen: &Vec<String>, name: &String) -> (b: bool)
    ensures
        b == exists|k: int| 0 <= k < seen@.len() && #[trigger] seen@[k]@ == name@,
{
    let mut i: usize = 0;
    while i < seen.len()
        invariant
            i <= seen@.len(),
            forall|k: int| 0 <= k < i ==> #[trigger] seen@[k]@ != name@,
        decreases seen@.len() - i,
    {
        let s = &seen[i];
        if *s == *name {
            return true;
        }
        i = i + 1;
    }
    false
}

/// Folds one module's register names into the names seen so far,
/// failing on the first name that was seen before.
fn scan_module_names(seen: &mut Vec<String>, regs: &Vec<Register>) -> (ok: bool)
    requires
        distinct(name_views(old(seen)@)),
    ensures
        ok ==> name_views(final(seen)@) == name_views(old(seen)@) + module_names(regs@)
            && distinct(name_views(final(seen)@)),
        !ok ==> !distinct(name_views(old(seen)@) + module_names(regs@)),
{
    let mut r: usize = 0;
    proof {
        assert(regs@.take(0) =~= Seq::<Register>::empty());
        assert(name_views(seen@) + module_names(regs@.take(0)) =~= name_views(seen@));
    }
    while r < regs.len()
        invariant
            r <= regs@.len(),
            name_views(seen@) == name_views(old(seen)@) + module_names(regs@.take(r as int)),
            distinct(name_views(seen@)),
        decreases regs@.len() - r,
    {
        let name = &regs[r].name;
        proof {
            assert(regs@.take(r as int + 1) =~= regs@.take(r as int) + seq![regs@[r as int]]);
            lemma_module_names_concat(regs@.take(r as int), seq![regs@[r as int]]);
            assert(seq![regs@[r as int]].skip(1) =~= Seq::<Register>::empty());
            reveal_with_fuel(module_names, 2);
            assert(module_names(seq![regs@[r as int]]) =~= seq![regs@[r as int].name@]);
            assert(module_names(regs@.take(r as int + 1)) =~= module_names(
                regs@.take(r as int),
            ).push(regs@[r as int].name@));
        }
        if contains_name(seen, name) {
            proof {
                let cur = name_views(seen@).push(name@);
                assert(cur =~= name_views(old(seen)@) + module_names(regs@.take(r as int + 1)));
                let k = choose|k: int| 0 <= k < seen@.len() && #[trigger] seen@[k]@ == name@;
                assert(cur[k] == name_views(seen@)[k]);
                assert(name_views(seen@)[k] == seen@[k]@);
                assert(cur[seen@.len() as int] == name@);
                assert(!distinct(cur));
                assert(regs@ =~= regs@.take(r as int + 1) + regs@.skip(r as int + 1));
                lemma_module_names_concat(regs@.take(r as int + 1), regs@.skip(r as int + 1));
                assert(name_views(old(seen)@) + module_names(regs@) =~= cur + module_names(
                    regs@.skip(r as int + 1),
                ));
                lemma_not_distinct_extend(cur, module_names(regs@.skip(r as int + 1)));
            }
            return false;
        }
        let ghost pre = seen@;
        seen.push(name.clone());
        proof {
            assert(name_views(seen@) =~= name_views(pre).push(name@));
            assert forall|i: int, j: int|
                0 <= i < j < name_views(seen@).len() implies name_views(seen@)[i] != name_views(
                seen@,
            )[j] by {
                if j < name_views(pre).len() {
                    assert(name_views(seen@)[i] == name_views(pre)[i]);
                    assert(name_views(seen@)[j] == name_views(pre)[j]);
                } else {
                    assert(name_views(seen@)[j] == name@);
                    assert(name_views(seen@)[i] == pre[i]@);
                }
            }
        }
        r = r + 1;
    }
    proof {
        assert(regs@.take(regs@.len() as int) =~= regs@);
    }
    true
}

/// Walks the full table and reports whether every register name is
/// globally unique.
pub fn check_names(mods: &Vec<Module>) -> (ok: bool)
    ensures
        ok == names_unique(mods@),
{
    let mut seen: Vec<String> = Vec::new();
    let mut m: usize = 0;
    proof {
        assert(mods@.take(0) =~= Seq::<Module>::empty());
        assert(name_views(seen@) =~= Seq::<Seq<char>>::empty());
        assert(name_views(seen@) =~= all_names(mods@.take(0)));
    }
    while m < mods.len()
        invariant
            m <= mods@.len(),
            name_views(seen@) == all_names(mods@.take(m as int)),
            distinct(name_views(seen@)),
        decreases mods@.len() - m,
    {
        let md = &mods[m];
        let ghost prev = name_views(seen@);
        let ok = scan_module_names(&mut seen, &md.registers);
        proof {
            assert(mods@.take(m as int + 1) =~= mods@.take(m as int) + seq![mods@[m as int]]);
            lemma_all_names_concat(mods@.take(m as int), seq![mods@[m as int]]);
            assert(seq![mods@[m as int]].skip(1) =~= Seq::<Module>::empty());
            reveal_with_fuel(all_names, 2);
            assert(all_names(seq![mods@[m as int]]) =~= module_names(mods@[m as int].registers@));
            assert(all_names(mods@.take(m as int + 1)) =~= prev + module_names(md.registers@));
        }
        if !ok {
            proof {
                assert(mods@ =~= mods@.take(m as int + 1) + mods@.skip(m as int + 1));
                lemma_all_names_concat(mods@.take(m as int + 1), mods@.skip(m as int + 1));
                lemma_not_distinct_extend(
                    all_names(mods@.take(m as int + 1)),
                    all_names(mods@.skip(m as int + 1)),
                );
            }
            return false;
        }
        m = m + 1;
    }
    proof {
        assert(mods@.take(mods@.len() as int) =~= mods@);
    }
    true
}

} // verus!

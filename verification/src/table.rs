//! A disk's partition table: the slots it holds, the free spans they leave,
//! and the numbers and places a planned partition gets.

use crate::answers::{contains_str, holds_text, Created, CustomLayout, Partition, Rename};
use crate::copy;
use crate::ui::{hole_view, holes_view, Hole};
use crate::seqs::{first_where, lemma_first_where};
use crate::text::{
    cat, cat3, cat4, cat5, chars_of, decimal, decimal_u64, decimal_usize, digits_value,
    trailing_digits, trailing_number,
};
use vstd::prelude::*;

verus! {

/// One entry of a disk's partition table. The append arithmetic needs the
/// sector a partition starts at, which is why a slot carries it.
#[derive(Clone, Debug, PartialEq, Eq)]
pub struct Slot {
    pub node: String,
    pub number: usize,
    pub start: u64,
    pub sectors: u64,
}

/// A disk's partition table. The span and each slot size count sectors.
/// `first` and `last` bound the sectors a partition may occupy, and `last`
/// is inclusive. `sector` is the sector size in bytes. `label` is the table
/// label, `gpt` or `dos`, and empty for a disk that carries no table.
#[derive(Clone, Debug, PartialEq, Eq)]
pub struct DiskTable {
    pub first: u64,
    pub last: u64,
    pub sector: u64,
    pub label: String,
    pub slots: Vec<Slot>,
}

/// The disk the user confirmed, with the table it carried then. `rdev`
/// identifies a block device; `dev` and `ino` identify a file-backed table.
#[derive(Clone, Debug, PartialEq, Eq)]
pub struct DiskState {
    pub rdev: u64,
    pub dev: u64,
    pub ino: u64,
    pub table: DiskTable,
}

/// One free span of a disk's partition table, in the disk's own sectors.
#[derive(Clone, Copy, Debug, PartialEq, Eq, Structural)]
pub struct Region {
    pub start: u64,
    pub sectors: u64,
}

// ---------------------------------------------------------------------------
// Slot numbers

/// The slot number a device name carries: its trailing decimal digits, where
/// it ends in some and they fit in a `usize`.
pub open spec fn slot_of(device: Seq<char>) -> Option<usize> {
    let digits = trailing_digits(device);
    if digits.len() > 0 && digits_value(digits) <= usize::MAX {
        Some(digits_value(digits) as usize)
    } else {
        None
    }
}

/// Reads the partition number a device name ends in. Both the readers and
/// the cut number a partition through this one test.
pub fn partition_number(device: &str) -> (out: Result<usize, String>)
    ensures
        match out {
            Ok(n) => slot_of(device@) == Some(n),
            Err(why) => slot_of(device@) is None && why@ == device@
                + " names no partition number"@,
        },
{
    let chars = chars_of(device);
    match trailing_number(&chars) {
        Some(n) => Ok(n),
        None => Err(cat(device, " names no partition number")),
    }
}

/// The slot numbers a delete list names, in its order. An entry with no
/// number names no slot.
pub open spec fn deleted(deletes: Seq<Seq<char>>) -> Seq<usize>
    decreases deletes.len(),
{
    if deletes.len() == 0 {
        Seq::empty()
    } else {
        let rest = deleted(deletes.drop_last());
        match slot_of(deletes.last()) {
            Some(n) => rest.push(n),
            None => rest,
        }
    }
}

/// A slot number is in the delete list's numbers exactly when some entry
/// names it.
pub proof fn lemma_deleted_contains(deletes: Seq<Seq<char>>, n: usize)
    ensures
        deleted(deletes).contains(n) <==> exists|i: int|
            0 <= i < deletes.len() && slot_of(#[trigger] deletes[i]) == Some(n),
    decreases deletes.len(),
{
    if deletes.len() > 0 {
        let rest = deletes.drop_last();
        lemma_deleted_contains(rest, n);
        if deleted(deletes).contains(n) {
            let k = choose|k: int| 0 <= k < deleted(deletes).len() && deleted(deletes)[k] == n;
            if k < deleted(rest).len() {
                assert(deleted(rest)[k] == n);
                let i = choose|i: int| 0 <= i < rest.len() && slot_of(#[trigger] rest[i]) == Some(n);
                assert(deletes[i] == rest[i]);
            } else {
                assert(slot_of(deletes[deletes.len() - 1]) == Some(n));
            }
        }
        if exists|i: int| 0 <= i < deletes.len() && slot_of(#[trigger] deletes[i]) == Some(n) {
            let i = choose|i: int| 0 <= i < deletes.len() && slot_of(#[trigger] deletes[i]) == Some(n);
            if i < deletes.len() - 1 {
                assert(rest[i] == deletes[i]);
                assert(deleted(rest).contains(n));
                let k = choose|k: int| 0 <= k < deleted(rest).len() && deleted(rest)[k] == n;
                assert(deleted(deletes)[k] == n);
            } else {
                assert(deleted(deletes).last() == n);
            }
        }
    }
}

/// The slot numbers a delete list names. An entry with no trailing digits, or
/// digits that overflow `usize`, names none; the cut refuses that same entry
/// before it writes the disk.
pub fn deleted_slots(deletes: &[String]) -> (out: Vec<usize>)
    ensures
        out@ == deleted(deletes.deep_view()),
{
    let mut out: Vec<usize> = Vec::new();
    let mut i: usize = 0;
    while i < deletes.len()
        invariant
            i <= deletes.len(),
            out@ == deleted(deletes.deep_view().take(i as int)),
        decreases deletes.len() - i,
    {
        let ghost before = deletes.deep_view().take(i as int);
        assert(deletes.deep_view().take(i + 1).drop_last() =~= before);
        match partition_number(&deletes[i]) {
            Ok(n) => out.push(n),
            Err(_) => {},
        }
        i = i + 1;
    }
    assert(deletes.deep_view().take(i as int) =~= deletes.deep_view());
    out
}

pub fn contains_usize(v: &[usize], n: usize) -> (r: bool)
    ensures
        r == v@.contains(n),
{
    let mut i: usize = 0;
    while i < v.len()
        invariant
            i <= v.len(),
            forall|j: int| 0 <= j < i ==> v@[j] != n,
        decreases v.len() - i,
    {
        if v[i] == n {
            return true;
        }
        i = i + 1;
    }
    false
}

// ---------------------------------------------------------------------------
// Appended numbers

/// How many entries of `s` lie in `1..m`.
pub open spec fn count_below(s: Seq<usize>, m: int) -> nat
    decreases s.len(),
{
    if s.len() == 0 {
        0
    } else {
        count_below(s.drop_last(), m) + if 1 <= s.last() < m {
            1nat
        } else {
            0nat
        }
    }
}

proof fn lemma_count_below(s: Seq<usize>, m: int)
    ensures
        count_below(s, m) <= s.len(),
        count_below(s, m + 1) >= count_below(s, m),
        m >= 1 && s.contains(m as usize) && m <= usize::MAX ==> count_below(s, m + 1)
            >= count_below(s, m) + 1,
    decreases s.len(),
{
    if s.len() > 0 {
        lemma_count_below(s.drop_last(), m);
        if m >= 1 && s.contains(m as usize) && m <= usize::MAX && s.last() != m {
            let k = choose|k: int| 0 <= k < s.len() && s[k] == m as usize;
            assert(s.drop_last()[k] == s[k]);
        }
    }
}

/// The numbers `sfdisk --append` hands `count` new partitions beside the
/// `taken` ones: the lowest free numbers from 1, ascending, with no free
/// number below the last skipped.
pub open spec fn lowest_free(taken: Seq<usize>, given: Seq<usize>, count: nat) -> bool {
    &&& given.len() == count
    &&& forall|i: int, j: int| 0 <= i < j < given.len() ==> given[i] < given[j]
    &&& forall|i: int| 0 <= i < given.len() ==> 1 <= #[trigger] given[i] && !taken.contains(given[i])
    &&& forall|k: usize| #![trigger taken.contains(k)]
        1 <= k && given.len() > 0 && k < given.last() && !taken.contains(k) ==> given.contains(k)
}

/// The slot numbers `sfdisk --append` hands `count` created partitions:
/// `sfdisk` takes the lowest free number each time. The rule takes the
/// surviving numbers rather than a table, because the screen and the cut hold
/// two sources for them and must not answer differently.
pub fn appended_slots(taken: &[usize], count: usize) -> (given: Vec<usize>)
    requires
        taken.len() + count < usize::MAX,
    ensures
        lowest_free(taken@, given@, count as nat),
{
    let mut given: Vec<usize> = Vec::new();
    let mut number: usize = 1;
    while given.len() < count
        invariant
            1 <= number,
            given.len() <= count,
            taken.len() + count < usize::MAX,
            forall|i: int, j: int| 0 <= i < j < given.len() ==> given@[i] < given@[j],
            forall|i: int| 0 <= i < given.len() ==> 1 <= #[trigger] given@[i] < number
                && !taken@.contains(given@[i]),
            forall|k: usize| #![trigger taken@.contains(k)]
                1 <= k < number && !taken@.contains(k) ==> given@.contains(k),
            number - 1 <= given.len() + count_below(taken@, number as int),
        decreases count - given.len() + taken.len() - count_below(taken@, number as int),
    {
        proof {
            lemma_count_below(taken@, number as int);
        }
        let free = !contains_usize(taken, number);
        if free {
            let ghost old_given = given@;
            given.push(number);
            proof {
                assert forall|k: usize| #![trigger taken@.contains(k)]
                    1 <= k < number + 1 && !taken@.contains(k) implies given@.contains(k) by {
                    if k == number {
                        assert(given@[given@.len() - 1] == k);
                    } else {
                        assert(old_given.contains(k));
                        let j = choose|j: int| 0 <= j < old_given.len() && old_given[j] == k;
                        assert(given@[j] == k);
                    }
                };
            }
        }
        proof {
            lemma_count_below(taken@, number + 1);
        }
        number = number + 1;
    }
    proof {
        assert forall|k: usize| #![trigger taken@.contains(k)]
            1 <= k && given@.len() > 0 && k < given@.last() && !taken@.contains(k)
            implies given@.contains(k) by {
            assert(given@.last() < number);
        };
    }
    given
}

// ---------------------------------------------------------------------------
// The table's own questions

/// The largest sector number a table holds for the arithmetic here to stay
/// in a `u64`: one 1 MiB alignment step short of the top.
pub open spec fn sector_limit() -> int {
    u64::MAX - 0x10_0000
}

pub open spec fn survives(slot: Slot, gone: Seq<usize>) -> bool {
    !gone.contains(slot.number)
}

/// The numbers of the slots that survive `gone`, in table order.
pub open spec fn surviving_numbers(slots: Seq<Slot>, gone: Seq<usize>) -> Seq<usize>
    decreases slots.len(),
{
    if slots.len() == 0 {
        Seq::empty()
    } else {
        let rest = surviving_numbers(slots.drop_last(), gone);
        if survives(slots.last(), gone) {
            rest.push(slots.last().number)
        } else {
            rest
        }
    }
}

proof fn lemma_surviving_len(slots: Seq<Slot>, gone: Seq<usize>)
    ensures
        surviving_numbers(slots, gone).len() <= slots.len(),
    decreases slots.len(),
{
    if slots.len() > 0 {
        lemma_surviving_len(slots.drop_last(), gone);
    }
}

/// The sectors `sfdisk` aligns a partition to, which is 1 MiB. A table that
/// reports no sector size is read in 512-byte sectors.
pub open spec fn alignment_of(sector: u64) -> u64 {
    if sector == 0 {
        2048
    } else if 1_048_576u64 / sector >= 1 {
        (1_048_576u64 / sector) as u64
    } else {
        1
    }
}

pub open spec fn ceil_div(a: nat, b: nat) -> nat
    recommends
        b > 0,
{
    ((a + b - 1) as nat) / b
}

pub open spec fn sat_add(a: u64, b: u64) -> u64 {
    if a + b > u64::MAX {
        u64::MAX
    } else {
        (a + b) as u64
    }
}

pub open spec fn sat_sub(a: u64, b: u64) -> u64 {
    if a >= b {
        (a - b) as u64
    } else {
        0
    }
}

pub open spec fn sat_mul(a: u64, b: u64) -> u64 {
    if a * b > u64::MAX {
        u64::MAX
    } else {
        (a * b) as u64
    }
}

/// Multiplies, holding at `u64::MAX` where the product would not fit.
pub fn saturating_mul(a: u64, b: u64) -> (out: u64)
    ensures
        out == sat_mul(a, b),
{
    match a.checked_mul(b) {
        Some(p) => p,
        None => u64::MAX,
    }
}

/// Divides, rounding up.
pub fn div_ceil(a: u64, b: u64) -> (out: u64)
    requires
        b > 0,
    ensures
        out == ceil_div(a as nat, b as nat),
{
    let q = a / b;
    if a % b != 0 {
        assert(q < u64::MAX) by (nonlinear_arith)
            requires
                q == a / b,
                a % b != 0,
                b > 0,
        {
        }
    }
    let out = if a % b == 0 { q } else { q + 1 };
    proof {
        lemma_ceil_div(a as nat, b as nat);
    }
    out
}

proof fn lemma_ceil_div(a: nat, b: nat)
    requires
        b > 0,
    ensures
        ceil_div(a, b) == if a % b == 0 { a / b } else { a / b + 1 },
        ceil_div(a, b) * b >= a,
        ceil_div(a, b) * b <= a + b - 1,
{
    assert(ceil_div(a, b) == if a % b == 0 { a / b } else { a / b + 1 }) by (nonlinear_arith)
        requires
            b > 0,
            ceil_div(a, b) == ((a + b - 1) as nat) / b,
    {
        vstd::arithmetic::div_mod::lemma_fundamental_div_mod(a as int, b as int);
        vstd::arithmetic::div_mod::lemma_fundamental_div_mod((a + b - 1) as int, b as int);
    }
    assert(ceil_div(a, b) * b >= a && ceil_div(a, b) * b <= a + b - 1) by (nonlinear_arith)
        requires
            b > 0,
            ceil_div(a, b) == if a % b == 0 { a / b } else { a / b + 1 },
    {
        vstd::arithmetic::div_mod::lemma_fundamental_div_mod(a as int, b as int);
    }
}

/// A span rounded to the sectors a create may fill: the start rounded up to
/// the alignment and the end rounded down.
pub open spec fn aligned_span(sector: u64, region: Region) -> Region {
    let align = alignment_of(sector);
    let start = ceil_div(region.start as nat, align as nat) * align;
    let end = (sat_add(region.start, region.sectors) / align) * align;
    Region { start: start as u64, sectors: sat_sub(end as u64, start as u64) }
}

/// Whether rounding a span's start up stays inside a `u64`.
pub open spec fn alignable(sector: u64, region: Region) -> bool {
    ceil_div(region.start as nat, alignment_of(sector) as nat) * alignment_of(sector) <= u64::MAX
}

/// The whole GB a span offers a create: its aligned sectors in bytes, less
/// the two sectors of rounding an offset and a size may add, floored.
pub open spec fn room_gb(sector: u64, region: Region) -> u64 {
    let s = if sector >= 1 { sector } else { 1 };
    (sat_sub(sat_mul(aligned_span(sector, region).sectors, s), (2 * (s - 1)) as u64)
        / 1_000_000_000) as u64
}

/// The sectors an offset or a size in whole GB takes, rounded up.
pub open spec fn gb_sectors(gb: u64, sector: u64) -> u64 {
    let s = if sector >= 1 { sector } else { 1 };
    ceil_div(sat_mul(gb, 1_000_000_000) as nat, s as nat) as u64
}

proof fn lemma_alignment(sector: u64)
    ensures
        1 <= alignment_of(sector) <= 0x10_0000,
{
}

impl DiskTable {
    /// Sector numbers one alignment step short of the top of `u64`, and a
    /// sector size whose doubled rounding fits, which every real disk has.
    pub open spec fn addressable(self) -> bool {
        &&& self.first <= sector_limit()
        &&& self.last <= sector_limit()
        &&& self.sector <= 0x8000_0000_0000_0000
        &&& forall|i: int| 0 <= i < self.slots@.len() ==> (#[trigger] self.slots@[i]).start
            <= sector_limit()
    }

    /// The planned deletes remove every slot, so the cut writes a fresh
    /// label instead of appending.
    pub open spec fn cleared(self, deletes: Seq<Seq<char>>) -> bool {
        forall|i: int| 0 <= i < self.slots@.len() ==> deleted(deletes).contains(
            #[trigger] self.slots@[i].number,
        )
    }

    /// The sectors `sfdisk` aligns a partition to.
    pub fn alignment(&self) -> (align: u64)
        ensures
            align == alignment_of(self.sector),
    {
        if self.sector == 0 {
            2048
        } else {
            let a = 1_048_576 / self.sector;
            if a >= 1 {
                a
            } else {
                1
            }
        }
    }

    /// Rounds one raw span to the sectors a create may fill. `sfdisk` aligns
    /// a partition to 1 MiB and shaves an unaligned end, so both ends are
    /// trimmed here.
    pub fn aligned(&self, region: &Region) -> (out: Region)
        requires
            alignable(self.sector, *region),
        ensures
            out == aligned_span(self.sector, *region),
    {
        let align = self.alignment();
        proof {
            lemma_alignment(self.sector);
        }
        let up = div_ceil(region.start, align);
        let start = up * align;
        let reach = region.start.saturating_add(region.sectors);
        assert((reach / align) * align <= reach) by (nonlinear_arith)
            requires
                align >= 1,
        {
        }
        let end = reach / align * align;
        Region { start, sectors: end.saturating_sub(start) }
    }

    /// The whole GB any offset-and-size pair the create window accepts can be
    /// placed in. The division floors, so a span smaller than a GB offers no
    /// room.
    pub fn placeable_gb(&self, region: &Region) -> (gb: u64)
        requires
            alignable(self.sector, *region),
            self.sector <= 0x8000_0000_0000_0000,
        ensures
            gb == room_gb(self.sector, *region),
    {
        let aligned = self.aligned(region);
        let sector = if self.sector >= 1 { self.sector } else { 1 };
        saturating_mul(aligned.sectors, sector).saturating_sub(2 * sector.saturating_sub(1))
            / 1_000_000_000
    }

    /// Whether the planned deletes remove every partition in this table.
    pub fn cleared_by(&self, deletes: &[String]) -> (r: bool)
        ensures
            r == self.cleared(deletes.deep_view()),
    {
        let gone = deleted_slots(deletes);
        let mut i: usize = 0;
        while i < self.slots.len()
            invariant
                i <= self.slots@.len(),
                gone@ == deleted(deletes.deep_view()),
                forall|j: int| 0 <= j < i ==> gone@.contains(#[trigger] self.slots@[j].number),
            decreases self.slots.len() - i,
        {
            if !contains_usize(&gone, self.slots[i].number) {
                return false;
            }
            i = i + 1;
        }
        true
    }

    /// Why this disk cannot take a created partition or a planned name beside
    /// the partitions it keeps. Only a GPT disk is appended to and only a GPT
    /// partition carries a label. Clearing the disk is always allowed, and a
    /// plan that cuts and names nothing never needs GPT.
    pub fn wrong_label_for(&self, deletes: &[String], creates: usize, renames: usize) -> (why:
        Option<String>)
        ensures
            match why {
                None => creates == 0 && renames == 0 || self.label@.len() == 0 || self.label@
                    == "gpt"@ || self.cleared(deletes.deep_view()),
                Some(said) => !(creates == 0 && renames == 0) && self.label@.len() != 0
                    && self.label@ != "gpt"@ && !self.cleared(deletes.deep_view()) && said@
                    == "this disk has a "@ + self.label@ + " partition table: clear it to use GPT"@,
            },
    {
        if creates == 0 && renames == 0 {
            return None;
        }
        if self.label.as_str().is_empty() || crate::text::str_eq(self.label.as_str(), "gpt")
            || self.cleared_by(deletes) {
            None
        } else {
            Some(copy::custom_not_gpt(self.label.as_str()))
        }
    }

    /// The slot numbers that survive the planned deletes, in table order.
    pub fn surviving(&self, deletes: &[String]) -> (out: Vec<usize>)
        ensures
            out@ == surviving_numbers(self.slots@, deleted(deletes.deep_view())),
            out@.len() <= self.slots@.len(),
    {
        let gone = deleted_slots(deletes);
        let mut out: Vec<usize> = Vec::new();
        let mut i: usize = 0;
        while i < self.slots.len()
            invariant
                i <= self.slots@.len(),
                gone@ == deleted(deletes.deep_view()),
                out@ == surviving_numbers(self.slots@.take(i as int), gone@),
            decreases self.slots.len() - i,
        {
            assert(self.slots@.take(i + 1).drop_last() =~= self.slots@.take(i as int));
            if !contains_usize(&gone, self.slots[i].number) {
                out.push(self.slots[i].number);
            }
            i = i + 1;
        }
        assert(self.slots@.take(i as int) =~= self.slots@);
        proof {
            lemma_surviving_len(self.slots@, gone@);
        }
        out
    }
}

/// A pair the create window accepts in a span's room never overruns the span
/// it lands in: the offset and the size, each rounded up to whole sectors,
/// fit in the span's aligned sectors.
pub proof fn lemma_room_holds(sector: u64, region: Region, offset: u64, gb: u64)
    requires
        offset + gb <= room_gb(sector, region),
        sector <= 0x8000_0000_0000_0000,
    ensures
        gb_sectors(offset, sector) + gb_sectors(gb, sector) <= aligned_span(sector, region).sectors,
{
    let s: u64 = if sector >= 1 { sector } else { 1 };
    let big: u64 = aligned_span(sector, region).sectors;
    let product = sat_mul(big, s);
    let room = sat_sub(product, (2 * (s - 1)) as u64);
    assert(room_gb(sector, region) == room / 1_000_000_000);
    if offset + gb == 0 {
        lemma_ceil_div(0, s as nat);
        assert(sat_mul(0, 1_000_000_000) == 0);
        assert(gb_sectors(offset, sector) == 0);
        assert(gb_sectors(gb, sector) == 0);
        return;
    }
    assert((offset + gb) * 1_000_000_000 <= room) by (nonlinear_arith)
        requires
            offset + gb <= room / 1_000_000_000,
    {
    }
    assert(sat_mul(offset, 1_000_000_000) == offset * 1_000_000_000);
    assert(sat_mul(gb, 1_000_000_000) == gb * 1_000_000_000);
    assert(product <= big * s) by (nonlinear_arith)
        requires
            product == sat_mul(big, s),
    {
    }
    let a: nat = (offset * 1_000_000_000) as nat;
    let b: nat = (gb * 1_000_000_000) as nat;
    lemma_ceil_div(a, s as nat);
    lemma_ceil_div(b, s as nat);
    let ca = ceil_div(a, s as nat);
    let cb = ceil_div(b, s as nat);
    assert(a + b + 2 * (s - 1) <= big * s);
    assert(ca + cb <= big) by (nonlinear_arith)
        requires
            ca * s <= a + s - 1,
            cb * s <= b + s - 1,
            a + b + 2 * (s - 1) <= big * s,
            s >= 1,
    {
    }
}

// ---------------------------------------------------------------------------
// Free spans

/// A span in sector order: after every span that starts at or before it.
pub open spec fn starts_after(at: u64) -> spec_fn(Region) -> bool {
    |r: Region| r.start > at
}

/// Where a stable sort by start places `x` among `sorted`: after every span
/// that starts at or before it.
pub open spec fn insert_at(sorted: Seq<Region>, x: Region) -> int {
    match first_where(sorted, starts_after(x.start)) {
        Some(i) => i,
        None => sorted.len() as int,
    }
}

/// Spans sorted by their start, equal starts keeping their order, as
/// `sort_by_key` sorts them.
pub open spec fn sort_by_start(s: Seq<Region>) -> Seq<Region>
    decreases s.len(),
{
    if s.len() == 0 {
        s
    } else {
        let sorted = sort_by_start(s.drop_last());
        sorted.insert(insert_at(sorted, s.last()), s.last())
    }
}

pub open spec fn in_start_order(s: Seq<Region>) -> bool {
    forall|i: int, j: int| 0 <= i < j < s.len() ==> s[i].start <= s[j].start
}

proof fn lemma_insert_at(sorted: Seq<Region>, x: Region)
    ensures
        0 <= insert_at(sorted, x) <= sorted.len(),
{
    crate::seqs::lemma_first_where_found(sorted, starts_after(x.start));
}

/// Sorting by start gives the same spans, in start order.
pub proof fn lemma_sort_by_start(s: Seq<Region>)
    ensures
        sort_by_start(s).len() == s.len(),
        in_start_order(sort_by_start(s)),
        forall|i: int| 0 <= i < s.len() ==> sort_by_start(s).contains(#[trigger] s[i]),
        forall|i: int| 0 <= i < s.len() ==> s.contains(#[trigger] sort_by_start(s)[i]),
    decreases s.len(),
{
    if s.len() > 0 {
        let rest = s.drop_last();
        let sorted = sort_by_start(rest);
        let x = s.last();
        lemma_sort_by_start(rest);
        crate::seqs::lemma_first_where_found(sorted, starts_after(x.start));
        let p = insert_at(sorted, x);
        sorted.insert_ensures(p, x);
        let out = sorted.insert(p, x);
        assert(out[p] == x);
        assert forall|i: int, j: int| 0 <= i < j < out.len() implies out[i].start <= out[j].start by {
            if j < p {
                assert(out[i] == sorted[i] && out[j] == sorted[j]);
            } else if j == p {
                if i < p {
                    assert(out[i] == sorted[i]);
                    assert(!starts_after(x.start)(sorted[i]));
                }
            } else if i < p {
                assert(out[i] == sorted[i] && out[j] == sorted[j - 1]);
            } else if i == p {
                assert(out[j] == sorted[j - 1]);
                assert(starts_after(x.start)(sorted[p]));
                assert(sorted[p].start <= sorted[j - 1].start);
            } else {
                assert(out[i] == sorted[i - 1] && out[j] == sorted[j - 1]);
            }
        }
        assert forall|i: int| 0 <= i < s.len() implies out.contains(#[trigger] s[i]) by {
            if i == s.len() - 1 {
                assert(out[p] == s[i]);
            } else {
                assert(rest[i] == s[i]);
                assert(sorted.contains(rest[i]));
                let k = choose|k: int| 0 <= k < sorted.len() && sorted[k] == rest[i];
                if k < p {
                    assert(out[k] == s[i]);
                } else {
                    assert(out[k + 1] == s[i]);
                }
            }
        }
        assert forall|i: int| 0 <= i < out.len() implies s.contains(#[trigger] out[i]) by {
            if i == p {
                assert(s[s.len() - 1] == out[i]);
            } else {
                let k = if i < p { i } else { i - 1 };
                assert(out[i] == sorted[k]);
                assert(rest.contains(sorted[k]));
                let m = choose|m: int| 0 <= m < rest.len() && rest[m] == sorted[k];
                assert(s[m] == out[i]);
            }
        }
    }
}

/// Sorts spans by their start, keeping equal starts in order.
pub fn sorted_by_start(spans: &Vec<Region>) -> (out: Vec<Region>)
    ensures
        out@ == sort_by_start(spans@),
{
    let mut out: Vec<Region> = Vec::new();
    let mut i: usize = 0;
    while i < spans.len()
        invariant
            i <= spans.len(),
            out@ == sort_by_start(spans@.take(i as int)),
        decreases spans.len() - i,
    {
        let x = spans[i];
        let mut j: usize = 0;
        while j < out.len() && out[j].start <= x.start
            invariant
                j <= out.len(),
                forall|k: int| 0 <= k < j ==> !starts_after(x.start)(#[trigger] out@[k]),
            decreases out.len() - j,
        {
            j = j + 1;
        }
        proof {
            lemma_first_where(out@, starts_after(x.start), j as int);
            assert(spans@.take(i + 1).drop_last() =~= spans@.take(i as int));
            assert(spans@.take(i + 1).last() == x);
        }
        out.insert(j, x);
        i = i + 1;
    }
    assert(spans@.take(i as int) =~= spans@);
    out
}

/// The free spans between `first` and `last` (inclusive) that spans in start
/// order leave, swept from `at`. A span overlapping the one before it pushes
/// the sweep to its end and leaves no gap.
pub open spec fn sweep(spans: Seq<Region>, at: u64, last: u64) -> Seq<Region>
    decreases spans.len(),
{
    if spans.len() == 0 {
        if at <= last {
            seq![Region { start: at, sectors: (sat_add(last, 1) - at) as u64 }]
        } else {
            Seq::empty()
        }
    } else {
        let s = spans[0];
        let gap = if s.start > at {
            seq![Region { start: at, sectors: (s.start - at) as u64 }]
        } else {
            Seq::empty()
        };
        let reach = sat_add(s.start, s.sectors);
        gap + sweep(spans.drop_first(), if at >= reach { at } else { reach }, last)
    }
}

/// The spans of the slots that survive `gone`, in table order.
pub open spec fn surviving_spans(slots: Seq<Slot>, gone: Seq<usize>) -> Seq<Region>
    decreases slots.len(),
{
    if slots.len() == 0 {
        Seq::empty()
    } else {
        let rest = surviving_spans(slots.drop_last(), gone);
        let slot = slots.last();
        if survives(slot, gone) {
            rest.push(Region { start: slot.start, sectors: slot.sectors })
        } else {
            rest
        }
    }
}

impl DiskTable {
    /// The spans of the partitions the planned deletes leave standing: none
    /// where they clear the table.
    pub open spec fn kept_spans(self, deletes: Seq<Seq<char>>) -> Seq<Region> {
        if self.cleared(deletes) {
            Seq::empty()
        } else {
            surviving_spans(self.slots@, deleted(deletes))
        }
    }

    /// The free spans the table leaves once the planned deletes have run.
    pub open spec fn free_spans(self, deletes: Seq<Seq<char>>) -> Seq<Region> {
        sweep(sort_by_start(self.kept_spans(deletes)), self.first, self.last)
    }

    /// The free spans this table leaves once the planned deletes have run,
    /// in sector order. A delete merges the free space on both its sides,
    /// because the partition that separated them is gone. The spans are raw;
    /// a create is placed in one through `aligned`.
    pub fn regions(&self, deletes: &[String]) -> (out: Vec<Region>)
        ensures
            out@ == self.free_spans(deletes.deep_view()),
    {
        let gone = deleted_slots(deletes);
        let mut kept: Vec<Region> = Vec::new();
        if !self.cleared_by(deletes) {
            let mut i: usize = 0;
            while i < self.slots.len()
                invariant
                    i <= self.slots@.len(),
                    gone@ == deleted(deletes.deep_view()),
                    kept@ == surviving_spans(self.slots@.take(i as int), gone@),
                decreases self.slots.len() - i,
            {
                assert(self.slots@.take(i + 1).drop_last() =~= self.slots@.take(i as int));
                if !contains_usize(&gone, self.slots[i].number) {
                    kept.push(Region { start: self.slots[i].start, sectors: self.slots[i].sectors });
                }
                i = i + 1;
            }
            assert(self.slots@.take(i as int) =~= self.slots@);
        }
        assert(kept@ == self.kept_spans(deletes.deep_view()));
        let sorted = sorted_by_start(&kept);
        let mut out: Vec<Region> = Vec::new();
        let mut at: u64 = self.first;
        let mut k: usize = 0;
        assert(sorted@.subrange(0, sorted@.len() as int) =~= sorted@);
        assert(out@ + sweep(sorted@, at, self.last) =~= sweep(sorted@, self.first, self.last));
        while k < sorted.len()
            invariant
                k <= sorted@.len(),
                out@ + sweep(sorted@.subrange(k as int, sorted@.len() as int), at, self.last)
                    == sweep(sorted@, self.first, self.last),
            decreases sorted.len() - k,
        {
            let slot = sorted[k];
            let ghost rest = sorted@.subrange(k as int, sorted@.len() as int);
            assert(rest[0] == slot);
            assert(rest.drop_first() =~= sorted@.subrange(k + 1, sorted@.len() as int));
            let ghost old_out = out@;
            let ghost old_at = at;
            if slot.start > at {
                out.push(Region { start: at, sectors: slot.start - at });
            }
            let reach = slot.start.saturating_add(slot.sectors);
            if reach > at {
                at = reach;
            }
            proof {
                let next = sorted@.subrange(k + 1, sorted@.len() as int);
                let gap = if slot.start > old_at {
                    seq![Region { start: old_at, sectors: (slot.start - old_at) as u64 }]
                } else {
                    Seq::<Region>::empty()
                };
                assert(out@ =~= old_out + gap);
                assert(sweep(rest, old_at, self.last) == gap + sweep(next, at, self.last));
                assert(out@ + sweep(next, at, self.last) =~= old_out + sweep(rest, old_at, self.last));
            }
            k = k + 1;
        }
        if at <= self.last {
            out.push(Region { start: at, sectors: self.last.saturating_add(1) - at });
        }
        proof {
            assert(sorted@.subrange(k as int, sorted@.len() as int) =~= Seq::<Region>::empty());
        }
        out
    }
}

// ---------------------------------------------------------------------------
// Placing creates

/// A span whose end stays inside the sectors a table may address.
pub open spec fn bounded(r: Region) -> bool {
    r.start + r.sectors <= sector_limit() + 1
}

pub open spec fn all_bounded(free: Seq<Region>) -> bool {
    forall|i: int| 0 <= i < free.len() ==> bounded(#[trigger] free[i])
}

/// A bounded span can be rounded to the alignment without overflow.
proof fn lemma_bounded_alignable(sector: u64, r: Region)
    requires
        bounded(r),
    ensures
        alignable(sector, r),
        aligned_span(sector, r).start + aligned_span(sector, r).sectors <= r.start + r.sectors
            || aligned_span(sector, r).sectors == 0,
{
    lemma_alignment(sector);
    let a = alignment_of(sector);
    lemma_ceil_div(r.start as nat, a as nat);
    let reach = sat_add(r.start, r.sectors);
    assert((reach / a) * a <= reach) by (nonlinear_arith)
        requires
            a >= 1,
    {
    }
}

/// The span a create of `before` and `size` sectors fits in.
pub open spec fn fits_in(sector: u64, before: u64, size: u64) -> spec_fn(Region) -> bool {
    |r: Region| sat_add(before, size) <= aligned_span(sector, r).sectors
}

/// The most whole GB one of the spans offers a create.
pub open spec fn largest_room(sector: u64, free: Seq<Region>) -> u64
    decreases free.len(),
{
    if free.len() == 0 {
        0
    } else {
        let here = room_gb(sector, free.last());
        let rest = largest_room(sector, free.drop_last());
        if here > rest {
            here
        } else {
            rest
        }
    }
}

/// Places one create of `offset` and `gb` whole GB in the lowest span with
/// room for both: its start sector and the spans left, in start order, or
/// `None` where no span holds it. The head and the tail the create did not
/// take stay free.
pub open spec fn place_one(sector: u64, free: Seq<Region>, offset: u64, gb: u64) -> Option<
    (u64, Seq<Region>),
> {
    let before = gb_sectors(offset, sector);
    let size = gb_sectors(gb, sector);
    match first_where(free, fits_in(sector, before, size)) {
        None => None,
        Some(at) => {
            let region = free[at];
            let aligned = aligned_span(sector, region);
            let start = sat_add(aligned.start, before);
            let rest = free.remove(at);
            let with_head = if aligned.start < start {
                rest.push(Region { start: aligned.start, sectors: (start - aligned.start) as u64 })
            } else {
                rest
            };
            let end = sat_add(start, size);
            let last = sat_add(region.start, region.sectors);
            let with_tail = if end < last {
                with_head.push(Region { start: end, sectors: (last - end) as u64 })
            } else {
                with_head
            };
            Some((start, sort_by_start(with_tail)))
        },
    }
}

/// Places every create in order: each one's start sector and the spans left
/// after the last, or the largest room left where one does not fit.
pub open spec fn place_all(sector: u64, free: Seq<Region>, creates: Seq<Created>) -> Result<
    (Seq<u64>, Seq<Region>),
    u64,
>
    decreases creates.len(),
{
    if creates.len() == 0 {
        Ok((Seq::empty(), free))
    } else {
        match place_one(sector, free, creates[0].offset, creates[0].gb) {
            None => Err(largest_room(sector, free)),
            Some((start, left)) => match place_all(sector, left, creates.drop_first()) {
                Ok((starts, rest)) => Ok((seq![start] + starts, rest)),
                Err(room) => Err(room),
            },
        }
    }
}

/// What placing the rest of the creates gives, with the starts already
/// placed in front.
pub open spec fn placed_after(starts: Seq<u64>, rest: Result<(Seq<u64>, Seq<Region>), u64>) -> Result<
    (Seq<u64>, Seq<Region>),
    u64,
> {
    match rest {
        Ok((more, left)) => Ok((starts + more, left)),
        Err(room) => Err(room),
    }
}

/// Placing one create keeps every span bounded.
proof fn lemma_place_one_bounded(sector: u64, free: Seq<Region>, offset: u64, gb: u64)
    requires
        all_bounded(free),
    ensures
        place_one(sector, free, offset, gb) matches Some((_, left)) ==> all_bounded(left),
{
    let before = gb_sectors(offset, sector);
    let size = gb_sectors(gb, sector);
    crate::seqs::lemma_first_where_found(free, fits_in(sector, before, size));
    if let Some(at) = first_where(free, fits_in(sector, before, size)) {
        let region = free[at];
        assert(bounded(region));
        lemma_bounded_alignable(sector, region);
        let aligned = aligned_span(sector, region);
        let start = sat_add(aligned.start, before);
        let rest = free.remove(at);
        free.remove_ensures(at);
        assert(all_bounded(rest)) by {
            assert forall|i: int| 0 <= i < rest.len() implies bounded(#[trigger] rest[i]) by {
                if i < at {
                    assert(rest[i] == free[i]);
                } else {
                    assert(rest[i] == free[i + 1]);
                }
            }
        }
        let with_head = if aligned.start < start {
            rest.push(Region { start: aligned.start, sectors: (start - aligned.start) as u64 })
        } else {
            rest
        };
        assert(all_bounded(with_head)) by {
            if aligned.start < start {
                assert(before > 0);
                assert(aligned.sectors > 0);
                assert(bounded(with_head.last()));
                assert forall|i: int| 0 <= i < with_head.len() implies bounded(#[trigger] with_head[i]) by {
                    if i < rest.len() {
                        assert(with_head[i] == rest[i]);
                    }
                }
            }
        }
        let end = sat_add(start, size);
        let last = sat_add(region.start, region.sectors);
        let with_tail = if end < last {
            with_head.push(Region { start: end, sectors: (last - end) as u64 })
        } else {
            with_head
        };
        assert(all_bounded(with_tail)) by {
            if end < last {
                assert forall|i: int| 0 <= i < with_tail.len() implies bounded(#[trigger] with_tail[i]) by {
                    if i < with_head.len() {
                        assert(with_tail[i] == with_head[i]);
                    }
                }
            }
        }
        lemma_sort_by_start(with_tail);
        let sorted = sort_by_start(with_tail);
        assert forall|i: int| 0 <= i < sorted.len() implies bounded(#[trigger] sorted[i]) by {
            assert(with_tail.contains(sorted[i]));
        }
    }
}

/// The most whole GB one of the spans offers a create.
pub fn largest_room_of(table: &DiskTable, free: &Vec<Region>) -> (largest: u64)
    requires
        all_bounded(free@),
        table.sector <= 0x8000_0000_0000_0000,
    ensures
        largest == largest_room(table.sector, free@),
{
    let mut largest: u64 = 0;
    let mut j: usize = 0;
    while j < free.len()
        invariant
            j <= free@.len(),
            all_bounded(free@),
            table.sector <= 0x8000_0000_0000_0000,
            largest == largest_room(table.sector, free@.take(j as int)),
        decreases free.len() - j,
    {
        assert(free@.take(j + 1).drop_last() =~= free@.take(j as int));
        proof {
            lemma_bounded_alignable(table.sector, free@[j as int]);
        }
        let room = table.placeable_gb(&free[j]);
        if room > largest {
            largest = room;
        }
        j = j + 1;
    }
    assert(free@.take(j as int) =~= free@);
    largest
}

/// Places one create in the lowest free span with room for its offset and
/// size: its start sector and the spans left, or `None` where none holds it.
pub fn place_next(table: &DiskTable, free: &Vec<Region>, create: &Created) -> (out: Option<
    (u64, Vec<Region>),
>)
    requires
        all_bounded(free@),
        table.sector <= 0x8000_0000_0000_0000,
    ensures
        match (out, place_one(table.sector, free@, create.offset, create.gb)) {
            (Some((start, left)), Some((s, l))) => start == s && left@ == l,
            (None, None) => true,
            _ => false,
        },
{
    let sector = if table.sector >= 1 { table.sector } else { 1 };
    let before = div_ceil(saturating_mul(create.offset, 1_000_000_000), sector);
    let size = div_ceil(saturating_mul(create.gb, 1_000_000_000), sector);
    assert(before == gb_sectors(create.offset, table.sector));
    assert(size == gb_sectors(create.gb, table.sector));
    let ghost fits = fits_in(table.sector, before, size);
    let mut at: usize = 0;
    let mut found = false;
    while at < free.len()
        invariant_except_break
            !found,
        invariant
            at <= free@.len(),
            all_bounded(free@),
            fits == fits_in(table.sector, before, size),
            forall|j: int| 0 <= j < at ==> !fits(#[trigger] free@[j]),
        ensures
            at <= free@.len(),
            forall|j: int| 0 <= j < at ==> !fits(#[trigger] free@[j]),
            found ==> at < free@.len() && fits(free@[at as int]),
            !found ==> at == free@.len(),
        decreases free.len() - at,
    {
        proof {
            lemma_bounded_alignable(table.sector, free@[at as int]);
        }
        let aligned = table.aligned(&free[at]);
        if before.saturating_add(size) <= aligned.sectors {
            found = true;
            break;
        }
        at = at + 1;
    }
    proof {
        lemma_first_where(free@, fits, at as int);
    }
    if !found {
        return None;
    }
    let mut left = free.clone();
    assert(left@ == free@);
    let region = left.remove(at);
    proof {
        lemma_bounded_alignable(table.sector, region);
    }
    let aligned = table.aligned(&region);
    let start = aligned.start.saturating_add(before);
    if aligned.start < start {
        left.push(Region { start: aligned.start, sectors: start - aligned.start });
    }
    let end = start.saturating_add(size);
    let last = region.start.saturating_add(region.sectors);
    if end < last {
        left.push(Region { start: end, sectors: last - end });
    }
    let left = sorted_by_start(&left);
    Some((start, left))
}

/// Places every create in a free region, in the order the plan holds them,
/// and returns each create's starting sector and the regions left over. A
/// create takes the lowest region with room for its offset and size, so the
/// hole a delete left is used before the tail. `Err` carries the largest free
/// region in whole GB, which is what a refusal states.
pub fn place_creates(table: &DiskTable, deletes: &[String], creates: &[Created]) -> (out: Result<
    (Vec<u64>, Vec<Region>),
    u64,
>)
    requires
        table.addressable(),
    ensures
        match (out, place_all(table.sector, table.free_spans(deletes.deep_view()), creates@)) {
            (Ok((starts, left)), Ok((s, l))) => starts@ == s && left@ == l,
            (Err(room), Err(r)) => room == r,
            _ => false,
        },
{
    let mut free = table.regions(deletes);
    proof {
        lemma_free_spans_bounded(*table, deletes.deep_view());
    }
    let ghost initial = free@;
    let mut starts: Vec<u64> = Vec::new();
    let mut i: usize = 0;
    assert(creates@.subrange(0, creates@.len() as int) =~= creates@);
    assert(starts@ + Seq::<u64>::empty() =~= starts@);
    while i < creates.len()
        invariant
            i <= creates@.len(),
            table.addressable(),
            all_bounded(free@),
            initial == table.free_spans(deletes.deep_view()),
            place_all(table.sector, initial, creates@) == placed_after(
                starts@,
                place_all(table.sector, free@, creates@.subrange(i as int, creates@.len() as int)),
            ),
        decreases creates.len() - i,
    {
        let ghost todo = creates@.subrange(i as int, creates@.len() as int);
        assert(todo[0] == creates@[i as int]);
        assert(todo.drop_first() =~= creates@.subrange(i + 1, creates@.len() as int));
        proof {
            lemma_place_one_bounded(table.sector, free@, creates@[i as int].offset, creates@[i as int].gb);
        }
        match place_next(table, &free, &creates[i]) {
            None => {
                let largest = largest_room_of(table, &free);
                return Err(largest);
            },
            Some((start, left)) => {
                let ghost rest = place_all(table.sector, left@, todo.drop_first());
                let ghost before = starts@;
                starts.push(start);
                proof {
                    match rest {
                        Ok((more, _)) => {
                            assert(before + (seq![start] + more) =~= starts@ + more);
                        },
                        Err(_) => {},
                    }
                }
                free = left;
            },
        }
        i = i + 1;
    }
    proof {
        assert(creates@.subrange(i as int, creates@.len() as int) =~= Seq::<Created>::empty());
        assert(starts@ + Seq::<u64>::empty() =~= starts@);
    }
    Ok((starts, free))
}

/// Every span a table's free spans hold ends inside the sectors it addresses.
pub proof fn lemma_free_spans_bounded(table: DiskTable, deletes: Seq<Seq<char>>)
    requires
        table.addressable(),
    ensures
        all_bounded(table.free_spans(deletes)),
{
    let kept = table.kept_spans(deletes);
    lemma_kept_spans_start(table, deletes);
    lemma_sort_by_start(kept);
    let sorted = sort_by_start(kept);
    assert forall|i: int| 0 <= i < sorted.len() implies (#[trigger] sorted[i]).start <= sector_limit() by {
        assert(kept.contains(sorted[i]));
    }
    lemma_sweep_bounded(sorted, table.first, table.last);
}

proof fn lemma_kept_spans_start(table: DiskTable, deletes: Seq<Seq<char>>)
    requires
        table.addressable(),
    ensures
        forall|i: int| 0 <= i < table.kept_spans(deletes).len() ==> (#[trigger] table.kept_spans(deletes)[i]).start <= sector_limit(),
{
    if !table.cleared(deletes) {
        lemma_surviving_spans_start(table.slots@, deleted(deletes));
    }
}

proof fn lemma_surviving_spans_start(slots: Seq<Slot>, gone: Seq<usize>)
    requires
        forall|i: int| 0 <= i < slots.len() ==> (#[trigger] slots[i]).start <= sector_limit(),
    ensures
        forall|i: int| 0 <= i < surviving_spans(slots, gone).len() ==> (#[trigger] surviving_spans(slots, gone)[i]).start <= sector_limit(),
    decreases slots.len(),
{
    if slots.len() > 0 {
        let rest = slots.drop_last();
        assert forall|i: int| 0 <= i < rest.len() implies (#[trigger] rest[i]).start <= sector_limit() by {
            assert(rest[i] == slots[i]);
        }
        lemma_surviving_spans_start(rest, gone);
        assert(slots.last().start <= sector_limit());
        let before = surviving_spans(rest, gone);
        let out = surviving_spans(slots, gone);
        assert forall|i: int| 0 <= i < out.len() implies (#[trigger] out[i]).start <= sector_limit() by {
            if i < before.len() {
                assert(out[i] == before[i]);
            }
        }
    }
}

proof fn lemma_sweep_bounded(spans: Seq<Region>, at: u64, last: u64)
    requires
        forall|i: int| 0 <= i < spans.len() ==> (#[trigger] spans[i]).start <= sector_limit(),
        last <= sector_limit(),
    ensures
        all_bounded(sweep(spans, at, last)),
    decreases spans.len(),
{
    if spans.len() > 0 {
        let s = spans[0];
        let reach = sat_add(s.start, s.sectors);
        let next = if at >= reach { at } else { reach };
        let rest = spans.drop_first();
        assert forall|i: int| 0 <= i < rest.len() implies (#[trigger] rest[i]).start <= sector_limit() by {
            assert(rest[i] == spans[i + 1]);
        }
        lemma_sweep_bounded(rest, next, last);
        let gap = if s.start > at {
            seq![Region { start: at, sectors: (s.start - at) as u64 }]
        } else {
            Seq::<Region>::empty()
        };
        let out = sweep(spans, at, last);
        assert(out == gap + sweep(rest, next, last));
        assert forall|i: int| 0 <= i < out.len() implies bounded(#[trigger] out[i]) by {
            if i < gap.len() {
                assert(out[i] == gap[i]);
            } else {
                assert(out[i] == sweep(rest, next, last)[i - gap.len()]);
            }
        }
    }
}

/// A pair that fits in the room of some free span always finds a span:
/// `place_one` refuses only a create no span's room holds.
pub proof fn lemma_room_places(sector: u64, free: Seq<Region>, offset: u64, gb: u64, i: int)
    requires
        0 <= i < free.len(),
        offset + gb <= room_gb(sector, free[i]),
        sector <= 0x8000_0000_0000_0000,
    ensures
        place_one(sector, free, offset, gb) is Some,
{
    lemma_room_holds(sector, free[i], offset, gb);
    let before = gb_sectors(offset, sector);
    let size = gb_sectors(gb, sector);
    assert(fits_in(sector, before, size)(free[i]));
    crate::seqs::lemma_first_where_found(free, fits_in(sector, before, size));
}

/// The room a plan's next create has: the first free region's whole GB,
/// which is the size the create window opens on, and the largest free
/// region's whole GB, which is the most one create can take.
#[derive(Clone, Copy, Debug, PartialEq, Eq, Structural)]
pub struct Rooms {
    pub first: u64,
    pub largest: u64,
}

/// The first positive room among the spans, in their order, or zero.
pub open spec fn first_room(sector: u64, free: Seq<Region>) -> u64
    decreases free.len(),
{
    if free.len() == 0 {
        0
    } else if room_gb(sector, free[0]) > 0 {
        room_gb(sector, free[0])
    } else {
        first_room(sector, free.drop_first())
    }
}

/// The rooms the create window offers once the plan's own creates are
/// placed: none where they no longer fit, with the largest room stated.
pub open spec fn rooms_of(table: DiskTable, deletes: Seq<Seq<char>>, creates: Seq<Created>) -> Rooms {
    match place_all(table.sector, table.free_spans(deletes), creates) {
        Ok((_, free)) => Rooms { first: first_room(table.sector, free), largest: largest_room(table.sector, free) },
        Err(largest) => Rooms { first: 0, largest },
    }
}

proof fn lemma_place_all_bounded(sector: u64, free: Seq<Region>, creates: Seq<Created>)
    requires
        all_bounded(free),
    ensures
        place_all(sector, free, creates) matches Ok((_, left)) ==> all_bounded(left),
    decreases creates.len(),
{
    if creates.len() > 0 {
        lemma_place_one_bounded(sector, free, creates[0].offset, creates[0].gb);
        if let Some((_, left)) = place_one(sector, free, creates[0].offset, creates[0].gb) {
            lemma_place_all_bounded(sector, left, creates.drop_first());
        }
    }
}

/// Gives the room the create window offers, with the plan's own creates
/// placed first, so a second create sees what the first left.
pub fn create_rooms(table: &DiskTable, deletes: &[String], creates: &[Created]) -> (rooms: Rooms)
    requires
        table.addressable(),
    ensures
        rooms == rooms_of(*table, deletes.deep_view(), creates@),
{
    proof {
        lemma_free_spans_bounded(*table, deletes.deep_view());
        lemma_place_all_bounded(table.sector, table.free_spans(deletes.deep_view()), creates@);
    }
    let free = match place_creates(table, deletes, creates) {
        Ok((_, free)) => free,
        Err(largest) => return Rooms { first: 0, largest },
    };
    let largest = largest_room_of(table, &free);
    let mut first: u64 = 0;
    let mut i: usize = 0;
    assert(free@.subrange(0, free@.len() as int) =~= free@);
    while i < free.len() && first == 0
        invariant
            i <= free@.len(),
            all_bounded(free@),
            table.sector <= 0x8000_0000_0000_0000,
            first == 0 ==> first_room(table.sector, free@) == first_room(
                table.sector,
                free@.subrange(i as int, free@.len() as int),
            ),
            first != 0 ==> first == first_room(table.sector, free@),
        decreases free.len() - i,
    {
        let ghost rest = free@.subrange(i as int, free@.len() as int);
        assert(rest.drop_first() =~= free@.subrange(i + 1, free@.len() as int));
        assert(rest[0] == free@[i as int]);
        proof {
            lemma_bounded_alignable(table.sector, free@[i as int]);
        }
        let room = table.placeable_gb(&free[i]);
        if room > 0 {
            first = room;
        }
        i = i + 1;
    }
    proof {
        if first == 0 {
            assert(free@.subrange(i as int, free@.len() as int) =~= Seq::<Region>::empty());
        }
    }
    Rooms { first, largest }
}

// ---------------------------------------------------------------------------
// Screens and checks

/// The slot numbers of the partitions the editor draws that the plan keeps,
/// in the order drawn.
pub open spec fn drawn(parts: Seq<Partition>, deletes: Seq<String>) -> Seq<usize>
    decreases parts.len(),
{
    if parts.len() == 0 {
        Seq::empty()
    } else {
        let rest = drawn(parts.drop_last(), deletes);
        let part = parts.last();
        if !holds_text(deletes, part.device@) && slot_of(part.device@) is Some {
            rest.push(slot_of(part.device@)->0)
        } else {
            rest
        }
    }
}

/// The surviving slot numbers as the editor screen holds them, which are the
/// disk's partitions less the ones the plan removes.
pub fn drawn_slots(parts: &[Partition], deletes: &Vec<String>) -> (out: Vec<usize>)
    ensures
        out@ == drawn(parts@, deletes@),
{
    let mut out: Vec<usize> = Vec::new();
    let mut i: usize = 0;
    while i < parts.len()
        invariant
            i <= parts@.len(),
            out@ == drawn(parts@.take(i as int), deletes@),
        decreases parts.len() - i,
    {
        assert(parts@.take(i + 1).drop_last() =~= parts@.take(i as int));
        let device = parts[i].device.as_str();
        if !contains_str(deletes, device) {
            match partition_number(device) {
                Ok(n) => out.push(n),
                Err(_) => {},
            }
        }
        i = i + 1;
    }
    assert(parts@.take(i as int) =~= parts@);
    out
}

/// The GPT type a created partition is cut with: firmware finds the ESP by
/// its type GUID, so the partition that mounts at `/boot/efi` is cut as an
/// EFI System partition (`U`), and every other as Linux data (`L`).
pub fn created_type(target: &str) -> (kind: &'static str)
    ensures
        kind@ == (if target@ == "/boot/efi"@ { "U"@ } else { "L"@ }),
{
    if crate::text::str_eq(target, "/boot/efi") {
        "U"
    } else {
        "L"
    }
}

/// The refusal for a planned slot the table the cut wrote does not hold.
pub open spec fn slot_missing_text(number: usize, disk: Seq<char>) -> Seq<char> {
    "partition "@ + decimal(number as nat)
        + " is not in the partition table the cut wrote; the disk numbered the new partitions differently than the screen drew them\n\n"@
        + "the partition table on "@ + disk + " has already been changed"@
}

/// The refusal for a created partition `sfdisk` shrank.
pub open spec fn slot_short_text(number: usize, got_gb: nat, asked_gb: nat, disk: Seq<char>) -> Seq<char> {
    "partition "@ + decimal(number as nat) + " was cut at "@ + decimal(got_gb)
        + " GB, though the plan asked for "@ + decimal(asked_gb)
        + " GB; sfdisk shrank it to fit and did not say so\n\n"@ + "the partition table on "@
        + disk + " has already been changed"@
}

/// The first slot of a table with number `n`.
pub open spec fn slot_numbered(n: usize) -> spec_fn(Slot) -> bool {
    |slot: Slot| slot.number == n
}

/// What the check finds for one planned create and its number: nothing
/// wrong, or the refusal.
pub open spec fn created_slot_check(create: Created, number: usize, after: DiskTable, disk: Seq<char>) -> Option<Seq<char>> {
    match first_where(after.slots@, slot_numbered(number)) {
        None => Some(slot_missing_text(number, disk)),
        Some(k) => {
            let got = sat_mul(after.slots@[k].sectors, after.sector);
            let asked = sat_mul(create.gb, 1_000_000_000);
            if got < sat_sub(asked, asked / 100) {
                Some(slot_short_text(number, (got / 1_000_000_000) as nat, create.gb as nat, disk))
            } else {
                None
            }
        },
    }
}

/// The first refusal among the planned creates, taken with their numbers in
/// plan order as far as both run.
pub open spec fn created_slots_check(creates: Seq<Created>, numbers: Seq<usize>, after: DiskTable, disk: Seq<char>) -> Option<Seq<char>>
    decreases creates.len(),
{
    if creates.len() == 0 || numbers.len() == 0 {
        None
    } else {
        match created_slot_check(creates[0], numbers[0], after, disk) {
            Some(why) => Some(why),
            None => created_slots_check(creates.drop_first(), numbers.drop_first(), after, disk),
        }
    }
}

/// Reads the table the cut just wrote and decides whether each planned slot
/// exists at the size asked. `sfdisk` exits zero when an append names no
/// partition at all, and shrinks a partition the disk cannot hold without
/// saying so. One percent of slack covers its 1 MiB alignment.
pub fn check_created_slots(layout: &CustomLayout, numbers: &[usize], after: &DiskTable) -> (out: Result<(), String>)
    ensures
        match out {
            Ok(()) => created_slots_check(layout.creates@, numbers@, *after, layout.disk@) is None,
            Err(why) => created_slots_check(layout.creates@, numbers@, *after, layout.disk@) == Some(why@),
        },
{
    let mut i: usize = 0;
    assert(layout.creates@.subrange(0, layout.creates@.len() as int) =~= layout.creates@);
    assert(numbers@.subrange(0, numbers@.len() as int) =~= numbers@);
    while i < layout.creates.len() && i < numbers.len()
        invariant
            i <= layout.creates@.len(),
            i <= numbers@.len(),
            created_slots_check(layout.creates@, numbers@, *after, layout.disk@) == created_slots_check(
                layout.creates@.subrange(i as int, layout.creates@.len() as int),
                numbers@.subrange(i as int, numbers@.len() as int),
                *after,
                layout.disk@,
            ),
        decreases layout.creates.len() - i,
    {
        let create = &layout.creates[i];
        let number = numbers[i];
        let ghost cs = layout.creates@.subrange(i as int, layout.creates@.len() as int);
        let ghost ns = numbers@.subrange(i as int, numbers@.len() as int);
        assert(cs[0] == *create && ns[0] == number);
        assert(cs.drop_first() =~= layout.creates@.subrange(i + 1, layout.creates@.len() as int));
        assert(ns.drop_first() =~= numbers@.subrange(i + 1, numbers@.len() as int));
        let mut k: usize = 0;
        while k < after.slots.len() && after.slots[k].number != number
            invariant
                k <= after.slots@.len(),
                forall|j: int| 0 <= j < k ==> !slot_numbered(number)(#[trigger] after.slots@[j]),
            decreases after.slots.len() - k,
        {
            k = k + 1;
        }
        proof {
            lemma_first_where(after.slots@, slot_numbered(number), k as int);
        }
        if k == after.slots.len() {
            let mut why = cat3("partition ", &decimal_usize(number), " is not in the partition table the cut wrote; the disk numbered the new partitions differently than the screen drew them\n\n");
            let tail = copy::table_already_changed(layout.disk.as_str());
            why.append(tail.as_str());
            return Err(why);
        }
        let got = saturating_mul(after.slots[k].sectors, after.sector);
        let asked = saturating_mul(create.gb, 1_000_000_000);
        if got < asked.saturating_sub(asked / 100) {
            let mut why = cat5("partition ", &decimal_usize(number), " was cut at ", &decimal_u64(got / 1_000_000_000), " GB, though the plan asked for ");
            why.append(decimal_u64(create.gb).as_str());
            why.append(" GB; sfdisk shrank it to fit and did not say so\n\n");
            let tail = copy::table_already_changed(layout.disk.as_str());
            why.append(tail.as_str());
            return Err(why);
        }
        i = i + 1;
    }
    proof {
        let cs = layout.creates@.subrange(i as int, layout.creates@.len() as int);
        let ns = numbers@.subrange(i as int, numbers@.len() as int);
        assert(cs.len() == 0 || ns.len() == 0);
    }
    Ok(())
}

/// The span a table that is not GPT leaves partitions, which is GPT's own:
/// from the first aligned sector to the last sector before the secondary
/// header's 33-sector reserve, in the disk's own sectors. A GPT table keeps
/// the span it states.
pub fn with_span(table: DiskTable, nsectors: u64) -> (out: DiskTable)
    ensures
        out.label == table.label && out.sector == table.sector && out.slots == table.slots,
        table.label@ == "gpt"@ ==> out.first == table.first && out.last == table.last,
        table.label@ != "gpt"@ ==> out.first == 0x10_0000u64 / (if table.sector >= 1 { table.sector } else { 1u64 })
            && out.last == sat_sub(nsectors, 34),
{
    if crate::text::str_eq(table.label.as_str(), "gpt") {
        table
    } else {
        let sector = if table.sector >= 1 { table.sector } else { 1 };
        DiskTable {
            first: 0x10_0000 / sector,
            last: nsectors.saturating_sub(34),
            sector: table.sector,
            label: table.label,
            slots: table.slots,
        }
    }
}

// ---------------------------------------------------------------------------
// The cut

/// Whether a table's sector numbers and sector size stay inside the range
/// the placement arithmetic is proved for. Every disk a machine reports
/// does; a caller reading a table from a disk tests this before it asks for
/// a placement.
pub fn within_reach(table: &DiskTable) -> (r: bool)
    ensures
        r == table.addressable(),
{
    if table.first > 0xFFFF_FFFF_FFEF_FFFF || table.last > 0xFFFF_FFFF_FFEF_FFFF
        || table.sector > 0x8000_0000_0000_0000 {
        return false;
    }
    let mut i: usize = 0;
    while i < table.slots.len()
        invariant
            i <= table.slots@.len(),
            forall|j: int| 0 <= j < i ==> (#[trigger] table.slots@[j]).start <= sector_limit(),
        decreases table.slots.len() - i,
    {
        if table.slots[i].start > 0xFFFF_FFFF_FFEF_FFFF {
            return false;
        }
        i = i + 1;
    }
    true
}

/// A plan that deletes, creates and renames nothing writes no table.
pub open spec fn plans_nothing(layout: CustomLayout) -> bool {
    layout.deletes@.len() == 0 && layout.creates@.len() == 0 && layout.renames@.len() == 0
}

/// A device name the cut cannot number.
pub open spec fn unnumbered() -> spec_fn(Seq<char>) -> bool {
    |device: Seq<char>| slot_of(device) is None
}

/// The partitions a plan renames, in plan order.
pub open spec fn renamed_parts(renames: Seq<Rename>) -> Seq<Seq<char>> {
    renames.map_values(|rename: Rename| rename.partition@)
}

/// The labels a plan writes, in plan order.
pub open spec fn renamed_labels(renames: Seq<Rename>) -> Seq<Seq<char>> {
    renames.map_values(|rename: Rename| rename.label@)
}

/// The slot number of every device name, where each has one.
pub open spec fn numbers_of(devices: Seq<Seq<char>>) -> Seq<usize> {
    devices.map_values(|device: Seq<char>| slot_of(device)->0)
}

/// The name a created partition carries in the script, where it has one.
pub open spec fn name_part(label: Seq<char>) -> Seq<char> {
    if label.len() == 0 {
        Seq::empty()
    } else {
        ", name=\""@ + label + "\""@
    }
}

/// The script line that appends one create at its placed start.
pub open spec fn append_line(create: Created, start: u64) -> Seq<char> {
    "start="@ + decimal(start as nat) + ", size="@ + decimal(create.gb as nat) + "GB, type="@
        + (if create.target@ == "/boot/efi"@ { "U"@ } else { "L"@ }) + name_part(create.label@)
        + "\n"@
}

/// The script that appends the first `n` creates, one line each.
pub open spec fn append_text(creates: Seq<Created>, starts: Seq<u64>, n: nat) -> Seq<char>
    decreases n,
{
    if n == 0 {
        Seq::empty()
    } else {
        append_text(creates, starts, (n - 1) as nat) + append_line(creates[n - 1], starts[n - 1])
    }
}

/// The starts a placement gives, or none where it refused.
pub open spec fn starts_of(placed: Result<(Seq<u64>, Seq<Region>), u64>) -> Seq<u64> {
    match placed {
        Ok((starts, _)) => starts,
        Err(_) => Seq::empty(),
    }
}

/// Why the cut refuses a plan before it writes anything, in the order the
/// cut asks: a label that cannot take the plan, a delete it cannot number, a
/// rename it cannot number, and creates the disk cannot hold.
pub open spec fn cut_refusal(layout: CustomLayout, table: DiskTable) -> Option<Seq<char>> {
    let deletes = layout.deletes.deep_view();
    let renamed = renamed_parts(layout.renames@);
    if plans_nothing(layout) {
        None
    } else if !(layout.creates@.len() == 0 && layout.renames@.len() == 0) && table.label@.len()
        != 0 && table.label@ != "gpt"@ && !table.cleared(deletes) {
        Some("this disk has a "@ + table.label@ + " partition table: clear it to use GPT"@)
    } else {
        match first_where(deletes, unnumbered()) {
            Some(i) => Some(deletes[i] + " names no partition number"@),
            None => match first_where(renamed, unnumbered()) {
                Some(i) => Some(renamed[i] + " names no partition number"@),
                None => match place_all(table.sector, table.free_spans(deletes), layout.creates@) {
                    Err(room) => Some(copy::too_big_text(room as nat)),
                    Ok(_) => None,
                },
            },
        }
    }
}

/// What the cut writes, in the order it writes it. A table the plan clears
/// gets a fresh GPT label instead of one delete per partition, and its
/// creates number from 1. The deletes run by slot number, then the creates
/// follow in one append script, then each rename is written to its slot.
pub struct CutPlan {
    pub cleared: bool,
    pub delete_devices: Vec<String>,
    pub delete_numbers: Vec<usize>,
    pub numbers: Vec<usize>,
    pub append: String,
    pub rename_numbers: Vec<usize>,
    pub rename_labels: Vec<String>,
}

proof fn lemma_place_all_len(sector: u64, free: Seq<Region>, creates: Seq<Created>)
    ensures
        place_all(sector, free, creates) matches Ok((starts, _)) ==> starts.len() == creates.len(),
    decreases creates.len(),
{
    if creates.len() > 0 {
        if let Some((_, left)) = place_one(sector, free, creates[0].offset, creates[0].gb) {
            lemma_place_all_len(sector, left, creates.drop_first());
        }
    }
}

/// Numbers every device name, or refuses the first that names no number.
fn number_all(devices: &Vec<String>) -> (out: Result<Vec<usize>, String>)
    ensures
        match out {
            Ok(numbers) => first_where(devices.deep_view(), unnumbered()) is None && numbers@
                == numbers_of(devices.deep_view()),
            Err(why) => match first_where(devices.deep_view(), unnumbered()) {
                Some(i) => why@ == devices.deep_view()[i] + " names no partition number"@,
                None => false,
            },
        },
{
    let ghost dv = devices.deep_view();
    let mut numbers: Vec<usize> = Vec::new();
    let mut i: usize = 0;
    while i < devices.len()
        invariant
            i <= dv.len(),
            dv == devices.deep_view(),
            forall|j: int| 0 <= j < i ==> !unnumbered()(#[trigger] dv[j]),
            numbers@ == numbers_of(dv.take(i as int)),
        decreases devices.len() - i,
    {
        match partition_number(&devices[i]) {
            Ok(n) => {
                let ghost before = numbers@;
                numbers.push(n);
                assert(numbers@ =~= numbers_of(dv.take(i + 1))) by {
                    assert forall|j: int| 0 <= j < i + 1 implies numbers@[j] == numbers_of(
                        dv.take(i + 1),
                    )[j] by {
                        if j < i {
                            assert(before[j] == numbers_of(dv.take(i as int))[j]);
                        }
                    }
                }
            },
            Err(why) => {
                proof {
                    lemma_first_where(dv, unnumbered(), i as int);
                }
                return Err(why);
            },
        }
        i = i + 1;
    }
    proof {
        lemma_first_where(dv, unnumbered(), i as int);
        assert(dv.take(i as int) =~= dv);
    }
    Ok(numbers)
}

/// Writes the append script for the placed creates, one line each.
fn append_script(creates: &[Created], starts: &Vec<u64>) -> (script: String)
    requires
        starts@.len() == creates@.len(),
    ensures
        script@ == append_text(creates@, starts@, creates@.len()),
{
    let mut script = String::new();
    let mut i: usize = 0;
    while i < creates.len()
        invariant
            i <= creates@.len(),
            starts@.len() == creates@.len(),
            script@ == append_text(creates@, starts@, i as nat),
        decreases creates.len() - i,
    {
        let create = &creates[i];
        let ghost before = script@;
        script.append("start=");
        script.append(decimal_u64(starts[i]).as_str());
        script.append(", size=");
        script.append(decimal_u64(create.gb).as_str());
        script.append("GB, type=");
        script.append(created_type(create.target.as_str()));
        if !create.label.as_str().is_empty() {
            script.append(", name=\"");
            script.append(create.label.as_str());
            script.append("\"");
        }
        script.append("\n");
        assert(script@ =~= before + append_line(creates@[i as int], starts@[i as int]));
        i = i + 1;
    }
    script
}

/// Decides the whole cut before the disk is written: the refusal where the
/// plan cannot be cut, and otherwise what each write carries. `table` is the
/// disk's table read before any write, because the screen predicted the new
/// slot numbers and the placement from it.
pub fn cut_plan(layout: &CustomLayout, table: &DiskTable) -> (out: Result<CutPlan, String>)
    requires
        table.addressable(),
        table.slots@.len() + layout.creates@.len() < usize::MAX,
    ensures
        match out {
            Err(why) => cut_refusal(*layout, *table) == Some(why@),
            Ok(plan) => {
                let deletes = layout.deletes.deep_view();
                let taken = if plan.cleared {
                    Seq::<usize>::empty()
                } else {
                    surviving_numbers(table.slots@, deleted(deletes))
                };
                &&& cut_refusal(*layout, *table) is None
                &&& plan.cleared == (!plans_nothing(*layout) && table.cleared(deletes))
                &&& plan.delete_devices.deep_view() == (if plan.cleared { Seq::empty() } else { deletes })
                &&& plan.delete_numbers@ == numbers_of(plan.delete_devices.deep_view())
                &&& lowest_free(taken, plan.numbers@, layout.creates@.len())
                &&& plan.append@ == append_text(
                    layout.creates@,
                    starts_of(place_all(table.sector, table.free_spans(deletes), layout.creates@)),
                    layout.creates@.len(),
                )
                &&& plan.rename_numbers@ == numbers_of(renamed_parts(layout.renames@))
                &&& plan.rename_labels.deep_view() == renamed_labels(layout.renames@)
            },
        },
{
    if layout.deletes.len() == 0 && layout.creates.len() == 0 && layout.renames.len() == 0 {
        let plan = CutPlan {
            cleared: false,
            delete_devices: Vec::new(),
            delete_numbers: Vec::new(),
            numbers: Vec::new(),
            append: String::new(),
            rename_numbers: Vec::new(),
            rename_labels: Vec::new(),
        };
        assert(plan.delete_devices.deep_view() =~= Seq::<Seq<char>>::empty());
        assert(plan.rename_labels.deep_view() =~= renamed_labels(layout.renames@));
        assert(plan.rename_numbers@ =~= numbers_of(renamed_parts(layout.renames@)));
        assert(plan.delete_numbers@ =~= numbers_of(plan.delete_devices.deep_view()));
        return Ok(plan);
    }
    if let Some(why) = table.wrong_label_for(&layout.deletes, layout.creates.len(), layout.renames.len()) {
        return Err(why);
    }
    let cleared = table.cleared_by(&layout.deletes);
    let numbered = match number_all(&layout.deletes) {
        Ok(numbered) => numbered,
        Err(why) => return Err(why),
    };
    let mut parts: Vec<String> = Vec::new();
    let mut labels: Vec<String> = Vec::new();
    let mut i: usize = 0;
    while i < layout.renames.len()
        invariant
            i <= layout.renames@.len(),
            parts.deep_view() == renamed_parts(layout.renames@.take(i as int)),
            labels.deep_view() == renamed_labels(layout.renames@.take(i as int)),
        decreases layout.renames.len() - i,
    {
        let ghost pb = parts.deep_view();
        let ghost lb = labels.deep_view();
        parts.push(layout.renames[i].partition.clone());
        labels.push(layout.renames[i].label.clone());
        assert(parts.deep_view() =~= pb.push(layout.renames@[i as int].partition@));
        assert(labels.deep_view() =~= lb.push(layout.renames@[i as int].label@));
        assert(renamed_parts(layout.renames@.take(i + 1)) =~= renamed_parts(layout.renames@.take(i as int)).push(layout.renames@[i as int].partition@));
        assert(renamed_labels(layout.renames@.take(i + 1)) =~= renamed_labels(layout.renames@.take(i as int)).push(layout.renames@[i as int].label@));
        i = i + 1;
    }
    assert(layout.renames@.take(i as int) =~= layout.renames@);
    let rename_numbers = match number_all(&parts) {
        Ok(numbers) => numbers,
        Err(why) => return Err(why),
    };
    let starts = match place_creates(table, &layout.deletes, &layout.creates) {
        Ok((starts, _)) => starts,
        Err(room) => return Err(copy::custom_too_big(room)),
    };
    proof {
        lemma_place_all_len(table.sector, table.free_spans(layout.deletes.deep_view()), layout.creates@);
    }
    let append = append_script(&layout.creates, &starts);
    let numbers = if cleared {
        let none: Vec<usize> = Vec::new();
        appended_slots(&none, layout.creates.len())
    } else {
        let kept = table.surviving(&layout.deletes);
        appended_slots(&kept, layout.creates.len())
    };
    if cleared {
        let plan = CutPlan {
            cleared: true,
            delete_devices: Vec::new(),
            delete_numbers: Vec::new(),
            numbers,
            append,
            rename_numbers,
            rename_labels: labels,
        };
        assert(plan.delete_devices.deep_view() =~= Seq::<Seq<char>>::empty());
        assert(plan.delete_numbers@ =~= numbers_of(plan.delete_devices.deep_view()));
        Ok(plan)
    } else {
        let devices = layout.deletes.clone();
        assert(devices.deep_view() =~= layout.deletes.deep_view());
        Ok(CutPlan {
            cleared: false,
            delete_devices: devices,
            delete_numbers: numbered,
            numbers,
            append,
            rename_numbers,
            rename_labels: labels,
        })
    }
}

// ---------------------------------------------------------------------------
// The create window's bar

/// `sfdisk` hands out one set of numbers for a count of appends: the lowest
/// free ones, in order.
pub proof fn lemma_lowest_free_unique(taken: Seq<usize>, a: Seq<usize>, b: Seq<usize>, count: nat)
    requires
        lowest_free(taken, a, count),
        lowest_free(taken, b, count),
    ensures
        a == b,
{
    lemma_lowest_free_agree(taken, a, b, count, count as int);
    assert(a =~= b);
}

proof fn lemma_lowest_free_agree(taken: Seq<usize>, a: Seq<usize>, b: Seq<usize>, count: nat, upto: int)
    requires
        lowest_free(taken, a, count),
        lowest_free(taken, b, count),
        0 <= upto <= count,
    ensures
        forall|j: int| 0 <= j < upto ==> a[j] == b[j],
    decreases upto,
{
    if upto > 0 {
        let i = upto - 1;
        lemma_lowest_free_agree(taken, a, b, count, i);
        lemma_lowest_free_below(taken, a, b, count, i);
        lemma_lowest_free_below(taken, b, a, count, i);
    }
}

/// Where two lowest-free numberings agree below `i`, the first is not lower
/// at `i`.
proof fn lemma_lowest_free_below(taken: Seq<usize>, a: Seq<usize>, b: Seq<usize>, count: nat, i: int)
    requires
        lowest_free(taken, a, count),
        lowest_free(taken, b, count),
        0 <= i < count,
        forall|j: int| 0 <= j < i ==> a[j] == b[j],
    ensures
        a[i] >= b[i],
{
    if a[i] >= b[i] {
        return;
    }
    let k = a[i];
    assert(1 <= k && !taken.contains(k));
    assert(k < b.last()) by {
        if i < b.len() - 1 {
            assert(b[i] < b[b.len() - 1]);
        }
    }
    assert(taken.contains(k) == false);
    assert(b.contains(k));
    let j = choose|j: int| 0 <= j < b.len() && b[j] == k;
    if j >= i {
        if j > i {
            assert(b[i] < b[j]);
        }
    } else {
        assert(a[j] == b[j]);
        assert(a[j] < a[i]);
    }
}

/// The numbers `sfdisk` hands `count` appends beside `taken`.
pub open spec fn appended(taken: Seq<usize>, count: nat) -> Seq<usize> {
    choose|given: Seq<usize>| lowest_free(taken, given, count)
}

/// A slot as the span it takes: its number, its first sector and the sector
/// past its end.
pub open spec fn slot_span(slot: Slot) -> (usize, u64, u64) {
    (slot.number, slot.start, sat_add(slot.start, slot.sectors))
}

/// The spans of the slots that survive `gone`, in table order.
pub open spec fn kept_taken(slots: Seq<Slot>, gone: Seq<usize>) -> Seq<(usize, u64, u64)>
    decreases slots.len(),
{
    if slots.len() == 0 {
        Seq::empty()
    } else {
        let rest = kept_taken(slots.drop_last(), gone);
        if survives(slots.last(), gone) {
            rest.push(slot_span(slots.last()))
        } else {
            rest
        }
    }
}

/// The spans of the first `n` planned creates at their numbers and starts.
pub open spec fn created_taken(
    numbers: Seq<usize>,
    starts: Seq<u64>,
    creates: Seq<Created>,
    sector: u64,
    n: nat,
) -> Seq<(usize, u64, u64)>
    decreases n,
{
    if n == 0 {
        Seq::empty()
    } else {
        let k = n - 1;
        created_taken(numbers, starts, creates, sector, (n - 1) as nat).push(
            (numbers[k], starts[k], sat_add(starts[k], gb_sectors(creates[k].gb, sector))),
        )
    }
}

/// The span that ends nearest before sector `at`, among the first `n`: the
/// last one where several end at the same sector.
pub open spec fn before_at(taken: Seq<(usize, u64, u64)>, at: u64, n: nat) -> Option<int>
    decreases n,
{
    if n == 0 {
        None
    } else {
        let prev = before_at(taken, at, (n - 1) as nat);
        let here = taken[n - 1];
        let better = match prev {
            None => true,
            Some(p) => taken[p].2 <= here.2,
        };
        if here.2 <= at && better {
            Some(n - 1)
        } else {
            prev
        }
    }
}

/// The span that starts nearest after sector `end`, among the first `n`:
/// the first one where several start at the same sector.
pub open spec fn after_at(taken: Seq<(usize, u64, u64)>, end: u64, n: nat) -> Option<int>
    decreases n,
{
    if n == 0 {
        None
    } else {
        let prev = after_at(taken, end, (n - 1) as nat);
        let here = taken[n - 1];
        let better = match prev {
            None => true,
            Some(p) => here.1 < taken[p].1,
        };
        if here.1 >= end && better {
            Some(n - 1)
        } else {
            prev
        }
    }
}

/// The names the layout table draws slots by, as plain values.
pub open spec fn name_pairs(names: Seq<(usize, String)>) -> Seq<(usize, Seq<char>)> {
    names.map_values(|p: (usize, String)| (p.0, p.1@))
}

pub open spec fn numbered_as(n: usize) -> spec_fn((usize, Seq<char>)) -> bool {
    |p: (usize, Seq<char>)| p.0 == n
}

/// The name a slot is drawn by: the first name given for its number, or the
/// number itself, because a missing box would read as an end of the disk.
pub open spec fn drawn_name(names: Seq<(usize, Seq<char>)>, number: usize) -> Seq<char> {
    match first_where(names, numbered_as(number)) {
        Some(i) => names[i].1,
        None => decimal(number as nat),
    }
}

pub open spec fn side_name(
    taken: Seq<(usize, u64, u64)>,
    names: Seq<(usize, Seq<char>)>,
    at: Option<int>,
) -> Option<Seq<char>> {
    match at {
        Some(i) => Some(drawn_name(names, taken[i].0)),
        None => None,
    }
}

/// The bar's spans for the first `n` free regions: each region that offers
/// a whole GB, with the partitions on either side of it.
pub open spec fn holes_from(
    sector: u64,
    taken: Seq<(usize, u64, u64)>,
    names: Seq<(usize, Seq<char>)>,
    free: Seq<Region>,
    n: nat,
) -> Seq<(Option<Seq<char>>, Option<Seq<char>>, u64)>
    decreases n,
{
    if n == 0 {
        Seq::empty()
    } else {
        let rest = holes_from(sector, taken, names, free, (n - 1) as nat);
        let region = free[n - 1];
        let gb = room_gb(sector, region);
        if gb > 0 {
            rest.push(
                (
                    side_name(taken, names, before_at(taken, region.start, taken.len())),
                    side_name(
                        taken,
                        names,
                        after_at(taken, sat_add(region.start, region.sectors), taken.len()),
                    ),
                    gb,
                ),
            )
        } else {
            rest
        }
    }
}

/// The bar the create window draws once the plan's own creates are placed,
/// as `create_rooms` places them; nothing where they no longer fit.
pub open spec fn holes_spec(
    table: DiskTable,
    deletes: Seq<Seq<char>>,
    creates: Seq<Created>,
    names: Seq<(usize, Seq<char>)>,
) -> Seq<(Option<Seq<char>>, Option<Seq<char>>, u64)> {
    match place_all(table.sector, table.free_spans(deletes), creates) {
        Err(_) => Seq::empty(),
        Ok((starts, free)) => {
            let gone = deleted(deletes);
            let numbers = appended(surviving_numbers(table.slots@, gone), creates.len());
            let taken = kept_taken(table.slots@, gone) + created_taken(
                numbers,
                starts,
                creates,
                table.sector,
                creates.len(),
            );
            holes_from(table.sector, taken, names, free, free.len())
        },
    }
}

fn before_index(taken: &Vec<(usize, u64, u64)>, at: u64) -> (out: Option<usize>)
    ensures
        match out {
            Some(i) => before_at(taken@, at, taken@.len()) == Some(i as int),
            None => before_at(taken@, at, taken@.len()) is None,
        },
{
    let mut best: Option<usize> = None;
    let mut i: usize = 0;
    while i < taken.len()
        invariant
            i <= taken@.len(),
            match best {
                Some(b) => before_at(taken@, at, i as nat) == Some(b as int) && b < i,
                None => before_at(taken@, at, i as nat) is None,
            },
        decreases taken.len() - i,
    {
        let better = match best {
            None => true,
            Some(b) => taken[b].2 <= taken[i].2,
        };
        if taken[i].2 <= at && better {
            best = Some(i);
        }
        i = i + 1;
    }
    best
}

fn after_index(taken: &Vec<(usize, u64, u64)>, end: u64) -> (out: Option<usize>)
    ensures
        match out {
            Some(i) => after_at(taken@, end, taken@.len()) == Some(i as int),
            None => after_at(taken@, end, taken@.len()) is None,
        },
{
    let mut best: Option<usize> = None;
    let mut i: usize = 0;
    while i < taken.len()
        invariant
            i <= taken@.len(),
            match best {
                Some(b) => after_at(taken@, end, i as nat) == Some(b as int) && b < i,
                None => after_at(taken@, end, i as nat) is None,
            },
        decreases taken.len() - i,
    {
        let better = match best {
            None => true,
            Some(b) => taken[i].1 < taken[b].1,
        };
        if taken[i].1 >= end && better {
            best = Some(i);
        }
        i = i + 1;
    }
    best
}

fn drawn_name_of(names: &[(usize, String)], number: usize) -> (name: String)
    ensures
        name@ == drawn_name(name_pairs(names@), number),
{
    let ghost pairs = name_pairs(names@);
    let mut i: usize = 0;
    while i < names.len()
        invariant
            i <= names@.len(),
            pairs == name_pairs(names@),
            forall|j: int| 0 <= j < i ==> !numbered_as(number)(#[trigger] pairs[j]),
        decreases names.len() - i,
    {
        if names[i].0 == number {
            proof {
                lemma_first_where(pairs, numbered_as(number), i as int);
            }
            return names[i].1.clone();
        }
        i = i + 1;
    }
    proof {
        lemma_first_where(pairs, numbered_as(number), i as int);
    }
    decimal_usize(number)
}

fn side_of(taken: &Vec<(usize, u64, u64)>, names: &[(usize, String)], at: Option<usize>) -> (side: Option<String>)
    requires
        at matches Some(i) ==> i < taken@.len(),
    ensures
        crate::ui::side_view(side) == side_name(
            taken@,
            name_pairs(names@),
            match at {
                Some(i) => Some(i as int),
                None => None,
            },
        ),
{
    match at {
        Some(i) => Some(drawn_name_of(names, taken[i].0)),
        None => None,
    }
}

proof fn lemma_before_in(taken: Seq<(usize, u64, u64)>, at: u64, n: nat)
    requires
        n <= taken.len(),
    ensures
        before_at(taken, at, n) matches Some(i) ==> 0 <= i < n,
    decreases n,
{
    if n > 0 {
        lemma_before_in(taken, at, (n - 1) as nat);
    }
}

proof fn lemma_after_in(taken: Seq<(usize, u64, u64)>, end: u64, n: nat)
    requires
        n <= taken.len(),
    ensures
        after_at(taken, end, n) matches Some(i) ==> 0 <= i < n,
    decreases n,
{
    if n > 0 {
        lemma_after_in(taken, end, (n - 1) as nat);
    }
}

/// Gives each free region the plan leaves, with the partitions on either
/// side of it, for the bar the create window draws. `names` holds the name
/// the layout table draws each slot number by.
pub fn create_holes(
    table: &DiskTable,
    deletes: &[String],
    creates: &[Created],
    names: &[(usize, String)],
) -> (holes: Vec<Hole>)
    requires
        table.addressable(),
        table.slots@.len() + creates@.len() < usize::MAX,
    ensures
        holes_view(holes@) == holes_spec(*table, deletes.deep_view(), creates@, name_pairs(names@)),
{
    proof {
        lemma_free_spans_bounded(*table, deletes.deep_view());
        lemma_place_all_bounded(table.sector, table.free_spans(deletes.deep_view()), creates@);
        lemma_place_all_len(table.sector, table.free_spans(deletes.deep_view()), creates@);
    }
    let (starts, free) = match place_creates(table, deletes, creates) {
        Ok(placed) => placed,
        Err(_) => return Vec::new(),
    };
    let sector: u64 = if table.sector >= 1 { table.sector } else { 1 };
    let gone = deleted_slots(deletes);
    let mut taken: Vec<(usize, u64, u64)> = Vec::new();
    let mut i: usize = 0;
    while i < table.slots.len()
        invariant
            i <= table.slots@.len(),
            gone@ == deleted(deletes.deep_view()),
            taken@ == kept_taken(table.slots@.take(i as int), gone@),
        decreases table.slots.len() - i,
    {
        assert(table.slots@.take(i + 1).drop_last() =~= table.slots@.take(i as int));
        let slot = &table.slots[i];
        if !contains_usize(&gone, slot.number) {
            taken.push((slot.number, slot.start, slot.start.saturating_add(slot.sectors)));
        }
        i = i + 1;
    }
    assert(table.slots@.take(i as int) =~= table.slots@);
    let ghost kept_spans = taken@;
    let kept = table.surviving(deletes);
    let numbers = appended_slots(&kept, creates.len());
    let ghost chosen = appended(surviving_numbers(table.slots@, gone@), creates@.len());
    proof {
        lemma_lowest_free_unique(kept@, numbers@, chosen, creates@.len());
    }
    let mut j: usize = 0;
    while j < creates.len()
        invariant
            j <= creates@.len(),
            starts@.len() == creates@.len(),
            numbers@.len() == creates@.len(),
            sector == (if table.sector >= 1 { table.sector } else { 1 }),
            taken@ == kept_spans + created_taken(numbers@, starts@, creates@, table.sector, j as nat),
        decreases creates.len() - j,
    {
        let size = div_ceil(saturating_mul(creates[j].gb, 1_000_000_000), sector);
        taken.push((numbers[j], starts[j], starts[j].saturating_add(size)));
        j = j + 1;
    }
    let ghost pairs = name_pairs(names@);
    let mut holes: Vec<Hole> = Vec::new();
    let mut k: usize = 0;
    while k < free.len()
        invariant
            k <= free@.len(),
            all_bounded(free@),
            table.sector <= 0x8000_0000_0000_0000,
            pairs == name_pairs(names@),
            holes_view(holes@) == holes_from(table.sector, taken@, pairs, free@, k as nat),
        decreases free.len() - k,
    {
        let region = free[k];
        proof {
            lemma_bounded_alignable(table.sector, region);
        }
        let gb = table.placeable_gb(&region);
        if gb > 0 {
            let before = before_index(&taken, region.start);
            let after = after_index(&taken, region.start.saturating_add(region.sectors));
            proof {
                lemma_before_in(taken@, region.start, taken@.len());
                lemma_after_in(taken@, sat_add(region.start, region.sectors), taken@.len());
            }
            let hole = Hole { before: side_of(&taken, names, before), after: side_of(&taken, names, after), gb };
            let ghost was = holes@;
            holes.push(hole);
            assert(holes_view(holes@) =~= holes_view(was).push(hole_view(hole)));
        }
        k = k + 1;
    }
    holes
}

/// A create of `offset` and `gb` whole GB that starts at `start` lands in
/// span `at` of `spans`: the lowest span with room for its offset and its
/// size, rounded up to whole sectors, starting its offset past that span's
/// aligned start and ending inside it.
pub open spec fn lands_at(sector: u64, spans: Seq<Region>, at: int, offset: u64, gb: u64, start: u64) -> bool {
    let span = aligned_span(sector, spans[at]);
    let before = ceil_div((offset * 1_000_000_000) as nat, sector as nat);
    let size = ceil_div((gb * 1_000_000_000) as nat, sector as nat);
    &&& 0 <= at < spans.len()
    &&& start == span.start + before
    &&& start + size <= span.start + span.sectors
    &&& forall|j: int| 0 <= j < at ==> before + size > #[trigger] aligned_span(sector, spans[j]).sectors
}

/// Rounding a division up never gives more than the number divided.
proof fn lemma_ceil_div_le(a: nat, b: nat)
    requires
        b >= 1,
    ensures
        ceil_div(a, b) <= a,
{
    assert(((a + b - 1) as nat) / b <= a) by (nonlinear_arith)
        requires
            b >= 1,
    {
        if a > 0 {
            assert(a + b - 1 < (a + 1) * b);
        }
    }
}

/// One create lands in the lowest span with room for it and starts its
/// offset past that span's aligned start: a create with an offset never
/// starts at the span's aligned start.
pub proof fn lemma_place_one_at_offset(sector: u64, free: Seq<Region>, offset: u64, gb: u64)
    requires
        sector >= 1,
        (offset + gb) * 1_000_000_000 <= u64::MAX,
    ensures
        place_one(sector, free, offset, gb) matches Some((start, _)) ==> exists|at: int|
            #[trigger] lands_at(sector, free, at, offset, gb, start),
{
    let before = gb_sectors(offset, sector);
    let size = gb_sectors(gb, sector);
    lemma_ceil_div_le((offset * 1_000_000_000) as nat, sector as nat);
    lemma_ceil_div_le((gb * 1_000_000_000) as nat, sector as nat);
    assert(sat_mul(offset, 1_000_000_000) == offset * 1_000_000_000);
    assert(sat_mul(gb, 1_000_000_000) == gb * 1_000_000_000);
    assert(before == ceil_div((offset * 1_000_000_000) as nat, sector as nat));
    assert(size == ceil_div((gb * 1_000_000_000) as nat, sector as nat));
    crate::seqs::lemma_first_where_found(free, fits_in(sector, before, size));
    if let Some(at) = first_where(free, fits_in(sector, before, size)) {
        let span = aligned_span(sector, free[at]);
        assert(sat_add(before, size) <= span.sectors);
        assert(before + size <= span.sectors);
        assert(span.start + span.sectors <= u64::MAX);
        assert(sat_add(span.start, before) == span.start + before);
        assert forall|j: int| 0 <= j < at implies before + size > #[trigger] aligned_span(sector, free[j]).sectors by {
            assert(!fits_in(sector, before, size)(free[j]));
        }
        assert(lands_at(sector, free, at, offset, gb, place_one(sector, free, offset, gb)->Some_0.0));
    }
}

/// The spans free when create `i` is placed: those the creates before it
/// left.
pub open spec fn spans_before(sector: u64, free: Seq<Region>, creates: Seq<Created>, i: int) -> Seq<Region>
    decreases i,
{
    if i <= 0 || creates.len() == 0 {
        free
    } else {
        match place_one(sector, free, creates[0].offset, creates[0].gb) {
            Some((_, left)) => spans_before(sector, left, creates.drop_first(), i - 1),
            None => free,
        }
    }
}

/// A create of `offset` and `gb` whole GB that starts at `start` lands in
/// one of `spans` as `lands_at` says.
pub open spec fn lands_in(sector: u64, spans: Seq<Region>, offset: u64, gb: u64, start: u64) -> bool {
    exists|at: int| #[trigger] lands_at(sector, spans, at, offset, gb, start)
}

/// Create `i` of a plan that places every create lands in the lowest span
/// with room for it among the spans the creates before it left.
proof fn lemma_placed_at(sector: u64, free: Seq<Region>, creates: Seq<Created>, i: int)
    requires
        sector >= 1,
        0 <= i < creates.len(),
        forall|k: int| 0 <= k < creates.len() ==> ((#[trigger] creates[k]).offset + creates[k].gb) * 1_000_000_000 <= u64::MAX,
        place_all(sector, free, creates) is Ok,
    ensures
        lands_in(sector, spans_before(sector, free, creates, i), creates[i].offset, creates[i].gb,
            place_all(sector, free, creates)->Ok_0.0[i]),
    decreases i,
{
    let c = creates[0];
    assert(((c.offset + c.gb) * 1_000_000_000) <= u64::MAX);
    lemma_place_one_at_offset(sector, free, c.offset, c.gb);
    let (start, left) = place_one(sector, free, c.offset, c.gb)->Some_0;
    let rest = creates.drop_first();
    let more = place_all(sector, left, rest)->Ok_0.0;
    assert(place_all(sector, free, creates)->Ok_0.0 == seq![start] + more);
    if i == 0 {
        assert(spans_before(sector, free, creates, 0) == free);
        assert((seq![start] + more)[0] == start);
    } else {
        assert forall|k: int| 0 <= k < rest.len() implies ((#[trigger] rest[k]).offset + rest[k].gb) * 1_000_000_000 <= u64::MAX by {
            assert(rest[k] == creates[k + 1]);
        }
        lemma_placed_at(sector, left, rest, i - 1);
        assert(spans_before(sector, free, creates, i) == spans_before(sector, left, rest, i - 1));
        assert(rest[i - 1] == creates[i]);
        lemma_place_all_len(sector, left, rest);
        assert((seq![start] + more)[i] == more[i - 1]);
    }
}

/// Every create a plan places lands in the lowest span with room for it
/// among the spans the creates before it left, starting its own offset past
/// that span's aligned start, and ending inside that span.
pub proof fn lemma_place_all_at_offsets(sector: u64, free: Seq<Region>, creates: Seq<Created>)
    requires
        sector >= 1,
        forall|k: int| 0 <= k < creates.len() ==> ((#[trigger] creates[k]).offset + creates[k].gb) * 1_000_000_000 <= u64::MAX,
    ensures
        place_all(sector, free, creates) matches Ok((starts, _)) ==> starts.len() == creates.len() && forall|i: int|
            0 <= i < creates.len() ==> #[trigger] lands_in(sector, spans_before(sector, free, creates, i), creates[i].offset,
                creates[i].gb, starts[i]),
{
    lemma_place_all_len(sector, free, creates);
    if let Ok((starts, _)) = place_all(sector, free, creates) {
        assert forall|i: int| 0 <= i < creates.len() implies #[trigger] lands_in(sector, spans_before(sector, free, creates, i),
            creates[i].offset, creates[i].gb, starts[i]) by {
            lemma_placed_at(sector, free, creates, i);
        }
    }
}
} // verus!

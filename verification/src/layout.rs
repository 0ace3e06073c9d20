//! How much of a disk has to be copied, read from its partition table.
//!
//! A clone does not move the whole device: the end of the last partition that
//! the MBR declares is the end of the meaningful data. Bytes in, a number out;
//! there is no I/O here.
use vstd::prelude::*;

verus! {

/// The partition scheme recognised.
#[derive(Debug, Clone, Copy, PartialEq, Eq, Structural)]
pub enum Scheme {
    Mbr,
}

/// The copy plan.
#[derive(Debug, Clone, PartialEq, Eq)]
pub struct Layout {
    /// Copying this many bytes from the front is enough.
    pub bytes: u64,
    pub scheme: Scheme,
    /// Partition count shown on the confirmation screen.
    pub partitions: u32,
}

/// Why the length to copy cannot be decided.
#[derive(Debug, Clone, PartialEq, Eq)]
pub enum LayoutError {
    /// Fewer bytes than the decision needs.
    TooShort { need: usize, have: usize },
    /// No 0x55AA signature: not a partition table.
    NoSignature,
    /// A table whose entries are all empty.
    NoPartitions,
    /// A GPT disk.
    Gpt,
    /// The table points past the end of the device.
    BeyondDevice { need: u64, have: u64 },
}

/// Partition type of a GPT protective MBR entry.
pub const GPT_PROTECTIVE: u8 = 0xEE;

pub open spec fn le32(h: Seq<u8>, off: int) -> nat {
    (h[off] as nat) + 256 * (h[off + 1] as nat) + 65536 * (h[off + 2] as nat) + 16777216 * (
    h[off + 3] as nat)
}

pub open spec fn entry_off(slot: int) -> int {
    446 + slot * 16
}

pub open spec fn slot_kind(h: Seq<u8>, slot: int) -> u8 {
    h[entry_off(slot) + 4]
}

pub open spec fn slot_start(h: Seq<u8>, slot: int) -> nat {
    le32(h, entry_off(slot) + 8)
}

pub open spec fn slot_sectors(h: Seq<u8>, slot: int) -> nat {
    le32(h, entry_off(slot) + 12)
}

/// A slot that declares a real (non-protective, non-empty) partition.
pub open spec fn slot_counts(h: Seq<u8>, slot: int) -> bool {
    slot_kind(h, slot) != 0 && slot_kind(h, slot) != GPT_PROTECTIVE && slot_sectors(h, slot) != 0
}

pub open spec fn slot_end(h: Seq<u8>, slot: int) -> nat {
    slot_start(h, slot) + slot_sectors(h, slot)
}

/// Number of counted slots among the first `n`.
pub open spec fn count_upto(h: Seq<u8>, n: int) -> nat
    decreases n,
{
    if n <= 0 {
        0
    } else {
        count_upto(h, n - 1) + if slot_counts(h, n - 1) {
            1nat
        } else {
            0nat
        }
    }
}

/// Largest end LBA among the counted slots of the first `n` (0 when none).
pub open spec fn end_upto(h: Seq<u8>, n: int) -> nat
    decreases n,
{
    if n <= 0 {
        0
    } else {
        let prev = end_upto(h, n - 1);
        if slot_counts(h, n - 1) && slot_end(h, n - 1) > prev {
            slot_end(h, n - 1)
        } else {
            prev
        }
    }
}

pub open spec fn has_protective_entry(h: Seq<u8>) -> bool {
    exists|s: int| 0 <= s < 4 && slot_kind(h, s) == GPT_PROTECTIVE
}

pub open spec fn has_signature(h: Seq<u8>) -> bool {
    h[510] == 0x55 && h[511] == 0xAA
}

pub open spec fn efi_part() -> Seq<u8> {
    seq![0x45u8, 0x46u8, 0x49u8, 0x20u8, 0x50u8, 0x41u8, 0x52u8, 0x54u8]
}

pub open spec fn has_gpt_header(h: Seq<u8>, ss: int) -> bool {
    h.subrange(ss, ss + 8) == efi_part()
}

/// Inputs on which the analysis does not run off the end of `head`.
pub open spec fn parse_in_bounds(len: int, sector: int, h: Seq<u8>) -> bool {
    len < 2 * sector || (512 <= len && (sector + 8 <= len || !has_signature(h)))
}

/// What `parse` decides, stated over the bytes.
pub open spec fn parse_spec(h: Seq<u8>, device_bytes: u64, sector: u32) -> Result<
    Layout,
    LayoutError,
> {
    let need = 2 * sector;
    if h.len() < need {
        Err(LayoutError::TooShort { need: need as usize, have: h.len() as usize })
    } else if !has_signature(h) {
        Err(LayoutError::NoSignature)
    } else if has_gpt_header(h, sector as int) || has_protective_entry(h) {
        Err(LayoutError::Gpt)
    } else if count_upto(h, 4) == 0 {
        Err(LayoutError::NoPartitions)
    } else if end_upto(h, 4) * sector > device_bytes {
        Err(
            LayoutError::BeyondDevice {
                need: (end_upto(h, 4) * sector) as u64,
                have: device_bytes,
            },
        )
    } else {
        Ok(
            Layout {
                bytes: (end_upto(h, 4) * sector) as u64,
                scheme: Scheme::Mbr,
                partitions: count_upto(h, 4) as u32,
            },
        )
    }
}

proof fn lemma_end_bounds(h: Seq<u8>, n: int)
    requires
        0 <= n <= 4,
    ensures
        end_upto(h, n) <= 0x1_FFFF_FFFE,
        count_upto(h, n) <= n,
        forall|s: int| 0 <= s < n && slot_counts(h, s) ==> slot_end(h, s) <= end_upto(h, n),
        count_upto(h, n) > 0 ==> exists|s: int|
            0 <= s < n && slot_counts(h, s) && slot_end(h, s) == end_upto(h, n),
        count_upto(h, n) == 0 ==> end_upto(h, n) == 0,
    decreases n,
{
    if n > 0 {
        lemma_end_bounds(h, n - 1);
        assert(slot_start(h, n - 1) <= 0xFFFF_FFFF);
        assert(slot_sectors(h, n - 1) <= 0xFFFF_FFFF);
    }
}

fn read_le32(head: &[u8], off: usize) -> (r: u32)
    requires
        off + 4 <= head@.len(),
    ensures
        r as nat == le32(head@, off as int),
{
    let v = (head[off] as u32) + 256 * (head[off + 1] as u32) + 65536 * (head[off + 2] as u32)
        + 16777216 * (head[off + 3] as u32);
    v
}

/// Length to copy from the front of the device.
///
/// `head` is read from offset 0. The GPT header sits at LBA 1, so at least two
/// sectors are needed. Entries whose type is 0 or whose length is 0 are
/// skipped; a 0xEE entry or an `EFI PART` header refuses the disk as GPT.
pub fn parse(head: &[u8], device_bytes: u64, sector: u32) -> (r: Result<Layout, LayoutError>)
    requires
        parse_in_bounds(head@.len() as int, sector as int, head@),
        sector <= 0x7FFF_FFFF,
    ensures
        r == parse_spec(head@, device_bytes, sector),
        r matches Ok(l) ==> {
            &&& l.bytes <= device_bytes
            &&& forall|s: int|
                0 <= s < 4 && slot_counts(head@, s) ==> slot_end(head@, s) * (sector as nat)
                    <= l.bytes
            &&& exists|s: int|
                0 <= s < 4 && slot_counts(head@, s) && slot_end(head@, s) * (sector as nat)
                    == l.bytes
        },
{
    let ss: usize = sector as usize;
    let need_w: u64 = 2 * (sector as u64);
    if (head.len() as u64) < need_w {
        return Err(LayoutError::TooShort { need: need_w as usize, have: head.len() });
    }
    if head[510] != 0x55 || head[511] != 0xAA {
        return Err(LayoutError::NoSignature);
    }
    let efi: [u8; 8] = [0x45, 0x46, 0x49, 0x20, 0x50, 0x41, 0x52, 0x54];
    let mut same = true;
    let mut k: usize = 0;
    while k < 8
        invariant
            ss + 8 <= head@.len(),
            head@.len() <= usize::MAX,
            ss == sector,
            k <= 8,
            efi@ == efi_part(),
            same == (forall|j: int| 0 <= j < k ==> head@[ss + j] == efi@[j]),
        decreases 8 - k,
    {
        if head[ss + k] != efi[k] {
            same = false;
        }
        k += 1;
    }
    proof {
        if same {
            assert(head@.subrange(ss as int, ss + 8) =~= efi_part());
        } else {
            if head@.subrange(ss as int, ss + 8) == efi_part() {
                assert forall|j: int| 0 <= j < 8 implies head@[ss + j] == efi@[j] by {
                    assert(head@[ss + j] == head@.subrange(ss as int, ss + 8)[j]);
                }
            }
        }
    }
    if same {
        return Err(LayoutError::Gpt);
    }
    let mut end_lba: u64 = 0;
    let mut count: u32 = 0;
    let mut slot: usize = 0;
    while slot < 4
        invariant
            slot <= 4,
            512 <= head@.len(),
            head@.len() >= 2 * sector,
            has_signature(head@),
            !has_gpt_header(head@, sector as int),
            forall|s: int| 0 <= s < slot ==> slot_kind(head@, s) != GPT_PROTECTIVE,
            end_lba == end_upto(head@, slot as int),
            count == count_upto(head@, slot as int),
        decreases 4 - slot,
    {
        proof {
            lemma_end_bounds(head@, slot as int);
        }
        let off = 446 + slot * 16;
        let kind = head[off + 4];
        if kind == GPT_PROTECTIVE {
            proof {
                assert(slot_kind(head@, slot as int) == GPT_PROTECTIVE);
                assert(has_protective_entry(head@));
                assert(has_signature(head@));
                assert(head@.len() >= 2 * sector);
            }
            return Err(LayoutError::Gpt);
        }
        let start = read_le32(head, off + 8) as u64;
        let sectors = read_le32(head, off + 12) as u64;
        if kind != 0 && sectors != 0 {
            count = count + 1;
            if start + sectors > end_lba {
                end_lba = start + sectors;
            }
        }
        slot += 1;
    }
    proof {
        lemma_end_bounds(head@, 4);
        assert(!has_protective_entry(head@));
    }
    if count == 0 {
        return Err(LayoutError::NoPartitions);
    }
    proof {
        assert(end_lba * (sector as nat) <= 0x1_FFFF_FFFE * 0x7FFF_FFFF) by (nonlinear_arith)
            requires
                end_lba <= 0x1_FFFF_FFFE,
                sector <= 0x7FFF_FFFF,
        ;
        assert forall|s: int| 0 <= s < 4 && slot_counts(head@, s) implies slot_end(head@, s) * (
        sector as nat) <= end_lba * (sector as nat) by {
            assert(slot_end(head@, s) <= end_lba);
            assert(slot_end(head@, s) * (sector as nat) <= end_lba * (sector as nat))
                by (nonlinear_arith)
                requires
                    slot_end(head@, s) <= end_lba,
            ;
        }
    }
    let bytes = end_lba * (sector as u64);
    if bytes > device_bytes {
        return Err(LayoutError::BeyondDevice { need: bytes, have: device_bytes });
    }
    Ok(Layout { bytes, scheme: Scheme::Mbr, partitions: count })
}

/// The copy length does not depend on which table slot a partition occupies:
/// it is the largest end of any counted partition, times the sector size.
pub proof fn law_copy_length_is_the_furthest_partition_end(
    head: Seq<u8>,
    device_bytes: u64,
    sector: u32,
)
    requires
        parse_spec(head, device_bytes, sector) is Ok,
        512 <= head.len(),
        sector <= 0x7FFF_FFFF,
    ensures
        ({
            let l = parse_spec(head, device_bytes, sector)->Ok_0;
            &&& l.bytes as nat == end_upto(head, 4) * (sector as nat)
            &&& forall|s: int|
                0 <= s < 4 && slot_counts(head, s) ==> slot_end(head, s) <= end_upto(head, 4)
            &&& exists|s: int|
                0 <= s < 4 && slot_counts(head, s) && slot_end(head, s) == end_upto(head, 4)
            &&& l.bytes <= device_bytes
            &&& 1 <= l.partitions <= 4
        }),
{
    lemma_end_bounds(head, 4);
    assert(end_upto(head, 4) * (sector as nat) <= 0x1_FFFF_FFFE * 0x7FFF_FFFF) by (nonlinear_arith)
        requires
            end_upto(head, 4) <= 0x1_FFFF_FFFE,
            sector <= 0x7FFF_FFFF,
    ;
}

/// `h` with the partition entries in slots `a` and `b` exchanged.
pub open spec fn swap_entries(h: Seq<u8>, a: int, b: int) -> Seq<u8> {
    Seq::new(
        h.len(),
        |i: int|
            if entry_off(a) <= i < entry_off(a) + 16 {
                h[i - entry_off(a) + entry_off(b)]
            } else if entry_off(b) <= i < entry_off(b) + 16 {
                h[i - entry_off(b) + entry_off(a)]
            } else {
                h[i]
            },
    )
}

/// The slot whose entry lands in slot `x` when `a` and `b` are exchanged.
pub open spec fn swapped_slot(x: int, a: int, b: int) -> int {
    if x == a {
        b
    } else if x == b {
        a
    } else {
        x
    }
}

proof fn lemma_swapped_slot(h: Seq<u8>, a: int, b: int, x: int)
    requires
        0 <= a < 4,
        0 <= b < 4,
        a != b,
        0 <= x < 4,
        512 <= h.len(),
    ensures
        slot_kind(swap_entries(h, a, b), x) == slot_kind(h, swapped_slot(x, a, b)),
        slot_start(swap_entries(h, a, b), x) == slot_start(h, swapped_slot(x, a, b)),
        slot_sectors(swap_entries(h, a, b), x) == slot_sectors(h, swapped_slot(x, a, b)),
        slot_counts(swap_entries(h, a, b), x) == slot_counts(h, swapped_slot(x, a, b)),
        slot_end(swap_entries(h, a, b), x) == slot_end(h, swapped_slot(x, a, b)),
{
    let h2 = swap_entries(h, a, b);
    let y = swapped_slot(x, a, b);
    assert forall|j: int| 0 <= j < 16 implies #[trigger] h2[entry_off(x) + j] == h[entry_off(y)
        + j] by {}
    assert(h2[entry_off(x) + 4] == h[entry_off(y) + 4]);
    assert(h2[entry_off(x) + 8] == h[entry_off(y) + 8]);
    assert(h2[entry_off(x) + 9] == h[entry_off(y) + 9]);
    assert(h2[entry_off(x) + 10] == h[entry_off(y) + 10]);
    assert(h2[entry_off(x) + 11] == h[entry_off(y) + 11]);
    assert(h2[entry_off(x) + 12] == h[entry_off(y) + 12]);
    assert(h2[entry_off(x) + 13] == h[entry_off(y) + 13]);
    assert(h2[entry_off(x) + 14] == h[entry_off(y) + 14]);
    assert(h2[entry_off(x) + 15] == h[entry_off(y) + 15]);
}

/// Two tables whose slots hold the same entries, `g`'s slot `x` holding
/// `h`'s slot `swapped_slot(x, a, b)`, count the same partitions.
proof fn lemma_count_permuted(h: Seq<u8>, g: Seq<u8>, a: int, b: int)
    requires
        0 <= a < 4,
        0 <= b < 4,
        a != b,
        forall|x: int|
            0 <= x < 4 ==> #[trigger] slot_counts(g, x) == slot_counts(h, swapped_slot(x, a, b)),
    ensures
        count_upto(g, 4) == count_upto(h, 4),
{
    reveal_with_fuel(count_upto, 5);
    assert(slot_counts(g, 0) == slot_counts(h, swapped_slot(0, a, b)));
    assert(slot_counts(g, 1) == slot_counts(h, swapped_slot(1, a, b)));
    assert(slot_counts(g, 2) == slot_counts(h, swapped_slot(2, a, b)));
    assert(slot_counts(g, 3) == slot_counts(h, swapped_slot(3, a, b)));
}

/// ... and reach the same furthest end.
proof fn lemma_end_permuted(h: Seq<u8>, g: Seq<u8>, a: int, b: int)
    requires
        0 <= a < 4,
        0 <= b < 4,
        a != b,
        forall|x: int|
            0 <= x < 4 ==> #[trigger] slot_counts(g, x) == slot_counts(h, swapped_slot(x, a, b)),
        forall|x: int|
            0 <= x < 4 ==> #[trigger] slot_end(g, x) == slot_end(h, swapped_slot(x, a, b)),
    ensures
        end_upto(g, 4) == end_upto(h, 4),
{
    lemma_count_permuted(h, g, a, b);
    lemma_end_bounds(h, 4);
    lemma_end_bounds(g, 4);
    if count_upto(h, 4) > 0 {
        let s1 = choose|s: int| 0 <= s < 4 && slot_counts(h, s) && slot_end(h, s) == end_upto(h, 4);
        let s2 = choose|s: int| 0 <= s < 4 && slot_counts(g, s) && slot_end(g, s) == end_upto(g, 4);
        let t1 = swapped_slot(s1, a, b);
        assert(swapped_slot(t1, a, b) == s1);
        assert(slot_counts(g, t1) && slot_end(g, t1) == slot_end(h, s1));
        assert(slot_counts(h, swapped_slot(s2, a, b)) && slot_end(h, swapped_slot(s2, a, b))
            == slot_end(g, s2));
    }
}

/// The order of the entries in the partition table does not matter: the
/// same partitions in other slots give the same layout, or the same refusal.
pub proof fn law_entry_order_does_not_matter(
    h: Seq<u8>,
    a: int,
    b: int,
    device_bytes: u64,
    sector: u32,
)
    requires
        0 <= a < 4,
        0 <= b < 4,
        a != b,
        512 <= sector,
    ensures
        parse_spec(swap_entries(h, a, b), device_bytes, sector) == parse_spec(h, device_bytes, sector),
{
    let h2 = swap_entries(h, a, b);
    if h.len() >= 2 * sector {
        assert forall|x: int| 0 <= x < 4 implies #[trigger] slot_counts(h2, x) == slot_counts(
            h,
            swapped_slot(x, a, b),
        ) && slot_end(h2, x) == slot_end(h, swapped_slot(x, a, b)) && slot_kind(h2, x)
            == slot_kind(h, swapped_slot(x, a, b)) by {
            lemma_swapped_slot(h, a, b, x);
        }
        assert(h2[510] == h[510] && h2[511] == h[511]);
        assert(h2.subrange(sector as int, sector + 8) =~= h.subrange(sector as int, sector + 8));
        assert(has_protective_entry(h2) == has_protective_entry(h)) by {
            if has_protective_entry(h) {
                let s = choose|s: int| 0 <= s < 4 && slot_kind(h, s) == GPT_PROTECTIVE;
                let t = swapped_slot(s, a, b);
                assert(swapped_slot(t, a, b) == s);
                assert(slot_kind(h2, t) == GPT_PROTECTIVE);
            }
            if has_protective_entry(h2) {
                let s = choose|s: int| 0 <= s < 4 && slot_kind(h2, s) == GPT_PROTECTIVE;
                assert(slot_kind(h, swapped_slot(s, a, b)) == GPT_PROTECTIVE);
            }
        }
        lemma_count_permuted(h, h2, a, b);
        lemma_end_permuted(h, h2, a, b);
    }
}


/// Whether `p` puts the four table slots in some order: each slot once.
pub open spec fn is_slot_order(p: Seq<int>) -> bool {
    &&& p.len() == 4
    &&& forall|x: int| 0 <= x < 4 ==> 0 <= #[trigger] p[x] < 4
    &&& forall|x: int, y: int| 0 <= x < y < 4 ==> p[x] != p[y]
}

/// The table slot that byte `i` of the table belongs to.
pub open spec fn slot_of(i: int) -> int {
    if i < entry_off(1) {
        0
    } else if i < entry_off(2) {
        1
    } else if i < entry_off(3) {
        2
    } else {
        3
    }
}

/// `h` with slot `x` of its partition table holding the entry that slot
/// `p[x]` held.
pub open spec fn reorder_entries(h: Seq<u8>, p: Seq<int>) -> Seq<u8> {
    Seq::new(
        h.len(),
        |i: int|
            if entry_off(0) <= i < entry_off(4) {
                h[i - entry_off(slot_of(i)) + entry_off(p[slot_of(i)])]
            } else {
                h[i]
            },
    )
}

/// Every slot is the place of some slot in an order.
proof fn lemma_slot_order_onto(p: Seq<int>, y: int)
    requires
        is_slot_order(p),
        0 <= y < 4,
    ensures
        exists|x: int| 0 <= x < 4 && #[trigger] p[x] == y,
{
    assert(0 <= p[0] < 4 && 0 <= p[1] < 4 && 0 <= p[2] < 4 && 0 <= p[3] < 4);
    assert(p[0] != p[1] && p[0] != p[2] && p[0] != p[3] && p[1] != p[2] && p[1] != p[3] && p[2]
        != p[3]);
    if p[0] != y && p[1] != y && p[2] != y {
        assert(p[3] == y);
    }
}

proof fn lemma_reordered_slot(h: Seq<u8>, p: Seq<int>, x: int)
    requires
        is_slot_order(p),
        0 <= x < 4,
        512 <= h.len(),
    ensures
        slot_kind(reorder_entries(h, p), x) == slot_kind(h, p[x]),
        slot_counts(reorder_entries(h, p), x) == slot_counts(h, p[x]),
        slot_end(reorder_entries(h, p), x) == slot_end(h, p[x]),
{
    let g = reorder_entries(h, p);
    let y = p[x];
    assert forall|j: int| 0 <= j < 16 implies #[trigger] g[entry_off(x) + j] == h[entry_off(y)
        + j] by {
        assert(slot_of(entry_off(x) + j) == x);
    }
    assert(g[entry_off(x) + 4] == h[entry_off(y) + 4]);
    assert(g[entry_off(x) + 8] == h[entry_off(y) + 8]);
    assert(g[entry_off(x) + 9] == h[entry_off(y) + 9]);
    assert(g[entry_off(x) + 10] == h[entry_off(y) + 10]);
    assert(g[entry_off(x) + 11] == h[entry_off(y) + 11]);
    assert(g[entry_off(x) + 12] == h[entry_off(y) + 12]);
    assert(g[entry_off(x) + 13] == h[entry_off(y) + 13]);
    assert(g[entry_off(x) + 14] == h[entry_off(y) + 14]);
    assert(g[entry_off(x) + 15] == h[entry_off(y) + 15]);
}

/// Adding up a value over the slots in any order gives the same sum.
proof fn lemma_reordered_sum(p: Seq<int>, f: spec_fn(int) -> int)
    requires
        is_slot_order(p),
    ensures
        f(p[0]) + f(p[1]) + f(p[2]) + f(p[3]) == f(0) + f(1) + f(2) + f(3),
{
    assert(0 <= p[0] < 4 && 0 <= p[1] < 4 && 0 <= p[2] < 4 && 0 <= p[3] < 4);
    assert(p[0] != p[1] && p[0] != p[2] && p[0] != p[3] && p[1] != p[2] && p[1] != p[3] && p[2]
        != p[3]);
    assert(p[0] + p[1] + p[2] + p[3] == 6);
}

/// Tables whose slots hold the same entries in another order count the same
/// partitions and reach the same furthest end.
proof fn lemma_reordered_counts(h: Seq<u8>, g: Seq<u8>, p: Seq<int>)
    requires
        is_slot_order(p),
        forall|x: int| 0 <= x < 4 ==> #[trigger] slot_counts(g, x) == slot_counts(h, p[x]),
        forall|x: int| 0 <= x < 4 ==> #[trigger] slot_end(g, x) == slot_end(h, p[x]),
    ensures
        count_upto(g, 4) == count_upto(h, 4),
        end_upto(g, 4) == end_upto(h, 4),
{
    assert(count_upto(g, 4) == count_upto(h, 4)) by {
        reveal_with_fuel(count_upto, 5);
        let f = |y: int|
            if slot_counts(h, y) {
                1int
            } else {
                0int
            };
        lemma_reordered_sum(p, f);
        assert(slot_counts(g, 0) == slot_counts(h, p[0]));
        assert(slot_counts(g, 1) == slot_counts(h, p[1]));
        assert(slot_counts(g, 2) == slot_counts(h, p[2]));
        assert(slot_counts(g, 3) == slot_counts(h, p[3]));
    }
    lemma_end_bounds(h, 4);
    lemma_end_bounds(g, 4);
    if count_upto(h, 4) > 0 {
        let s1 = choose|s: int| 0 <= s < 4 && slot_counts(h, s) && slot_end(h, s) == end_upto(h, 4);
        let s2 = choose|s: int| 0 <= s < 4 && slot_counts(g, s) && slot_end(g, s) == end_upto(g, 4);
        lemma_slot_order_onto(p, s1);
        let t1 = choose|x: int| 0 <= x < 4 && #[trigger] p[x] == s1;
        assert(slot_counts(g, t1) && slot_end(g, t1) == slot_end(h, s1));
        assert(slot_counts(h, p[s2]) && slot_end(h, p[s2]) == slot_end(g, s2));
    }
}

/// The order of the entries in the partition table does not matter: the
/// same four entries in any order give the same layout, or the same refusal.
pub proof fn law_any_entry_order(h: Seq<u8>, p: Seq<int>, device_bytes: u64, sector: u32)
    requires
        is_slot_order(p),
        512 <= sector,
    ensures
        parse_spec(reorder_entries(h, p), device_bytes, sector) == parse_spec(
            h,
            device_bytes,
            sector,
        ),
{
    let g = reorder_entries(h, p);
    if h.len() >= 2 * sector {
        assert forall|x: int| 0 <= x < 4 implies #[trigger] slot_counts(g, x) == slot_counts(
            h,
            p[x],
        ) && slot_end(g, x) == slot_end(h, p[x]) && slot_kind(g, x) == slot_kind(h, p[x]) by {
            lemma_reordered_slot(h, p, x);
        }
        assert(g[510] == h[510] && g[511] == h[511]);
        assert(g.subrange(sector as int, sector + 8) =~= h.subrange(sector as int, sector + 8));
        assert(has_protective_entry(g) == has_protective_entry(h)) by {
            if has_protective_entry(h) {
                let s = choose|s: int| 0 <= s < 4 && slot_kind(h, s) == GPT_PROTECTIVE;
                lemma_slot_order_onto(p, s);
                let t = choose|x: int| 0 <= x < 4 && #[trigger] p[x] == s;
                assert(slot_kind(g, t) == GPT_PROTECTIVE);
            }
            if has_protective_entry(g) {
                let s = choose|s: int| 0 <= s < 4 && slot_kind(g, s) == GPT_PROTECTIVE;
                assert(slot_kind(h, p[s]) == GPT_PROTECTIVE);
            }
        }
        lemma_reordered_counts(h, g, p);
    }
}

} // verus!

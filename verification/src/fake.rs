//! Stand-in devices.
//!
//! They serve two purposes: running the safety rules and the whole pipeline
//! without a stick (a test against real hardware wipes the developer's disk
//! each time it fails), and running the application where there is no
//! Windows to talk to.
use crate::device::{
    sector_ok, DeviceError, RawReader, RawWriter, ReadSession, UsbEnumerator, WriteOp,
    WriteSession, MAX_DEVICE_BYTES,
};
use crate::sink::CHUNK;
use crate::model::{same_disk, BusType, DiskInfo, VolumeInfo};
use crate::text::{push_char, push_str};
use std::collections::HashSet;
use std::rc::Rc;
use vstd::cell::invcell::InvCell;
use vstd::predicate::Predicate;
use vstd::prelude::*;

verus! {

broadcast use vstd::std_specs::hash::group_hash_axioms;

/// A copy of a set of disk numbers (`HashSet::clone`): it holds the same
/// numbers.
#[verifier::external_body]
fn copy_set(s: &HashSet<u32>) -> (r: HashSet<u32>)
    ensures
        r@ == s@,
{
    s.clone()
}

/// Another handle on the same shared value (`Rc::clone`).
#[verifier::external_body]
fn share<T>(r: &Rc<T>) -> (s: Rc<T>)
    ensures
        s == *r,
{
    Rc::clone(r)
}

/// Enumerates a fixed list of disks.
pub struct FakeEnumerator {
    disks: Vec<DiskInfo>,
    protected: HashSet<u32>,
    /// Devices left out of the enumeration, with their reasons.
    skipped: Vec<String>,
}

/// The volumes of a disk, by drive letter, size and extent count.
pub open spec fn volume_is(v: VolumeInfo, letter: char, size: u64, extents: u32) -> bool {
    &&& v.drive_letter == Some(letter)
    &&& v.size_bytes == size
    &&& v.disk_extent_count == extents
    &&& v.file_system matches Some(fs) && fs@ == "NTFS"@
    &&& v.guid_path@ == "\\\\?\\Volume{fake-"@ + seq![letter] + "}\\"@
}

/// What the sample holds at position `i`.
pub open spec fn sample_disk(d: DiskInfo, i: int) -> bool {
    &&& d.number == i
    &&& !d.is_clustered
    &&& !d.is_read_only
    &&& d.is_system == (i == 0)
    &&& d.is_boot == (i == 0)
    &&& d.boot_from_disk == (i == 0)
    &&& if i == 0 {
        d.friendly_name@ == "Samsung SSD 990 PRO 2TB"@ && d.size_bytes == 2_000_398_934_016
            && d.bus_type == BusType::Nvme && d.serial is Some && d.volumes@.len() == 1
            && volume_is(d.volumes@[0], 'C', 2_000_000_000_000, 1) } else if i == 1 {
        d.friendly_name@ == "WDC WD40EZAZ-00SF3B0"@ && d.size_bytes == 4_000_787_030_016
            && d.bus_type == BusType::Sata && d.serial is Some && d.volumes@.len() == 1
            && volume_is(d.volumes@[0], 'D', 4_000_000_000_000, 1) } else if i == 2 {
        d.friendly_name@ == "SanDisk Ultra USB 3.0"@ && d.size_bytes == 30_752_000_000
            && d.bus_type == BusType::Usb && d.serial is Some && d.volumes@.len() == 1
            && volume_is(d.volumes@[0], 'E', 30_700_000_000, 1) } else if i == 3 {
        d.friendly_name@ == "Samsung Flash Drive FIT"@ && d.size_bytes == 64_055_500_800
            && d.bus_type == BusType::Usb && d.serial is None && d.volumes@.len() == 0 } else if i == 4 {
        d.friendly_name@ == "Generic Flash Disk"@ && d.size_bytes == 4_004_511_744
            && d.bus_type == BusType::Usb && d.serial is None && d.volumes@.len() == 1
            && volume_is(d.volumes@[0], 'F', 4_000_000_000, 1) } else {
        d.friendly_name@ == "Realtek USB Card Reader"@ && d.size_bytes == 0 && d.bus_type
            == BusType::Usb && d.serial is None && d.volumes@.len() == 0
    }
}

/// Whether a sector size is one a device may report.
fn sector_size_ok(s: u32) -> (r: bool)
    ensures
        r == sector_ok(s),
{
    512 <= s && CHUNK % (s as usize) == 0
}

fn volume(letter: char, size: u64, extents: u32) -> (v: VolumeInfo)
    ensures
        volume_is(v, letter, size, extents),
{
    let mut guid = String::new();
    push_str(&mut guid, "\\\\?\\Volume{fake-");
    push_char(&mut guid, letter);
    push_str(&mut guid, "}\\");
    let fs = "NTFS".to_owned();
    proof {
        assert(guid@ =~= "\\\\?\\Volume{fake-"@ + seq![letter] + "}\\"@);
    }
    VolumeInfo {
        guid_path: guid,
        drive_letter: Some(letter),
        file_system: Some(fs),
        size_bytes: size,
        disk_extent_count: extents,
    }
}

fn copy_strings(v: &Vec<String>) -> (r: Vec<String>)
    ensures
        r@.len() == v@.len(),
        forall|i: int| 0 <= i < v@.len() ==> #[trigger] r@[i]@ == v@[i]@,
{
    let mut r: Vec<String> = Vec::new();
    let mut i: usize = 0;
    while i < v.len()
        invariant
            i <= v@.len(),
            r@.len() == i,
            forall|k: int| 0 <= k < i ==> #[trigger] r@[k]@ == v@[k]@,
        decreases v@.len() - i,
    {
        r.push(v[i].clone());
        i += 1;
    }
    r
}

fn copy_disks(v: &Vec<DiskInfo>) -> (r: Vec<DiskInfo>)
    ensures
        r@.len() == v@.len(),
        forall|i: int| 0 <= i < v@.len() ==> #[trigger] same_disk(r@[i], v@[i]),
{
    let mut r: Vec<DiskInfo> = Vec::new();
    let mut i: usize = 0;
    while i < v.len()
        invariant
            i <= v@.len(),
            r@.len() == i,
            forall|k: int| 0 <= k < i ==> #[trigger] same_disk(r@[k], v@[k]),
        decreases v@.len() - i,
    {
        r.push(v[i].duplicate());
        i += 1;
    }
    r
}

impl FakeEnumerator {
    pub closed spec fn disks_spec(&self) -> Seq<DiskInfo> {
        self.disks@
    }

    pub closed spec fn protected_spec(&self) -> Set<u32> {
        self.protected@
    }

    pub closed spec fn skipped_spec(&self) -> Seq<String> {
        self.skipped@
    }

    pub fn new(disks: Vec<DiskInfo>, protected: HashSet<u32>) -> (r: Self)
        ensures
            r.disks_spec() == disks@,
            r.protected_spec() == protected@,
            r.skipped_spec() == Seq::<String>::empty(),
    {
        FakeEnumerator { disks, protected, skipped: Vec::new() }
    }

    /// Some disks listed, some left out with a reason: the most common shape
    /// on real machines (one flaky stick fails its capacity query).
    pub fn with_skipped(self, notes: Vec<String>) -> (r: Self)
        ensures
            r.disks_spec() == self.disks_spec(),
            r.protected_spec() == self.protected_spec(),
            r.skipped_spec() == notes@,
    {
        FakeEnumerator { disks: self.disks, protected: self.protected, skipped: notes }
    }

    /// The sample used when the application runs without Windows.
    ///
    /// Dangerous entries are mixed in on purpose (a system NVMe, a SATA disk,
    /// an empty card reader): seeing one of them in the list means the safety
    /// rules broke.
    pub fn sample() -> (r: Self)
        ensures
            r.disks_spec().len() == 6,
            forall|i: int| 0 <= i < 6 ==> #[trigger] sample_disk(r.disks_spec()[i], i),
            r.protected_spec() == set![0u32],
            r.skipped_spec() == Seq::<String>::empty(),
    {
        let mut disks: Vec<DiskInfo> = Vec::new();
        let mut v0: Vec<VolumeInfo> = Vec::new();
        v0.push(volume('C', 2_000_000_000_000, 1));
        disks.push(
            DiskInfo {
                number: 0,
                friendly_name: "Samsung SSD 990 PRO 2TB".to_owned(),
                size_bytes: 2_000_398_934_016,
                bus_type: BusType::Nvme,
                is_system: true,
                is_boot: true,
                boot_from_disk: true,
                is_clustered: false,
                is_read_only: false,
                serial: Some("S6B2NS0T900001".to_owned()),
                volumes: v0,
            },
        );
        let mut v1: Vec<VolumeInfo> = Vec::new();
        v1.push(volume('D', 4_000_000_000_000, 1));
        disks.push(
            DiskInfo {
                number: 1,
                friendly_name: "WDC WD40EZAZ-00SF3B0".to_owned(),
                size_bytes: 4_000_787_030_016,
                bus_type: BusType::Sata,
                is_system: false,
                is_boot: false,
                boot_from_disk: false,
                is_clustered: false,
                is_read_only: false,
                serial: Some("WD-WX32D00XYZ".to_owned()),
                volumes: v1,
            },
        );
        let mut v2: Vec<VolumeInfo> = Vec::new();
        v2.push(volume('E', 30_700_000_000, 1));
        disks.push(
            DiskInfo {
                number: 2,
                friendly_name: "SanDisk Ultra USB 3.0".to_owned(),
                size_bytes: 30_752_000_000,
                bus_type: BusType::Usb,
                is_system: false,
                is_boot: false,
                boot_from_disk: false,
                is_clustered: false,
                is_read_only: false,
                serial: Some("4C530001120607117025".to_owned()),
                volumes: v2,
            },
        );
        disks.push(
            DiskInfo {
                number: 3,
                friendly_name: "Samsung Flash Drive FIT".to_owned(),
                size_bytes: 64_055_500_800,
                bus_type: BusType::Usb,
                is_system: false,
                is_boot: false,
                boot_from_disk: false,
                is_clustered: false,
                is_read_only: false,
                serial: None,
                volumes: Vec::new(),
            },
        );
        // A 4 GB stick: no loader image fits. Shown disabled with its reason,
        // not hidden.
        let mut v4: Vec<VolumeInfo> = Vec::new();
        v4.push(volume('F', 4_000_000_000, 1));
        disks.push(
            DiskInfo {
                number: 4,
                friendly_name: "Generic Flash Disk".to_owned(),
                size_bytes: 4_004_511_744,
                bus_type: BusType::Usb,
                is_system: false,
                is_boot: false,
                boot_from_disk: false,
                is_clustered: false,
                is_read_only: false,
                serial: None,
                volumes: v4,
            },
        );
        // A card reader without a card: it must not be listed.
        disks.push(
            DiskInfo {
                number: 5,
                friendly_name: "Realtek USB Card Reader".to_owned(),
                size_bytes: 0,
                bus_type: BusType::Usb,
                is_system: false,
                is_boot: false,
                boot_from_disk: false,
                is_clustered: false,
                is_read_only: false,
                serial: None,
                volumes: Vec::new(),
            },
        );
        let mut protected: HashSet<u32> = HashSet::new();
        protected.insert(0);
        proof {
            assert(protected@ =~= set![0u32]);
            assert forall|i: int| 0 <= i < 6 implies #[trigger] sample_disk(disks@[i], i) by {
                if i == 0 {
                } else if i == 1 {
                } else if i == 2 {
                } else if i == 3 {
                } else if i == 4 {
                } else {
                }
            }
        }
        FakeEnumerator::new(disks, protected)
    }
}

impl UsbEnumerator for FakeEnumerator {
    closed spec fn listed(&self) -> Seq<DiskInfo> {
        self.disks@
    }

    open spec fn always_answers(&self) -> bool {
        true
    }

    open spec fn refuses_protected(&self, e: DeviceError) -> bool {
        false
    }

    open spec fn refuses_listing(&self, e: DeviceError) -> bool {
        false
    }

    closed spec fn protected_view(&self) -> Set<u32> {
        self.protected@
    }

    fn list_disks(&self) -> (r: Result<Vec<DiskInfo>, DeviceError>)
        ensures
            r matches Ok(v) && v@.len() == self.disks_spec().len() && forall|i: int|
                0 <= i < v@.len() ==> #[trigger] same_disk(v@[i], self.disks_spec()[i]),
    {
        Ok(copy_disks(&self.disks))
    }

    fn skipped(&self) -> (r: Vec<String>)
        ensures
            r@.len() == self.skipped_spec().len(),
            forall|i: int| 0 <= i < r@.len() ==> #[trigger] r@[i]@ == self.skipped_spec()[i]@,
    {
        copy_strings(&self.skipped)
    }

    fn protected_disk_numbers(&self) -> (r: Result<HashSet<u32>, DeviceError>)
        ensures
            r matches Ok(s) && s@ == self.protected_spec(),
    {
        Ok(copy_set(&self.protected))
    }
}

/// What the fake device shows to whoever inspects it.
pub struct FakeLog {
    /// The device's bytes as last written through.
    medium: Vec<u8>,
    /// Offsets of the data writes, in order.
    offsets: Vec<u64>,
    opened: bool,
    finished: bool,
    committed: bool,
}

/// Any log is allowed in the shared cell.
pub struct AnyLog;

impl Predicate<FakeLog> for AnyLog {
    open spec fn predicate(&self, v: FakeLog) -> bool {
        true
    }
}

/// A log of a device that was never opened or written.
fn empty_log() -> (r: FakeLog)
    ensures
        r.medium@.len() == 0,
        r.offsets@.len() == 0,
        !r.opened,
        !r.finished,
        !r.committed,
{
    FakeLog {
        medium: Vec::new(),
        offsets: Vec::new(),
        opened: false,
        finished: false,
        committed: false,
    }
}

/// `m` with `b` laid over it from `at`.
pub open spec fn overlay(m: Seq<u8>, at: int, b: Seq<u8>) -> Seq<u8> {
    m.take(at) + b + m.skip(at + b.len())
}

/// The medium after `data` was put on it at `offset` by a device that keeps
/// nothing from `corrupt_after` on.
pub open spec fn applied(m: Seq<u8>, corrupt_after: Option<u64>, offset: u64, data: Seq<u8>) -> Seq<
    u8,
> {
    match corrupt_after {
        Some(limit) => if offset >= limit {
            m
        } else if limit - offset < data.len() {
            overlay(m, offset as int, data.take(limit - offset))
        } else {
            overlay(m, offset as int, data)
        },
        None => overlay(m, offset as int, data),
    }
}

/// The medium after the cached writes were put on it in order; a write that
/// does not fit on the medium is left out.
pub open spec fn drained(m: Seq<u8>, corrupt_after: Option<u64>, pending: Seq<(u64, Seq<u8>)>) -> Seq<
    u8,
>
    decreases pending.len(),
{
    if pending.len() == 0 {
        m
    } else {
        let before = drained(m, corrupt_after, pending.drop_last());
        let w = pending.last();
        if w.0 + w.1.len() <= before.len() {
            applied(before, corrupt_after, w.0, w.1)
        } else {
            before
        }
    }
}

/// Whether a request ending at `end` reaches past the failure point.
pub open spec fn past(fail_at: Option<u64>, end: int) -> bool {
    match fail_at {
        Some(limit) => end > limit,
        None => false,
    }
}

/// Whether `x` is a multiple of `s`; with `s == 0` only 0 is.
pub open spec fn aligned(x: nat, s: nat) -> bool {
    if s == 0 {
        x == 0
    } else {
        x % s == 0
    }
}

fn is_aligned(x: u64, s: u64) -> (r: bool)
    ensures
        r == aligned(x as nat, s as nat),
{
    if s == 0 {
        x == 0
    } else {
        x % s == 0
    }
}

/// Copies `src[..n]` into `dst` from `at`.
fn copy_into(dst: &mut Vec<u8>, at: usize, src: &[u8], n: usize)
    requires
        n <= src@.len(),
        at + n <= old(dst)@.len(),
    ensures
        final(dst)@ == overlay(old(dst)@, at as int, src@.take(n as int)),
{
    let dlen = dst.len();
    let mut k: usize = 0;
    while k < n
        invariant
            k <= n <= src@.len(),
            at + n <= dst@.len(),
            dst@.len() == dlen,
            dst@.len() == old(dst)@.len(),
            forall|j: int| 0 <= j < at ==> #[trigger] dst@[j] == old(dst)@[j],
            forall|j: int| at + k <= j < dst@.len() ==> #[trigger] dst@[j] == old(dst)@[j],
            forall|j: int| at <= j < at + k ==> #[trigger] dst@[j] == src@[j - at],
        decreases n - k,
    {
        dst.set(at + k, src[k]);
        k += 1;
    }
    proof {
        assert(dst@ =~= overlay(old(dst)@, at as int, src@.take(n as int)));
    }
}

/// A session on [`FakeWriter`]'s memory.
///
/// Plugged in for a real device it lets the whole pipeline run in CI: the
/// code path is the same, only the destination differs.
pub struct FakeSession {
    observed: DiskInfo,
    sector_size: u32,
    medium: Vec<u8>,
    /// Writes not yet on the medium when the device caches.
    pending: Vec<(u64, Vec<u8>)>,
    buffered: bool,
    corrupt_after: Option<u64>,
    fail_at: Option<u64>,
    shared: Rc<InvCell<FakeLog, AnyLog>>,
    log: Ghost<Seq<WriteOp>>,
}

impl FakeSession {
    pub closed spec fn buffered_spec(&self) -> bool {
        self.buffered
    }

    pub closed spec fn corrupt_after_spec(&self) -> Option<u64> {
        self.corrupt_after
    }

    pub closed spec fn fail_at_spec(&self) -> Option<u64> {
        self.fail_at
    }

    /// The cached writes, oldest first.
    pub closed spec fn pending_spec(&self) -> Seq<(u64, Seq<u8>)> {
        self.pending@.map_values(|w: (u64, Vec<u8>)| (w.0, w.1@))
    }

    /// Puts `data` on the medium at `offset`, or, on a device that lies,
    /// only the part before `corrupt_after`.
    fn apply(&mut self, offset: u64, data: &[u8])
        requires
            offset + data@.len() <= old(self).medium@.len(),
        ensures
            final(self).medium@ == match old(self).corrupt_after {
                Some(limit) => if offset >= limit {
                    old(self).medium@
                } else if limit - offset < data@.len() {
                    overlay(old(self).medium@, offset as int, data@.take(limit - offset))
                } else {
                    overlay(old(self).medium@, offset as int, data@)
                },
                None => overlay(old(self).medium@, offset as int, data@),
            },
            final(self).observed == old(self).observed,
            final(self).sector_size == old(self).sector_size,
            final(self).pending == old(self).pending,
            final(self).buffered == old(self).buffered,
            final(self).corrupt_after == old(self).corrupt_after,
            final(self).fail_at == old(self).fail_at,
            final(self).shared == old(self).shared,
            final(self).log == old(self).log,
    {
        let len = data.len();
        let mlen = self.medium.len();
        match self.corrupt_after {
            Some(limit) => {
                if offset >= limit {
                    return ;
                }
                let allowed = limit - offset;
                if allowed < len as u64 {
                    copy_into(&mut self.medium, offset as usize, data, allowed as usize);
                    proof {
                        assert(allowed as usize as int == limit - offset);
                    }
                    return ;
                }
            },
            None => {},
        }
        copy_into(&mut self.medium, offset as usize, data, len);
        proof {
            assert(data@.take(len as int) =~= data@);
        }
    }

    /// Puts every cached write on the medium, in order.
    fn drain(&mut self)
        ensures
            final(self).observed == old(self).observed,
            final(self).sector_size == old(self).sector_size,
            final(self).medium@.len() == old(self).medium@.len(),
            final(self).medium@ == drained(
                old(self).medium@,
                old(self).corrupt_after,
                old(self).pending_spec(),
            ),
            final(self).pending@.len() == 0,
            final(self).buffered == old(self).buffered,
            final(self).corrupt_after == old(self).corrupt_after,
            final(self).fail_at == old(self).fail_at,
            final(self).shared == old(self).shared,
            final(self).log == old(self).log,
    {
        let mut i: usize = 0;
        while i < self.pending.len()
            invariant
                i <= self.pending@.len(),
                self.observed == old(self).observed,
                self.sector_size == old(self).sector_size,
                self.medium@.len() == old(self).medium@.len(),
                self.medium@ == drained(
                    old(self).medium@,
                    old(self).corrupt_after,
                    old(self).pending_spec().take(i as int),
                ),
                self.pending == old(self).pending,
                self.buffered == old(self).buffered,
                self.corrupt_after == old(self).corrupt_after,
                self.fail_at == old(self).fail_at,
                self.shared == old(self).shared,
                self.log == old(self).log,
            decreases self.pending@.len() - i,
        {
            let ghost pv = old(self).pending_spec();
            proof {
                assert(pv.take(i + 1).drop_last() =~= pv.take(i as int));
                assert(pv[i as int] == (self.pending@[i as int].0, self.pending@[i as int].1@));
            }
            let off = self.pending[i].0;
            let fits = (off as u128) + (self.pending[i].1.len() as u128) <= (self.medium.len() as u128);
            if fits {
                let bytes = self.pending[i].1.clone();
                proof {
                    assert(bytes@ =~= self.pending@[i as int].1@);
                }
                self.apply(off, bytes.as_slice());
            }
            i += 1;
        }
        proof {
            assert(old(self).pending_spec().take(i as int) =~= old(self).pending_spec());
        }
        self.pending = Vec::new();
    }

    /// Shows the current medium and the given flags to the writer.
    fn publish(&self, offset: Option<u64>, finished: bool, committed: bool) {
        let mut st = self.shared.replace(empty_log());
        st.medium = self.medium.clone();
        match offset {
            Some(o) => st.offsets.push(o),
            None => {},
        }
        if finished {
            st.finished = true;
        }
        if committed {
            st.committed = true;
        }
        self.shared.set(st);
    }
}

impl WriteSession for FakeSession {
    closed spec fn view_observed(&self) -> DiskInfo {
        self.observed
    }

    closed spec fn view_sector(&self) -> u32 {
        self.sector_size
    }

    closed spec fn view_total(&self) -> u64 {
        self.medium@.len() as u64
    }

    closed spec fn writes(&self) -> Seq<WriteOp> {
        self.log@
    }

    closed spec fn medium(&self) -> Seq<u8> {
        self.medium@
    }

    /// Unless it was set to be pulled mid-write.
    closed spec fn reliable(&self) -> bool {
        self.fail_at is None && self.sector_size > 0
    }

    fn observed(&self) -> (r: &DiskInfo) {
        &self.observed
    }

    fn sector_size(&self) -> (r: u32) {
        self.sector_size
    }

    fn total_bytes(&self) -> (r: u64) {
        self.medium.len() as u64
    }

    /// The same rules a real device enforces are enforced here, so that an
    /// alignment bug does not first show on real hardware: the offset and the
    /// length must be whole sectors, a device that was pulled fails from
    /// `fail_at` on, and nothing goes past the end.
    fn write_at(&mut self, offset: u64, data: &[u8]) -> (r: Result<(), DeviceError>)
        ensures
            (r matches Err(DeviceError::Io { code, .. }) && code == 87) <==> (!aligned(
                offset as nat,
                old(self).view_sector() as nat,
            ) || !aligned(data@.len(), old(self).view_sector() as nat)),
            r matches Err(DeviceError::MediaChanged { op }) ==> op@ == "장치 쓰기"@,
            (r matches Err(DeviceError::MediaChanged { .. })) <==> (aligned(
                offset as nat,
                old(self).view_sector() as nat,
            ) && aligned(data@.len(), old(self).view_sector() as nat) && past(
                old(self).fail_at_spec(),
                offset + data@.len(),
            )),
            (r matches Err(DeviceError::Io { code, .. }) && code == 112) <==> (aligned(
                offset as nat,
                old(self).view_sector() as nat,
            ) && aligned(data@.len(), old(self).view_sector() as nat) && !past(
                old(self).fail_at_spec(),
                offset + data@.len(),
            ) && offset + data@.len() > old(self).medium().len()),
            r is Ok <==> (aligned(offset as nat, old(self).view_sector() as nat) && aligned(
                data@.len(),
                old(self).view_sector() as nat,
            ) && !past(old(self).fail_at_spec(), offset + data@.len()) && offset + data@.len()
                <= old(self).medium().len()),
            r is Ok && !old(self).buffered_spec() && old(self).corrupt_after_spec() is None
                ==> final(self).medium() == overlay(old(self).medium(), offset as int, data@),
            r is Ok && !old(self).buffered_spec() ==> final(self).medium() == applied(
                old(self).medium(),
                old(self).corrupt_after_spec(),
                offset,
                data@,
            ),
            r is Ok && old(self).buffered_spec() ==> final(self).pending_spec() == old(
                self,
            ).pending_spec().push((offset, data@)),
            r is Ok ==> final(self).writes() == old(self).writes().push(
                WriteOp::Data { offset, bytes: data@ },
            ),
            r is Err ==> final(self).writes() == old(self).writes() && final(self).pending_spec()
                == old(self).pending_spec(),
            old(self).buffered_spec() || r is Err ==> final(self).medium() == old(self).medium(),
            final(self).buffered_spec() == old(self).buffered_spec(),
            final(self).corrupt_after_spec() == old(self).corrupt_after_spec(),
            final(self).fail_at_spec() == old(self).fail_at_spec(),
            final(self).view_sector() == old(self).view_sector(),
    {
        let ss = self.sector_size as u64;
        if !is_aligned(offset, ss) || !is_aligned(data.len() as u64, ss) {
            return Err(
                DeviceError::Io {
                    code: 87,
                    message: "정렬되지 않은 쓰기 (길이와 오프셋은 섹터 배수여야 함)".to_owned(),
                },
            );
        }
        let end = (offset as u128) + (data.len() as u128);
        // A stick pulled mid-write: from here on it fails outright.
        match self.fail_at {
            Some(limit) => {
                if end > limit as u128 {
                    return Err(DeviceError::MediaChanged { op: "장치 쓰기" });
                }
            },
            None => {},
        }
        self.publish(Some(offset), false, false);
        if end > self.medium.len() as u128 {
            return Err(
                DeviceError::Io { code: 112, message: "장치 끝을 넘어선 쓰기".to_owned() },
            );
        }
        if self.buffered {
            let mut copy: Vec<u8> = Vec::new();
            let mut k: usize = 0;
            while k < data.len()
                invariant
                    k <= data@.len(),
                    copy@ == data@.take(k as int),
                decreases data@.len() - k,
            {
                copy.push(data[k]);
                k += 1;
                proof {
                    assert(data@.take(k as int) =~= data@.take((k - 1) as int).push(data@[k - 1]));
                }
            }
            proof {
                assert(copy@ =~= data@);
            }
            self.pending.push((offset, copy));
            proof {
                assert(self.pending_spec() =~= old(self).pending_spec().push((offset, data@)));
            }
        } else {
            self.apply(offset, data);
            self.publish(None, false, false);
        }
        self.log = Ghost(self.log@.push(WriteOp::Data { offset, bytes: data@ }));
        Ok(())
    }

    fn zero_tail(&mut self, bytes: u64) -> (r: Result<(), DeviceError>)
        ensures
            r is Ok,
            final(self).medium() == ({
                let len = old(self).medium().len();
                let start = if bytes >= len {
                    0
                } else {
                    len - bytes
                };
                old(self).medium().take(start) + Seq::new((len - start) as nat, |i: int| 0u8)
            }),
    {
        let len = self.medium.len();
        let start: usize = if bytes >= len as u64 {
            0
        } else {
            len - bytes as usize
        };
        let mut z = start;
        while z < len
            invariant
                start <= z <= len,
                self.medium@.len() == len,
                self.medium@.take(start as int) == old(self).medium@.take(start as int),
                forall|j: int| start <= j < z ==> #[trigger] self.medium@[j] == 0u8,
                self.observed == old(self).observed,
                self.sector_size == old(self).sector_size,
                self.log == old(self).log,
                self.shared == old(self).shared,
                self.fail_at == old(self).fail_at,
            decreases len - z,
        {
            self.medium.set(z, 0u8);
            z += 1;
            proof {
                assert(self.medium@.take(start as int) =~= old(self).medium@.take(start as int));
            }
        }
        proof {
            assert(self.medium@ =~= old(self).medium@.take(start as int) + Seq::new(
                (len - start) as nat,
                |i: int| 0u8,
            ));
        }
        self.publish(None, false, false);
        self.log = Ghost(self.log@.push(WriteOp::ZeroTail { len: bytes }));
        Ok(())
    }

    fn read_at(&mut self, offset: u64, buf: &mut [u8]) -> (r: Result<(), DeviceError>)
        ensures
            r is Ok <==> offset + old(buf)@.len() <= old(self).medium().len(),
    {
        let end = (offset as u128) + (buf.len() as u128);
        if end > self.medium.len() as u128 {
            return Err(
                DeviceError::Io { code: 112, message: "장치 끝을 넘어선 읽기".to_owned() },
            );
        }
        let start = offset as usize;
        let n = buf.len();
        let mut k: usize = 0;
        while k < n
            invariant
                k <= n,
                buf@.len() == n,
                start + n <= self.medium@.len(),
                self.medium@.len() <= usize::MAX,
                forall|j: int| 0 <= j < k ==> #[trigger] buf@[j] == self.medium@[start + j],
            decreases n - k,
        {
            buf[k] = self.medium[start + k];
            k += 1;
        }
        proof {
            assert(buf@ =~= self.medium@.subrange(start as int, start + n));
        }
        Ok(())
    }

    /// Puts cached writes on the medium, so that a read-back sees the medium.
    fn commit(&mut self) -> (r: Result<(), DeviceError>)
        ensures
            r is Ok,
            !old(self).buffered_spec() ==> final(self).medium() == old(self).medium(),
            old(self).buffered_spec() ==> final(self).medium() == drained(
                old(self).medium(),
                old(self).corrupt_after_spec(),
                old(self).pending_spec(),
            ) && final(self).pending_spec().len() == 0,
            final(self).buffered_spec() == old(self).buffered_spec(),
            final(self).corrupt_after_spec() == old(self).corrupt_after_spec(),
            final(self).fail_at_spec() == old(self).fail_at_spec(),
            final(self).writes() == old(self).writes(),
    {
        if self.buffered {
            self.drain();
        }
        self.publish(None, false, true);
        Ok(())
    }

    /// Puts what is cached on the medium; never fails.
    fn finish(self) -> (r: Result<(), DeviceError>)
        ensures
            r is Ok,
    {
        let mut s = self;
        s.drain();
        s.publish(None, true, false);
        Ok(())
    }
}

/// A writable stand-in device whose contents can be inspected.
pub struct FakeWriter {
    sector_size: u32,
    /// The size the device was made with.
    capacity: usize,
    shared: Rc<InvCell<FakeLog, AnyLog>>,
    /// The device seen when opened; set to reproduce a swap after listing.
    observed_override: Option<DiskInfo>,
    /// Writes past this offset are silently dropped: a cheap stick that
    /// reports success and keeps nothing, for the read-back to catch.
    corrupt_after: Option<u64>,
    /// Writes reaching past this offset fail: a stick pulled mid-write.
    fail_at: Option<u64>,
    /// Writes are cached until committed, as a real device's are.
    buffered: bool,
    /// How many times it was asked to open, and how many times it did.
    calls: Ghost<(nat, nat)>,
}

impl FakeWriter {
    pub closed spec fn sector_spec(&self) -> u32 {
        self.sector_size
    }

    pub closed spec fn capacity_spec(&self) -> nat {
        self.capacity as nat
    }

    pub closed spec fn observed_override_spec(&self) -> Option<DiskInfo> {
        self.observed_override
    }

    pub closed spec fn corrupt_after_spec(&self) -> Option<u64> {
        self.corrupt_after
    }

    pub closed spec fn fail_at_spec(&self) -> Option<u64> {
        self.fail_at
    }

    pub closed spec fn buffered_spec(&self) -> bool {
        self.buffered
    }

    /// The device it writes to: handles on one device show the same
    /// contents, write offsets and flags.
    pub closed spec fn device(&self) -> Rc<InvCell<FakeLog, AnyLog>> {
        self.shared
    }

    /// A device of `capacity` bytes, all 0xAA.
    pub fn new(capacity: usize, sector_size: u32) -> (r: Self)
        ensures
            r.sector_spec() == sector_size,
            r.capacity_spec() == capacity,
            r.observed_override_spec() is None,
            r.corrupt_after_spec() is None,
            r.fail_at_spec() is None,
            !r.buffered_spec(),
    {
        let log = FakeLog {
            medium: vec![0xAAu8; capacity],
            offsets: Vec::new(),
            opened: false,
            finished: false,
            committed: false,
        };
        FakeWriter {
            sector_size,
            capacity,
            shared: Rc::new(InvCell::new(log, Ghost(AnyLog))),
            observed_override: None,
            corrupt_after: None,
            fail_at: None,
            buffered: false,
            calls: Ghost((0, 0)),
        }
    }

    /// Opening shows a different device (a disk number reused after a swap).
    pub fn with_observed(self, observed: DiskInfo) -> (r: Self)
        ensures
            r.observed_override_spec() == Some(observed),
            r.sector_spec() == self.sector_spec(),
            r.capacity_spec() == self.capacity_spec(),
            r.corrupt_after_spec() == self.corrupt_after_spec(),
            r.fail_at_spec() == self.fail_at_spec(),
            r.buffered_spec() == self.buffered_spec(),
            r.device() == self.device(),
    {
        FakeWriter { observed_override: Some(observed), ..self }
    }

    /// A faulty device that drops the writes past `offset`.
    pub fn corrupting_after(self, offset: u64) -> (r: Self)
        ensures
            r.corrupt_after_spec() == Some(offset),
            r.sector_spec() == self.sector_spec(),
            r.capacity_spec() == self.capacity_spec(),
            r.observed_override_spec() == self.observed_override_spec(),
            r.fail_at_spec() == self.fail_at_spec(),
            r.buffered_spec() == self.buffered_spec(),
            r.device() == self.device(),
    {
        FakeWriter { corrupt_after: Some(offset), ..self }
    }

    /// A device whose writes fail from `offset` on.
    ///
    /// Unlike [`FakeWriter::corrupting_after`] this is a stick pulled
    /// mid-write: the job ends with the target erased and partly written, and
    /// the user must be told.
    pub fn failing_at(self, offset: u64) -> (r: Self)
        ensures
            r.fail_at_spec() == Some(offset),
            r.sector_spec() == self.sector_spec(),
            r.capacity_spec() == self.capacity_spec(),
            r.observed_override_spec() == self.observed_override_spec(),
            r.corrupt_after_spec() == self.corrupt_after_spec(),
            r.buffered_spec() == self.buffered_spec(),
            r.device() == self.device(),
    {
        FakeWriter { fail_at: Some(offset), ..self }
    }

    /// A device that caches writes: a read-back before a commit sees the
    /// medium, not what was just written.
    pub fn buffering(self) -> (r: Self)
        ensures
            r.buffered_spec(),
            r.sector_spec() == self.sector_spec(),
            r.capacity_spec() == self.capacity_spec(),
            r.observed_override_spec() == self.observed_override_spec(),
            r.corrupt_after_spec() == self.corrupt_after_spec(),
            r.fail_at_spec() == self.fail_at_spec(),
            r.device() == self.device(),
    {
        FakeWriter { buffered: true, ..self }
    }

    /// Another handle on the same device: what one writes, the other sees.
    pub fn same_device(&self) -> (r: Self)
        ensures
            r.sector_spec() == self.sector_spec(),
            r.capacity_spec() == self.capacity_spec(),
            r.corrupt_after_spec() == self.corrupt_after_spec(),
            r.fail_at_spec() == self.fail_at_spec(),
            r.buffered_spec() == self.buffered_spec(),
            r.device() == self.device(),
    {
        let observed_override = match &self.observed_override {
            Some(o) => Some(o.duplicate()),
            None => None,
        };
        let r = FakeWriter {
            sector_size: self.sector_size,
            capacity: self.capacity,
            shared: share(&self.shared),
            observed_override,
            corrupt_after: self.corrupt_after,
            fail_at: self.fail_at,
            buffered: self.buffered,
            calls: Ghost((0, 0)),
        };
        r
    }

    /// What the device holds now: its capacity in bytes.
    pub fn contents(&self) -> (r: Vec<u8>)
        ensures
            r@.len() == self.capacity_spec(),
    {
        let st = self.shared.replace(empty_log());
        let stored = st.medium.clone();
        self.shared.set(st);
        fitted(stored, self.capacity)
    }

    /// Offsets of the data writes, in order; shows whether the partition
    /// table goes last.
    pub fn write_offsets(&self) -> Vec<u64> {
        let st = self.shared.replace(empty_log());
        let r = st.offsets.clone();
        self.shared.set(st);
        r
    }

    /// Whether a session was finished.
    pub fn was_finished(&self) -> bool {
        let st = self.shared.replace(empty_log());
        let r = st.finished;
        self.shared.set(st);
        r
    }

    /// Whether the device was opened, that is, whether the point of no
    /// return was passed: opening already erases a real target, before any
    /// write.
    pub fn was_opened(&self) -> bool {
        let st = self.shared.replace(empty_log());
        let r = st.opened;
        self.shared.set(st);
        r
    }

    /// Whether a session committed its cache.
    pub fn was_committed(&self) -> bool {
        let st = self.shared.replace(empty_log());
        let r = st.committed;
        self.shared.set(st);
        r
    }
}

/// `v` cut or padded with zeros to `n` bytes; unchanged when it has `n`.
fn fitted(v: Vec<u8>, n: usize) -> (r: Vec<u8>)
    ensures
        r@.len() == n,
        v@.len() == n ==> r@ == v@,
{
    if v.len() == n {
        return v;
    }
    let mut r: Vec<u8> = Vec::new();
    let mut i: usize = 0;
    while i < n
        invariant
            i <= n,
            r@.len() == i,
        decreases n - i,
    {
        if i < v.len() {
            r.push(v[i]);
        } else {
            r.push(0u8);
        }
        i += 1;
    }
    r
}

impl RawWriter for FakeWriter {
    type Session = FakeSession;

    /// The device asked for, or the one set to show instead.
    closed spec fn observes(&self, disk: DiskInfo, o: DiskInfo) -> bool {
        match self.observed_override {
            Some(x) => same_disk(o, x),
            None => same_disk(o, disk),
        }
    }

    /// Its capacity and sector size, unless it fails, shows another device
    /// or cannot be opened.
    closed spec fn stand_in(&self) -> Option<(nat, u32)> {
        if sector_ok(self.sector_size) && self.capacity <= MAX_DEVICE_BYTES
            && self.observed_override is None && self.fail_at is None {
            Some((self.capacity as nat, self.sector_size))
        } else {
            None
        }
    }

    closed spec fn open_calls(&self) -> nat {
        self.calls@.0
    }

    closed spec fn sessions(&self) -> nat {
        self.calls@.1
    }

    fn open(&mut self, disk: &DiskInfo) -> (r: Result<FakeSession, DeviceError>)
        ensures
            final(self).sector_spec() == old(self).sector_spec(),
            final(self).capacity_spec() == old(self).capacity_spec(),
            final(self).observed_override_spec() == old(self).observed_override_spec(),
            final(self).corrupt_after_spec() == old(self).corrupt_after_spec(),
            final(self).fail_at_spec() == old(self).fail_at_spec(),
            final(self).buffered_spec() == old(self).buffered_spec(),
            sector_ok(old(self).sector_spec()) && old(self).capacity_spec() <= MAX_DEVICE_BYTES ==> r is Ok,
            sector_ok(old(self).sector_spec()) ==> r is Ok || r matches Err(DeviceError::Io { .. }),
            !sector_ok(old(self).sector_spec()) ==> r == Err::<FakeSession, DeviceError>(
                DeviceError::BadSectorSize(old(self).sector_spec()),
            ),
            r matches Ok(s) ==> s.view_total() == old(self).capacity_spec() && s.medium().len()
                == old(self).capacity_spec(),
            r matches Ok(s) ==> s.view_sector() == old(self).sector_spec() && s.buffered_spec()
                == old(self).buffered_spec() && s.corrupt_after_spec() == old(self).corrupt_after_spec()
                && s.fail_at_spec() == old(self).fail_at_spec() && (match old(self).observed_override_spec() {
                Some(o) => same_disk(s.view_observed(), o),
                None => same_disk(s.view_observed(), *disk),
            }),
    {
        self.calls = Ghost((self.calls@.0 + 1, self.calls@.1));
        if !sector_size_ok(self.sector_size) {
            return Err(DeviceError::BadSectorSize(self.sector_size));
        }
        // A real implementation wipes the target in here; record it.
        let mut st = self.shared.replace(empty_log());
        st.opened = true;
        let stored = st.medium.clone();
        self.shared.set(st);
        if self.capacity as u64 > MAX_DEVICE_BYTES {
            return Err(DeviceError::Io { code: 112, message: "장치 용량 조회 실패".to_owned() });
        }
        let medium = fitted(stored, self.capacity);
        let observed = match &self.observed_override {
            Some(o) => o.duplicate(),
            None => disk.duplicate(),
        };
        self.calls = Ghost((self.calls@.0, self.calls@.1 + 1));
        Ok(
            FakeSession {
                observed,
                sector_size: self.sector_size,
                medium,
                pending: Vec::new(),
                buffered: self.buffered,
                corrupt_after: self.corrupt_after,
                fail_at: self.fail_at,
                shared: share(&self.shared),
                log: Ghost(Seq::empty()),
            },
        )
    }
}

/// A source device with fixed contents.
pub struct FakeReader {
    data: Vec<u8>,
    sector_size: u32,
    observed_override: Option<DiskInfo>,
    /// Reads reaching past this offset fail: a stick pulled mid-copy.
    fail_at: Option<u64>,
    /// How many times it was opened.
    calls: Ghost<nat>,
}

impl FakeReader {
    pub closed spec fn data_spec(&self) -> Seq<u8> {
        self.data@
    }

    pub closed spec fn sector_spec(&self) -> u32 {
        self.sector_size
    }

    pub closed spec fn observed_override_spec(&self) -> Option<DiskInfo> {
        self.observed_override
    }

    pub closed spec fn fail_at_spec(&self) -> Option<u64> {
        self.fail_at
    }

    pub fn new(contents: Vec<u8>, sector_size: u32) -> (r: Self)
        ensures
            r.data_spec() == contents@,
            r.sector_spec() == sector_size,
            r.observed_override_spec() is None,
            r.fail_at_spec() is None,
    {
        FakeReader {
            data: contents,
            sector_size,
            observed_override: None,
            fail_at: None,
            calls: Ghost(0),
        }
    }

    /// Opening shows a different device.
    pub fn with_observed(self, observed: DiskInfo) -> (r: Self)
        ensures
            r.observed_override_spec() == Some(observed),
            r.data_spec() == self.data_spec(),
            r.sector_spec() == self.sector_spec(),
            r.fail_at_spec() == self.fail_at_spec(),
    {
        FakeReader { observed_override: Some(observed), ..self }
    }

    /// A device whose reads fail from `offset` on.
    pub fn failing_at(self, offset: u64) -> (r: Self)
        ensures
            r.fail_at_spec() == Some(offset),
            r.data_spec() == self.data_spec(),
            r.sector_spec() == self.sector_spec(),
            r.observed_override_spec() == self.observed_override_spec(),
    {
        FakeReader { fail_at: Some(offset), ..self }
    }
}

/// An open [`FakeReader`].
pub struct FakeReadSession {
    observed: DiskInfo,
    sector_size: u32,
    data: Vec<u8>,
    fail_at: Option<u64>,
    finished: bool,
}

impl FakeReadSession {
    pub closed spec fn fail_at_spec(&self) -> Option<u64> {
        self.fail_at
    }

    pub closed spec fn finished_spec(&self) -> bool {
        self.finished
    }

    /// Whether `finish` was called.
    pub fn was_finished(&self) -> (r: bool)
        ensures
            r == self.finished_spec(),
    {
        self.finished
    }
}

impl RawReader for FakeReader {
    type Session = FakeReadSession;

    /// Its data, unless it fails, shows another device or cannot be opened.
    closed spec fn stand_in(&self) -> Option<(Seq<u8>, u32)> {
        if sector_ok(self.sector_size) && self.data@.len() <= MAX_DEVICE_BYTES
            && self.observed_override is None && self.fail_at is None {
            Some((self.data@, self.sector_size))
        } else {
            None
        }
    }

    closed spec fn open_calls(&self) -> nat {
        self.calls@
    }

    /// Every session holds its data, with its sector size.
    closed spec fn shows(&self, disk: DiskInfo, c: Seq<u8>, ss: u32) -> bool {
        c == self.data@ && ss == self.sector_size
    }

    /// The device asked for, or the one set to show instead.
    closed spec fn observes(&self, disk: DiskInfo, o: DiskInfo) -> bool {
        match self.observed_override {
            Some(x) => same_disk(o, x),
            None => same_disk(o, disk),
        }
    }

    fn open(&mut self, disk: &DiskInfo) -> (r: Result<FakeReadSession, DeviceError>)
        ensures
            final(self).data_spec() == old(self).data_spec(),
            final(self).sector_spec() == old(self).sector_spec(),
            final(self).observed_override_spec() == old(self).observed_override_spec(),
            final(self).fail_at_spec() == old(self).fail_at_spec(),
            !sector_ok(old(self).sector_spec()) ==> r == Err::<FakeReadSession, DeviceError>(
                DeviceError::BadSectorSize(old(self).sector_spec()),
            ),
            sector_ok(old(self).sector_spec()) && old(self).data_spec().len() <= MAX_DEVICE_BYTES ==> r is Ok,
            r matches Ok(s) ==> s.contents() == old(self).data_spec() && s.view_sector()
                == old(self).sector_spec() && s.fail_at_spec() == old(self).fail_at_spec()
                && !s.finished_spec() && (match old(self).observed_override_spec() {
                Some(o) => same_disk(s.view_observed(), o),
                None => same_disk(s.view_observed(), *disk),
            }),
    {
        self.calls = Ghost(self.calls@ + 1);
        if !sector_size_ok(self.sector_size) {
            return Err(DeviceError::BadSectorSize(self.sector_size));
        }
        if self.data.len() as u64 > MAX_DEVICE_BYTES {
            return Err(DeviceError::Io { code: 112, message: "장치 용량 조회 실패".to_owned() });
        }
        let observed = match &self.observed_override {
            Some(o) => o.duplicate(),
            None => disk.duplicate(),
        };
        Ok(
            FakeReadSession {
                observed,
                sector_size: self.sector_size,
                data: self.data.clone(),
                fail_at: self.fail_at,
                finished: false,
            },
        )
    }
}

impl ReadSession for FakeReadSession {
    closed spec fn view_observed(&self) -> DiskInfo {
        self.observed
    }

    closed spec fn reliable(&self) -> bool {
        self.fail_at is None && self.sector_size > 0
    }

    closed spec fn view_sector(&self) -> u32 {
        self.sector_size
    }

    closed spec fn view_total(&self) -> u64 {
        self.data@.len() as u64
    }

    closed spec fn contents(&self) -> Seq<u8> {
        self.data@
    }

    fn observed(&self) -> (r: &DiskInfo) {
        &self.observed
    }

    fn sector_size(&self) -> (r: u32) {
        self.sector_size
    }

    fn total_bytes(&self) -> (r: u64) {
        self.data.len() as u64
    }

    /// Offsets and lengths must be whole sectors, as on a real device.
    fn read_at(&mut self, offset: u64, buf: &mut [u8]) -> (r: Result<(), DeviceError>)
        ensures
            r is Ok <==> (aligned(offset as nat, old(self).view_sector() as nat) && aligned(
                old(buf)@.len(),
                old(self).view_sector() as nat,
            ) && !past(old(self).fail_at_spec(), offset + old(buf)@.len()) && offset + old(
                buf,
            )@.len() <= old(self).contents().len()),
            r matches Err(DeviceError::MediaChanged { op }) ==> op@ == "장치 읽기"@,
            (r matches Err(DeviceError::MediaChanged { .. })) ==> past(
                old(self).fail_at_spec(),
                offset + old(buf)@.len(),
            ),
    {
        let ss = self.sector_size as u64;
        if !is_aligned(offset, ss) || !is_aligned(buf.len() as u64, ss) {
            return Err(
                DeviceError::Io {
                    code: 87,
                    message: "정렬되지 않은 읽기 (길이와 오프셋은 섹터 배수여야 함)".to_owned(),
                },
            );
        }
        let end = (offset as u128) + (buf.len() as u128);
        match self.fail_at {
            Some(limit) => {
                if end > limit as u128 {
                    return Err(DeviceError::MediaChanged { op: "장치 읽기" });
                }
            },
            None => {},
        }
        if end > self.data.len() as u128 {
            return Err(
                DeviceError::Io { code: 112, message: "장치 끝을 넘어선 읽기".to_owned() },
            );
        }
        let start = offset as usize;
        let n = buf.len();
        let mut k: usize = 0;
        while k < n
            invariant
                k <= n,
                buf@.len() == n,
                start + n <= self.data@.len(),
                self.data@.len() <= usize::MAX,
                forall|j: int| 0 <= j < k ==> #[trigger] buf@[j] == self.data@[start + j],
            decreases n - k,
        {
            buf[k] = self.data[start + k];
            k += 1;
        }
        proof {
            assert(buf@ =~= self.data@.subrange(start as int, start + n));
        }
        Ok(())
    }

    /// Nothing to release; never fails.
    fn finish(self) -> (r: Result<(), DeviceError>)
        ensures
            r is Ok,
    {
        Ok(())
    }
}

} // verus!

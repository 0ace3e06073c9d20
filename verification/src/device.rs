//! The device boundary: enumerating disks and opening them for raw reads and
//! writes.
//!
//! Real implementations talk to the operating system; the fakes in
//! [`crate::fake`] stand in for them so that the safety rules and the whole
//! pipeline run without hardware.
use crate::model::{same_disk, DiskInfo};
use crate::sink::CHUNK;
use std::collections::HashSet;
use vstd::prelude::*;

verus! {

/// Errors of the device layer, kept apart where the user must be told
/// different things.
#[derive(Debug, Clone, PartialEq, Eq)]
pub enum DeviceError {
    /// Administrator rights are missing.
    NeedsElevation,
    /// The disk is gone, most likely unplugged after listing.
    NotFound { disk_number: u32 },
    /// Another program holds the device and it could not be locked.
    Locked { op: &'static str },
    /// The device refused access (Win32 5).
    WriteDenied { op: &'static str },
    /// The device vanished or changed during the operation (Win32 1110).
    MediaChanged { op: &'static str },
    /// The device reported an abnormal sector size.
    BadSectorSize(u32),
    /// The check right before writing found a different device.
    IdentityChanged { message: String },
    /// Any other I/O error: OS code and explanation.
    Io { code: i32, message: String },
    /// Failed after the target's partition table was already erased.
    TargetErased { code: i32, message: String },
}

/// Largest device size handled: far beyond any stick, and small enough that
/// offsets plus a chunk never overflow.
pub const MAX_DEVICE_BYTES: u64 = 0x1000_0000_0000_0000;

/// A sector size a device may report: at least 512 and a divisor of the
/// write chunk, so a power of two up to it (512 and 4096 in practice).
pub open spec fn sector_ok(s: u32) -> bool {
    512 <= s && (CHUNK as nat) % (s as nat) == 0
}

/// The error's debug text (what `{:?}` prints): the variant name followed by
/// its fields. The front end looks for the variant names in it.
pub uninterp spec fn debug_of(e: DeviceError) -> Seq<char>;

/// Formats an error with its derived `Debug` implementation (`format!`).
#[verifier::external_body]
pub(crate) fn debug_text(e: &DeviceError) -> (r: String)
    ensures
        r@ == debug_of(*e),
{
    format!("{e:?}")
}

/// Enumerates attached disks. No filtering here: the safety rules decide.
pub trait UsbEnumerator {
    /// The disks the system has.
    spec fn listed(&self) -> Seq<DiskInfo>;

    /// The numbers of the disks that must never be touched.
    spec fn protected_view(&self) -> Set<u32>;

    /// Whether the enumerator always answers: a stand-in with fixed disks
    /// does, a system asked at run time promises nothing.
    spec fn always_answers(&self) -> bool;

    /// Whether `e` is an error the protected-number query may give.
    spec fn refuses_protected(&self, e: DeviceError) -> bool;

    /// Whether `e` is an error the listing may give.
    spec fn refuses_listing(&self, e: DeviceError) -> bool;

    /// Every disk of the system.
    fn list_disks(&self) -> (r: Result<Vec<DiskInfo>, DeviceError>)
        ensures
            r matches Ok(v) ==> v@.len() == self.listed().len() && forall|i: int|
                0 <= i < v@.len() ==> #[trigger] same_disk(v@[i], self.listed()[i]),
            self.always_answers() ==> r is Ok,
            r matches Err(e) ==> self.refuses_listing(e),
    ;

    /// Devices left out of the enumeration, each with its reason.
    fn skipped(&self) -> Vec<String>;

    /// Disk numbers that must never be touched (system drive, Windows folder,
    /// running programs, page file), asked of the kernel directly. A volume
    /// may span several disks: the numbers of all its extents are included.
    fn protected_disk_numbers(&self) -> (r: Result<HashSet<u32>, DeviceError>)
        ensures
            r matches Ok(s) ==> s@ == self.protected_view(),
            self.always_answers() ==> r is Ok,
            r matches Err(e) ==> self.refuses_protected(e),
    ;
}

/// One request a write session accepted.
pub enum WriteOp {
    /// `bytes` written at `offset`.
    Data { offset: u64, bytes: Seq<u8> },
    /// The last `len` bytes of the device set to zero.
    ZeroTail { len: u64 },
}

/// An open target device.
pub trait WriteSession {
    spec fn view_observed(&self) -> DiskInfo;

    spec fn view_sector(&self) -> u32;

    spec fn view_total(&self) -> u64;

    /// The write requests the device has accepted so far, in order.
    spec fn writes(&self) -> Seq<WriteOp>;

    /// What a read of the device gives back right now.
    spec fn medium(&self) -> Seq<u8>;

    /// Whether every request within the device, in whole sectors, succeeds:
    /// so of a stand-in that never fails, not of a stick that can be pulled.
    spec fn reliable(&self) -> bool;

    /// The device as read from the open handle, to compare with the user's choice.
    fn observed(&self) -> (r: &DiskInfo)
        ensures
            same_disk(*r, self.view_observed()),
    ;

    /// Logical sector size reported by the device; 512 is never assumed.
    fn sector_size(&self) -> (r: u32)
        ensures
            r == self.view_sector(),
    ;

    /// Exact device size in bytes.
    fn total_bytes(&self) -> (r: u64)
        ensures
            r == self.view_total(),
    ;

    /// Writes one piece. `offset` and `data.len()` must be multiples of the
    /// sector size.
    fn write_at(&mut self, offset: u64, data: &[u8]) -> (r: Result<(), DeviceError>)
        ensures
            final(self).view_observed() == old(self).view_observed(),
            final(self).view_sector() == old(self).view_sector(),
            final(self).view_total() == old(self).view_total(),
            r is Ok ==> final(self).writes() == old(self).writes().push(
                WriteOp::Data { offset, bytes: data@ },
            ),
            r is Err ==> final(self).writes() == old(self).writes(),
            final(self).reliable() == old(self).reliable(),
            old(self).reliable() && (offset as nat) % (old(self).view_sector() as nat) == 0
                && data@.len() % (old(self).view_sector() as nat) == 0 && offset + data@.len() <= old(
                self,
            ).view_total() ==> r is Ok,
    ;

    /// Sets the last `bytes` bytes of the device to zero, so that an old GPT
    /// backup header at the end cannot bring a deleted table back.
    fn zero_tail(&mut self, bytes: u64) -> (r: Result<(), DeviceError>)
        ensures
            final(self).view_observed() == old(self).view_observed(),
            final(self).view_sector() == old(self).view_sector(),
            final(self).view_total() == old(self).view_total(),
            r is Ok ==> final(self).writes() == old(self).writes().push(
                WriteOp::ZeroTail { len: bytes },
            ),
            r is Err ==> final(self).writes() == old(self).writes(),
            final(self).reliable() == old(self).reliable(),
            old(self).reliable() ==> r is Ok,
    ;

    /// Reads back (verification).
    fn read_at(&mut self, offset: u64, buf: &mut [u8]) -> (r: Result<(), DeviceError>)
        ensures
            final(self).view_observed() == old(self).view_observed(),
            final(self).view_sector() == old(self).view_sector(),
            final(self).view_total() == old(self).view_total(),
            final(self).writes() == old(self).writes(),
            final(self).medium() == old(self).medium(),
            final(buf)@.len() == old(buf)@.len(),
            r is Ok ==> offset + old(buf)@.len() <= old(self).medium().len() && final(buf)@
                == old(self).medium().subrange(offset as int, offset + old(buf)@.len()),
            final(self).reliable() == old(self).reliable(),
            old(self).reliable() && offset + old(buf)@.len() <= old(self).view_total() ==> r is Ok,
    ;

    /// Pushes what was written out of any cache onto the medium, so that a
    /// read-back sees the medium and not the cache.
    fn commit(&mut self) -> (r: Result<(), DeviceError>)
        ensures
            final(self).view_observed() == old(self).view_observed(),
            final(self).view_sector() == old(self).view_sector(),
            final(self).view_total() == old(self).view_total(),
            final(self).writes() == old(self).writes(),
            final(self).reliable() == old(self).reliable(),
            old(self).reliable() ==> r is Ok,
    ;

    /// Flush, re-read the partition table, unlock, release.
    fn finish(self) -> (r: Result<(), DeviceError>) where Self: Sized
        ensures
            self.reliable() ==> r is Ok,
    ;
}

/// Opens a target for writing.
///
/// The implementation removes mount points, locks the volume and clears the
/// layout: from here on the target's previous contents are gone.
pub trait RawWriter {
    type Session: WriteSession;

    /// How many times the writer was asked to open a target.
    spec fn open_calls(&self) -> nat;

    /// How many targets it opened, that is, erased.
    spec fn sessions(&self) -> nat;

    /// For a stand-in that cannot fail: the capacity and the sector size of
    /// every session it opens. A writer of real devices gives `None`.
    spec fn stand_in(&self) -> Option<(nat, u32)>;

    /// Whether `o` is a device a session it opened on `disk` may show.
    spec fn observes(&self, disk: DiskInfo, o: DiskInfo) -> bool;

    /// An abnormal sector size is refused with [`DeviceError::BadSectorSize`].
    fn open(&mut self, disk: &DiskInfo) -> (r: Result<Self::Session, DeviceError>)
        ensures
            forall|d: DiskInfo, o: DiskInfo|
                #[trigger] final(self).observes(d, o) == old(self).observes(d, o),
            r matches Ok(s) ==> old(self).observes(*disk, s.view_observed()),
            final(self).stand_in() == old(self).stand_in(),
            old(self).stand_in() matches Some((cap, ss)) ==> (r matches Ok(s) && s.reliable()
                && s.view_total() == cap && s.view_sector() == ss && same_disk(
                s.view_observed(),
                *disk,
            )),
            final(self).open_calls() == old(self).open_calls() + 1,
            final(self).sessions() == old(self).sessions() + if r is Ok {
                1nat
            } else {
                0nat
            },
            r matches Ok(s) ==> s.writes() == Seq::<WriteOp>::empty() && sector_ok(s.view_sector())
                && s.view_total() <= MAX_DEVICE_BYTES,
    ;
}

/// An open source device. It has no way to write: a clone must never swap
/// source and target.
pub trait ReadSession {
    spec fn view_observed(&self) -> DiskInfo;

    spec fn view_sector(&self) -> u32;

    spec fn view_total(&self) -> u64;

    /// The device's bytes.
    spec fn contents(&self) -> Seq<u8>;

    /// Whether every read of whole sectors within the device succeeds: so of
    /// a stand-in that never fails, not of a device that can be pulled.
    spec fn reliable(&self) -> bool;

    fn observed(&self) -> (r: &DiskInfo)
        ensures
            same_disk(*r, self.view_observed()),
    ;

    fn sector_size(&self) -> (r: u32)
        ensures
            r == self.view_sector(),
    ;

    fn total_bytes(&self) -> (r: u64)
        ensures
            r == self.view_total(),
    ;

    /// Reads one piece; `offset` and `buf.len()` must be sector multiples.
    fn read_at(&mut self, offset: u64, buf: &mut [u8]) -> (r: Result<(), DeviceError>)
        ensures
            final(self).view_observed() == old(self).view_observed(),
            final(self).view_sector() == old(self).view_sector(),
            final(self).view_total() == old(self).view_total(),
            final(self).contents() == old(self).contents(),
            final(buf)@.len() == old(buf)@.len(),
            r is Ok ==> offset + old(buf)@.len() <= old(self).contents().len() && final(buf)@
                == old(self).contents().subrange(offset as int, offset + old(buf)@.len()),
            final(self).reliable() == old(self).reliable(),
            old(self).reliable() && (offset as nat) % (old(self).view_sector() as nat) == 0 && old(
                buf,
            )@.len() % (old(self).view_sector() as nat) == 0 && offset + old(buf)@.len() <= old(
                self,
            ).contents().len() ==> r is Ok,
    ;

    /// A reliable session closes without failing.
    fn finish(self) -> (r: Result<(), DeviceError>) where Self: Sized
        ensures
            self.reliable() ==> r is Ok,
    ;
}

/// Opens a source for reading. It is never locked, unmounted or cleared.
pub trait RawReader {
    type Session: ReadSession;

    /// For a stand-in with fixed contents: the bytes and the sector size that
    /// every session it opens has. A reader of real devices gives `None`.
    spec fn stand_in(&self) -> Option<(Seq<u8>, u32)>;

    /// How many times the reader was asked to open a source.
    spec fn open_calls(&self) -> nat;

    /// Whether `c` with sectors of `ss` bytes is what a session it opened on
    /// `disk` may hold.
    spec fn shows(&self, disk: DiskInfo, c: Seq<u8>, ss: u32) -> bool;

    /// Whether `o` is a device a session it opened on `disk` may show.
    spec fn observes(&self, disk: DiskInfo, o: DiskInfo) -> bool;

    /// An abnormal sector size is refused with [`DeviceError::BadSectorSize`].
    fn open(&mut self, disk: &DiskInfo) -> (r: Result<Self::Session, DeviceError>)
        ensures
            forall|d: DiskInfo, o: DiskInfo|
                #[trigger] final(self).observes(d, o) == old(self).observes(d, o),
            r matches Ok(s) ==> old(self).observes(*disk, s.view_observed()),
            final(self).open_calls() == old(self).open_calls() + 1,
            final(self).stand_in() == old(self).stand_in(),
            forall|d: DiskInfo, c: Seq<u8>, ss: u32|
                #[trigger] final(self).shows(d, c, ss) == old(self).shows(d, c, ss),
            r matches Ok(s) ==> old(self).shows(*disk, s.contents(), s.view_sector()),
            r matches Ok(s) ==> sector_ok(s.view_sector()) && s.view_total() == s.contents().len()
                && s.view_total() <= MAX_DEVICE_BYTES,
            old(self).stand_in() matches Some((d, ss)) ==> (r matches Ok(s) && s.contents() == d
                && s.view_sector() == ss && s.reliable() && same_disk(s.view_observed(), *disk)),
    ;
}

/// A stream of bytes, such as a decompressed download.
///
/// Types of this library describe what they hand out: for them `faithful`
/// holds, and `produced`, `ended` and `origin` say what was read. Other
/// implementations, such as a decompressor, are not described: for them
/// `faithful` is false and the read promises only what it does to `buf`.
pub trait ByteSource {
    /// Whether `produced`, `ended` and `origin` describe this stream.
    closed spec fn faithful(&self) -> bool {
        false
    }

    /// Every byte handed out so far.
    closed spec fn produced(&self) -> Seq<u8> {
        Seq::empty()
    }

    /// Whether the stream has said it is over.
    closed spec fn ended(&self) -> bool {
        false
    }

    /// What a read needs of the stream's own state; every read keeps it.
    closed spec fn inv(&self) -> bool {
        true
    }

    /// The bytes the stream is drawn from, unchanged by reads.
    closed spec fn origin(&self) -> Seq<u8> {
        Seq::empty()
    }

    /// Whether every read succeeds; by default this is not known.
    closed spec fn never_fails(&self) -> bool {
        false
    }

    /// A described stream that has ended has handed out exactly its origin.
    proof fn lemma_ended_gives_origin(&self)
        ensures
            self.faithful() && self.inv() && self.ended() ==> self.produced() == self.origin(),
    ;

    /// A described stream whose reads cannot fail has handed out the front of
    /// its origin.
    proof fn lemma_produced_is_front(&self)
        ensures
            self.faithful() && self.inv() && self.never_fails() ==> self.produced().len()
                <= self.origin().len() && self.produced() == self.origin().take(
                self.produced().len() as int,
            ),
    ;

    /// Puts the next bytes of the stream into `buf` from index `at` on and
    /// says how many; `Ok(0)` means the end of the stream, and once it has
    /// ended a stream gives nothing more and does not fail.
    fn read_into(&mut self, buf: &mut [u8], at: usize) -> (r: Result<usize, String>)
        requires
            at <= old(buf)@.len(),
            old(self).inv(),
        ensures
            final(self).inv(),
            final(buf)@.len() == old(buf)@.len(),
            final(buf)@.take(at as int) == old(buf)@.take(at as int),
            r matches Ok(n) ==> at + n <= old(buf)@.len(),
            old(self).faithful() ==> final(self).faithful() && final(self).origin() == old(
                self,
            ).origin(),
            old(self).faithful() ==> (r matches Ok(n) ==> final(self).produced() == old(
                self,
            ).produced() + final(buf)@.subrange(at as int, at + n)),
            old(self).faithful() ==> (r is Err ==> final(self).produced() == old(self).produced()),
            old(self).faithful() ==> (r == Ok::<usize, String>(0) && at < old(buf)@.len()
                ==> final(self).ended()),
            old(self).faithful() && old(self).ended() ==> r == Ok::<usize, String>(0)
                && final(self).ended(),
            old(self).never_fails() ==> r is Ok && final(self).never_fails(),
    ;
}

/// A byte stream held in memory.
pub struct MemorySource {
    data: Vec<u8>,
    pos: usize,
}

impl MemorySource {
    pub closed spec fn data_spec(&self) -> Seq<u8> {
        self.data@
    }

    pub closed spec fn pos_spec(&self) -> nat {
        self.pos as nat
    }

    /// How many bytes a read hands out into `room` free places: what is
    /// left, or less where the room is smaller.
    pub open spec fn next_count(&self, room: int) -> int {
        if self.pos_spec() >= self.data_spec().len() {
            0
        } else if room < self.data_spec().len() - self.pos_spec() {
            room
        } else {
            self.data_spec().len() - self.pos_spec()
        }
    }

    pub fn new(data: Vec<u8>) -> (r: Self)
        ensures
            r.data_spec() == data@,
            r.pos_spec() == 0,
            r.faithful(),
            r.inv(),
            r.origin() == data@,
            r.produced() == Seq::<u8>::empty(),
    {
        MemorySource { data, pos: 0 }
    }
}

impl ByteSource for MemorySource {
    closed spec fn faithful(&self) -> bool {
        true
    }

    closed spec fn produced(&self) -> Seq<u8> {
        self.data@.take(self.pos as int)
    }

    closed spec fn ended(&self) -> bool {
        self.pos >= self.data@.len()
    }

    closed spec fn inv(&self) -> bool {
        self.pos <= self.data@.len()
    }

    closed spec fn never_fails(&self) -> bool {
        true
    }

    proof fn lemma_ended_gives_origin(&self) {
        if self.inv() && self.ended() {
            assert(self.data@.take(self.pos as int) =~= self.data@);
        }
    }

    closed spec fn origin(&self) -> Seq<u8> {
        self.data@
    }

    proof fn lemma_produced_is_front(&self) {
        if self.inv() {
            assert(self.data@.take(self.pos as int) =~= self.data@.take(self.pos as int).take(
                self.pos as int,
            ));
        }
    }

    fn read_into(&mut self, buf: &mut [u8], at: usize) -> (r: Result<usize, String>)
        ensures
            r is Ok,
            r matches Ok(n) ==> n as int == if old(self).pos_spec() >= old(self).data_spec().len() {
                0
            } else if old(buf)@.len() - at < old(self).data_spec().len() - old(self).pos_spec() {
                old(buf)@.len() - at
            } else {
                old(self).data_spec().len() - old(self).pos_spec()
            },
            final(self).data_spec() == old(self).data_spec(),
            r matches Ok(n) ==> final(self).pos_spec() == old(self).pos_spec() + n && (n > 0
                ==> final(buf)@.subrange(at as int, at + n) == old(self).data_spec().subrange(
                old(self).pos_spec() as int,
                old(self).pos_spec() + n,
            )),
    {
        let dlen = self.data.len();
        if self.pos >= dlen {
            proof {
                assert(buf@.subrange(at as int, at as int) =~= Seq::<u8>::empty());
                assert(self.data@.take(self.pos as int) + Seq::<u8>::empty() =~= self.data@.take(self.pos as int));
            }
            return Ok(0);
        }
        let left = dlen - self.pos;
        let room = buf.len() - at;
        let n = if room < left {
            room
        } else {
            left
        };
        let mut i: usize = 0;
        while i < n
            invariant
                i <= n,
                at + n <= buf@.len(),
                buf@.len() <= usize::MAX,
                buf@.len() == old(buf)@.len(),
                buf@.take(at as int) == old(buf)@.take(at as int),
                self.pos + n <= self.data@.len(),
                self.data@.len() == dlen,
                self.pos == old(self).pos,
                self.data == old(self).data,
                forall|k: int| at <= k < at + i ==> #[trigger] buf@[k] == self.data@[self.pos + k - at],
            decreases n - i,
        {
            buf[at + i] = self.data[self.pos + i];
            i += 1;
            proof {
                assert(buf@.take(at as int) =~= old(buf)@.take(at as int));
            }
        }
        proof {
            assert(self.data@.take((self.pos + n) as int) =~= self.data@.take(self.pos as int)
                + buf@.subrange(at as int, at + n));
        }
        self.pos = self.pos + n;
        Ok(n)
    }
}

} // verus!

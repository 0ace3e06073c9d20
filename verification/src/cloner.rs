//! Cloning one stick onto another.
//!
//! The whole target side is shared with burning a loader; only where the
//! bytes come from differs: the source stick instead of the network.
//!
//! The source is analysed before the target is opened. Refusing a GPT
//! source or one without a partition table after the target was already
//! erased would leave the user with nothing and one good stick lost.
use crate::device::{
    sector_ok, WriteOp, ByteSource, DeviceError, RawReader, RawWriter, ReadSession, WriteSession,
    MAX_DEVICE_BYTES,
};
use crate::layout::{end_upto, parse, parse_spec, Layout, LayoutError};
use crate::model::DiskInfo;
use crate::pipeline::{Cancel, ProgressEvent, ProgressReporter};
use crate::prep::describe;
use crate::progress::Stage;
use crate::safety::{
    can_clone, can_clone_spec, confirm_identity, confirm_identity_spec, describe_spec,
    hidden_reason_spec, is_listable, Rejection,
};
use crate::sink::{
    self, digests, law_stream_places_the_image, packed, padlen, reads_back, streamed, tail_writes,
    SinkError, SinkOutcome, CHUNK, HOLDBACK,
};
use crate::source::{lemma_reader_done, SessionReader};
use std::collections::HashSet;
use vstd::prelude::*;

verus! {

/// Read from the front of the source to decide its layout: the MBR and the
/// GPT header need two sectors, taken generously for 512- and 4096-byte
/// sectors alike.
pub const HEAD: u64 = 64 * 1024;

/// What the clone is asked to do.
pub struct CloneConfig {
    pub verify: bool,
}

/// What was done, for the completion screen.
#[derive(Debug, Clone)]
pub struct CloneSummary {
    pub bytes_copied: u64,
    pub partitions: u32,
    pub verified: bool,
    pub source_name: String,
    pub target_name: String,
}

/// Why cloning failed.
#[derive(Debug)]
pub enum CloneError {
    /// The range to copy could not be decided from the source.
    Layout(LayoutError),
    /// A safety rule refused.
    Rejected(Rejection),
    /// The source is not the device picked; says what diverged.
    SourceIdentityChanged(String),
    /// The target is not the device picked; says what diverged.
    TargetIdentityChanged(String),
    Device(DeviceError),
    /// The source could not be read.
    Source(String),
    /// `at` is where the first differing block starts.
    VerifyMismatch { at: u64 },
    /// Failed after the target was already erased (the source is intact).
    TargetErased { cause: Box<CloneError> },
    Canceled,
}

impl CloneError {
    /// Marks a failure as one after the target was erased.
    pub fn already_erased(cause: CloneError) -> (r: CloneError)
        ensures
            r == (CloneError::TargetErased { cause: Box::new(cause) }),
    {
        CloneError::TargetErased { cause: Box::new(cause) }
    }
}

/// The clone's error for a failure of the sink.
pub fn from_sink(e: SinkError) -> (r: CloneError)
    ensures
        match e {
            SinkError::Source(s) => r == CloneError::Source(s),
            SinkError::EmptySource => r matches CloneError::Source(m) && m@
                == "원본에서 읽은 내용이 없습니다"@,
            SinkError::Device(d) => r == CloneError::Device(d),
            SinkError::TooSmall { need, have } => r == CloneError::Rejected(
                Rejection::TooSmall { need, have },
            ),
            SinkError::VerifyMismatch { at } => r == (CloneError::VerifyMismatch { at }),
            SinkError::Canceled => r == CloneError::Canceled,
        },
{
    match e {
        SinkError::Source(s) => CloneError::Source(s),
        // The layout guarantees at least one sector; reaching this means the
        // source vanished.
        SinkError::EmptySource => CloneError::Source("원본에서 읽은 내용이 없습니다".to_owned()),
        SinkError::Device(d) => CloneError::Device(d),
        SinkError::TooSmall { need, have } => CloneError::Rejected(
            Rejection::TooSmall { need, have },
        ),
        SinkError::VerifyMismatch { at } => CloneError::VerifyMismatch { at },
        SinkError::Canceled => CloneError::Canceled,
    }
}

/// Bytes of the source read to decide its layout: [`HEAD`], or the whole
/// device when smaller, cut to whole sectors.
pub open spec fn head_len(total: u64, sector: u32) -> nat {
    let want = if total < HEAD {
        total
    } else {
        HEAD
    };
    ((want as nat) / (sector as nat)) * (sector as nat)
}

/// The layout read from the front of a source holding `c`, with sectors of
/// `ss` bytes.
pub open spec fn layout_of(c: Seq<u8>, ss: u32) -> Result<Layout, LayoutError> {
    parse_spec(c.take(head_len(c.len() as u64, ss) as int), c.len() as u64, ss)
}

/// What a clone that went through did: the source held `c` with sectors of
/// `ss` bytes and has the layout `l`; the target, of `cap` bytes with sectors
/// of `ds` bytes, received the writes `ws` of streaming the first `l.bytes`
/// bytes of `c`, its partition table last, and `all` is those writes
/// followed by the zeroing of its end. Where the sector divides the held
/// front, the copy is exactly those bytes padded to whole sectors. When
/// `verified`, the target read back as `m` matched what the stream reported.
pub open spec fn cloned_as(
    c: Seq<u8>,
    ss: u32,
    l: Layout,
    ds: u32,
    cap: u64,
    ws: Seq<WriteOp>,
    out: SinkOutcome,
    all: Seq<WriteOp>,
    verified: bool,
    m: Seq<u8>,
) -> bool {
    &&& sector_ok(ss)
    &&& sector_ok(ds)
    &&& layout_of(c, ss) == Ok::<Layout, LayoutError>(l)
    &&& l.bytes <= c.len()
    &&& streamed(ws, c.take(l.bytes as int), ds as nat, out)
    &&& (HOLDBACK as nat) % (ds as nat) == 0 ==> packed(ws, c.take(l.bytes as int), ds as nat)
        && out.bytes == padlen(l.bytes as nat, ds as nat)
    &&& all == ws + tail_writes(cap, out.bytes)
    &&& verified ==> reads_back(m, out.bytes as nat, ds as nat, out.hash@, digests(out.blocks@))
}

/// The kinds of failure that happen only once the target is open.
pub open spec fn clone_after_open(e: CloneError) -> bool {
    ||| e is TargetIdentityChanged
    ||| e is Device
    ||| e is Source
    ||| e is VerifyMismatch
    ||| e is Canceled
    ||| e matches CloneError::Rejected(Rejection::TooSmall { .. })
}

proof fn lemma_head(total: u64, sector: u32)
    requires
        sector_ok(sector),
    ensures
        head_len(total, sector) <= HEAD,
        head_len(total, sector) <= total,
        head_len(total, sector) < 2 * sector || head_len(total, sector) >= sector + 512,
        sector <= CHUNK,
{
    vstd::arithmetic::div_mod::lemma_mod_is_zero(CHUNK as nat, sector as nat);
    let want = if total < HEAD {
        total
    } else {
        HEAD
    };
    let s = sector as nat;
    assert(((want as nat) / s) * s <= want) by (nonlinear_arith)
        requires
            s > 0,
    ;
}

/// Reads the layout of an open source.
fn read_layout<S: ReadSession>(s: &mut S) -> (r: Result<Layout, CloneError>)
    requires
        sector_ok(old(s).view_sector()),
        old(s).view_total() == old(s).contents().len(),
    ensures
        final(s).contents() == old(s).contents(),
        final(s).view_observed() == old(s).view_observed(),
        final(s).view_sector() == old(s).view_sector(),
        final(s).view_total() == old(s).view_total(),
        r matches Ok(l) ==> ({
            let n = head_len(old(s).view_total(), old(s).view_sector());
            parse_spec(old(s).contents().take(n as int), old(s).view_total(), old(s).view_sector())
                == Ok::<Layout, LayoutError>(l)
        }),
        r matches Err(CloneError::Layout(e)) ==> ({
            let n = head_len(old(s).view_total(), old(s).view_sector());
            parse_spec(old(s).contents().take(n as int), old(s).view_total(), old(s).view_sector())
                == Err::<Layout, LayoutError>(e)
        }),
        r matches Err(e) ==> e is Layout || e is Device,
        old(s).reliable() ==> r matches Ok(_) || r matches Err(CloneError::Layout(_)),
        final(s).reliable() == old(s).reliable(),
{
    let sector = s.sector_size();
    let total = s.total_bytes();
    proof {
        lemma_head(total, sector);
    }
    // Never more than the device, and whole sectors.
    let want = if total < HEAD {
        total
    } else {
        HEAD
    };
    let len = ((want / sector as u64) * sector as u64) as usize;
    let mut head: Vec<u8> = vec![0u8; len];
    proof {
        vstd::arithmetic::div_mod::lemma_mod_multiples_basic(
            (want / sector as u64) as int,
            sector as int,
        );
        vstd::arithmetic::div_mod::lemma_small_mod(0, sector as nat);
    }
    match s.read_at(0, head.as_mut_slice()) {
        Ok(()) => {},
        Err(e) => {
            return Err(CloneError::Device(e));
        },
    }
    proof {
        assert(head@ =~= old(s).contents().take(len as int));
    }
    match parse(head.as_slice(), total, sector) {
        Ok(l) => Ok(l),
        Err(e) => Err(CloneError::Layout(e)),
    }
}

/// Opens the source, learns the range to copy, and closes it again.
///
/// For the confirmation screen's "bytes to copy"; the target is not touched.
/// The source must pass the listing rules first: the enumerator returns
/// every disk, internal ones included, and this must not become a way to
/// open any of them.
pub fn analyze<R: RawReader>(reader: &mut R, source: &DiskInfo, protected: &HashSet<u32>) -> (r: Result<
    Layout,
    CloneError,
>)
    ensures
        r matches Err(CloneError::Rejected(x)) ==> hidden_reason_spec(*source, protected@)
            == Some(x),
        hidden_reason_spec(*source, protected@) is Some ==> r matches Err(CloneError::Rejected(_)),
        r matches Ok(l) ==> hidden_reason_spec(*source, protected@) is None,
        r is Ok ==> exists|o: DiskInfo|
            #[trigger] old(reader).observes(*source, o) && confirm_identity_spec(*source, o) is Ok,
        r matches Ok(l) ==> exists|c: Seq<u8>, ss: u32|
            sector_ok(ss) && layout_of(c, ss) == Ok::<Layout, LayoutError>(l) && (
            old(reader).stand_in() matches Some((d, x)) ==> c == d && ss == x) && old(
            reader,
        ).shows(*source, c, ss),
        r matches Err(CloneError::Layout(e)) ==> exists|c: Seq<u8>, ss: u32|
            sector_ok(ss) && layout_of(c, ss) == Err::<Layout, LayoutError>(e) && (
            old(reader).stand_in() matches Some((d, x)) ==> c == d && ss == x) && old(
            reader,
        ).shows(*source, c, ss),
        old(reader).stand_in() matches Some((d, ss)) ==> (hidden_reason_spec(*source, protected@) is None
            && confirm_identity_spec(*source, *source) is Ok && layout_of(d, ss) is Err ==> r
            == Err::<Layout, CloneError>(CloneError::Layout(layout_of(d, ss)->Err_0))),
        r matches Err(e) ==> e is Rejected || e is Device || e is SourceIdentityChanged
            || e is Layout,
        final(reader).open_calls() == old(reader).open_calls() + if hidden_reason_spec(
            *source,
            protected@,
        ) is Some {
            0nat
        } else {
            1nat
        },
{
    match is_listable(source, protected) {
        Ok(()) => {},
        Err(x) => {
            return Err(CloneError::Rejected(x));
        },
    }
    let mut s = match reader.open(source) {
        Ok(s) => s,
        Err(e) => {
            return Err(CloneError::Device(e));
        },
    };
    match confirm_identity(source, s.observed()) {
        Ok(()) => {},
        Err(m) => {
            return Err(CloneError::SourceIdentityChanged(m.describe()));
        },
    }
    let ghost c = s.contents();
    let ghost seen = s.view_observed();
    let ghost ss = s.view_sector();
    let l = match read_layout(&mut s) {
        Ok(l) => l,
        Err(e) => {
            proof {
                if e is Layout {
                    assert(layout_of(c, ss) == Err::<Layout, LayoutError>(e->Layout_0));
                }
            }
            return Err(e);
        },
    };
    proof {
        assert(layout_of(c, ss) == Ok::<Layout, LayoutError>(l));
        assert(old(reader).observes(*source, seen));
    }
    match s.finish() {
        Ok(()) => {},
        Err(e) => {
            return Err(CloneError::Device(e));
        },
    }
    Ok(l)
}

/// A clone that nothing refuses: distinct disks that show themselves, a
/// source `d` with sectors of `ss` bytes and a layout that copies something,
/// a pair the safety rules allow, and a target of `cap` bytes with sectors of
/// `ds` bytes that divide the held front and that holds the copy padded.
pub open spec fn clone_fits(
    source: DiskInfo,
    target: DiskInfo,
    protected: Set<u32>,
    d: Seq<u8>,
    ss: u32,
    cap: nat,
    ds: u32,
) -> bool {
    &&& source.number != target.number
    &&& confirm_identity_spec(source, source) is Ok
    &&& confirm_identity_spec(target, target) is Ok
    &&& layout_of(d, ss) is Ok
    &&& layout_of(d, ss)->Ok_0.bytes > 0
    &&& can_clone_spec(source, target, protected, layout_of(d, ss)->Ok_0.bytes) is Ok
    &&& (HOLDBACK as nat) % (ds as nat) == 0
    &&& padlen(layout_of(d, ss)->Ok_0.bytes as nat, ds as nat) <= cap
}

/// The range a layout copies is whole sectors of the source.
proof fn lemma_layout_whole_sectors(c: Seq<u8>, ss: u32)
    requires
        sector_ok(ss),
        c.len() <= u64::MAX,
        layout_of(c, ss) is Ok,
    ensures
        (layout_of(c, ss)->Ok_0.bytes as nat) % (ss as nat) == 0,
{
    let h = c.take(head_len(c.len() as u64, ss) as int);
    vstd::arithmetic::div_mod::lemma_mod_multiples_basic(end_upto(h, 4) as int, ss as int);
}

/// Streams the source's partitioned region onto the target.
///
/// Everything the target receives is exactly the source's first
/// `plan_bytes` bytes, the partition table written last.
fn copy_stream<R: ReadSession, W: WriteSession, C: Cancel, F: FnMut(ProgressEvent)>(
    dst: &mut W,
    src: R,
    plan_bytes: u64,
    cancel: &C,
    rep: &mut ProgressReporter<F>,
) -> (r: Result<(SinkOutcome, R), CloneError>)
    requires
        sector_ok(old(dst).view_sector()),
        old(dst).view_total() <= MAX_DEVICE_BYTES,
    ensures
        final(dst).view_observed() == old(dst).view_observed(),
        final(dst).view_sector() == old(dst).view_sector(),
        final(dst).view_total() == old(dst).view_total(),
        final(dst).writes().len() >= old(dst).writes().len(),
        final(dst).writes().take(old(dst).writes().len() as int) == old(dst).writes(),
        r matches Ok((out, s)) ==> plan_bytes <= src.contents().len() && streamed(
            final(dst).writes().skip(old(dst).writes().len() as int),
            src.contents().take(plan_bytes as int),
            old(dst).view_sector() as nat,
            out,
        ),
        r is Ok && (HOLDBACK as nat) % (old(dst).view_sector() as nat) == 0 ==> packed(
            final(dst).writes().skip(old(dst).writes().len() as int),
            src.contents().take(plan_bytes as int),
            old(dst).view_sector() as nat,
        ),
        r matches Err(e) ==> clone_after_open(e) && !(e is TargetIdentityChanged),
        final(dst).reliable() == old(dst).reliable(),
        cancel.never_cancels() && src.reliable() && src.view_sector() > 0 && (plan_bytes as nat) % (
        src.view_sector() as nat) == 0 && (CHUNK as nat) % (src.view_sector() as nat) == 0
            && 0 < plan_bytes <= src.contents().len() && old(dst).reliable() && (HOLDBACK as nat)
            % (old(dst).view_sector() as nat) == 0 && padlen(
            plan_bytes as nat,
            old(dst).view_sector() as nat,
        ) <= old(dst).view_total() ==> (r matches Ok((_, s)) && s.reliable()),
{
    let mut stream = SessionReader::new(src, plan_bytes, CHUNK);
    let ghost origin = stream.origin();
    proof {
        assert(stream.produced().len() == 0);
    }
    let out = match sink::stream(&mut stream, dst, Some(plan_bytes), cancel, rep) {
        Ok(o) => o,
        Err(e) => {
            proof {
                if e is EmptySource {
                    stream.lemma_ended_gives_origin();
                }
            }
            return Err(from_sink(e));
        },
    };
    proof {
        lemma_reader_done(stream);
        assert(stream.produced().skip(0) =~= stream.produced());
        if plan_bytes > src.contents().len() {
            assert(origin.len() == 0);
        }
    }
    let s = stream.into_session();
    Ok((out, s))
}

/// Everything after the target was opened; gives the bytes copied, and the
/// writes the copy made with what the sink reported of them.
///
/// Kept apart from [`run`] so that every failure past the point of no
/// return is wrapped in a single place.
fn copy_to_target<R: ReadSession, W: WriteSession, C: Cancel, F: FnMut(ProgressEvent)>(
    cfg: &CloneConfig,
    target: &DiskInfo,
    dst: W,
    src: R,
    plan: &Layout,
    cancel: &C,
    rep: &mut ProgressReporter<F>,
) -> (r: (Result<u64, CloneError>, Ghost<(Seq<WriteOp>, SinkOutcome, Seq<WriteOp>, Seq<u8>)>))
    requires
        sector_ok(dst.view_sector()),
        dst.view_total() <= MAX_DEVICE_BYTES,
    ensures
        (r.0 matches Err(CloneError::TargetIdentityChanged(m))) <==> confirm_identity_spec(
            *target,
            dst.view_observed(),
        ) is Err,
        r.0 matches Err(e) ==> clone_after_open(e),
        r.0 matches Ok(n) ==> n > 0 && n == r.1@.1.bytes && plan.bytes <= src.contents().len()
            && streamed(r.1@.0, src.contents().take(plan.bytes as int), dst.view_sector() as nat, r.1@.1),
        r.0 is Ok && (HOLDBACK as nat) % (dst.view_sector() as nat) == 0 ==> packed(
            r.1@.0,
            src.contents().take(plan.bytes as int),
            dst.view_sector() as nat,
        ) && r.1@.1.bytes == padlen(plan.bytes as nat, dst.view_sector() as nat),
        cancel.never_cancels() && src.reliable() && src.view_sector() > 0 && (plan.bytes as nat) % (
        src.view_sector() as nat) == 0 && (CHUNK as nat) % (src.view_sector() as nat) == 0
            && 0 < plan.bytes <= src.contents().len() && dst.reliable() && (HOLDBACK as nat) % (
        dst.view_sector() as nat) == 0 && padlen(plan.bytes as nat, dst.view_sector() as nat)
            <= dst.view_total() && confirm_identity_spec(*target, dst.view_observed()) is Ok ==> r.0 is Ok
            || (cfg.verify && r.0 matches Err(CloneError::VerifyMismatch { .. })),
        r.0 is Ok ==> r.1@.2 == r.1@.0 + tail_writes(dst.view_total(), r.1@.1.bytes),
        r.0 is Ok && cfg.verify ==> reads_back(
            r.1@.3,
            r.1@.1.bytes as nat,
            dst.view_sector() as nat,
            r.1@.1.hash@,
            digests(r.1@.1.blocks@),
        ),
{
    let mut dst = dst;
    let ghost w0 = dst.writes();
    let ghost ds = dst.view_sector();
    let ghost data = src.contents().take(plan.bytes as int);
    match confirm_identity(target, dst.observed()) {
        Ok(()) => {},
        Err(m) => {
            return (Err(CloneError::TargetIdentityChanged(m.describe())), Ghost(arbitrary()));
        },
    }
    rep.begin(Stage::Writing, None);
    let (out, src) = match copy_stream(&mut dst, src, plan.bytes, cancel, rep) {
        Ok(p) => p,
        Err(e) => {
            return (Err(e), Ghost(arbitrary()));
        },
    };
    let ghost ws = dst.writes().skip(w0.len() as int);
    proof {
        if (HOLDBACK as nat) % (ds as nat) == 0 {
            law_stream_places_the_image(
                ws,
                data,
                ds as nat,
                out,
                Seq::new(out.bytes as nat, |i: int| 0u8),
            );
        }
        assert(out.bytes > 0) by {
            sink::law_front_is_written_last(ws, data, ds as nat, out);
        }
    }
    match sink::zero_tail(&mut dst, out.bytes) {
        Ok(()) => {},
        Err(e) => {
            return (Err(from_sink(e)), Ghost(arbitrary()));
        },
    }
    let ghost all = dst.writes().skip(w0.len() as int);
    proof {
        assert(all =~= ws + tail_writes(dst.view_total(), out.bytes));
    }
    let ghost mut m: Seq<u8> = Seq::empty();
    if cfg.verify {
        // Flush before reading back, for the same reason as when burning.
        match dst.commit() {
            Ok(()) => {},
            Err(e) => {
                return (Err(CloneError::Device(e)), Ghost(arbitrary()));
            },
        }
        rep.begin(Stage::Verifying, None);
        proof {
            m = dst.medium();
        }
        match sink::verify(&mut dst, out.bytes, &out.hash, &out.blocks, cancel, rep) {
            Ok(()) => {},
            Err(e) => {
                return (Err(from_sink(e)), Ghost(arbitrary()));
            },
        }
    }
    rep.begin(Stage::Finishing, None);
    match dst.finish() {
        Ok(()) => {},
        Err(e) => {
            return (Err(CloneError::Device(e)), Ghost(arbitrary()));
        },
    }
    // The source is closed too: an open handle would keep the user from
    // unplugging it.
    match src.finish() {
        Ok(()) => {},
        Err(e) => {
            return (Err(CloneError::Device(e)), Ghost(arbitrary()));
        },
    }
    (Ok(out.bytes), Ghost((ws, out, all, m)))
}

/// Clones `source` onto `target`.
///
/// Nothing touches the target before the source has been opened, confirmed
/// and analysed, and the pair has passed the safety rules; a disk cloned
/// onto itself is refused before either is opened. Every failure after the
/// target was opened comes back as [`CloneError::TargetErased`].
pub fn run<R: RawReader, W: RawWriter, C: Cancel, F: FnMut(ProgressEvent)>(
    cfg: CloneConfig,
    source: &DiskInfo,
    target: &DiskInfo,
    protected: &HashSet<u32>,
    reader: &mut R,
    writer: &mut W,
    cancel: &C,
    emit: F,
) -> (r: Result<CloneSummary, CloneError>)
    ensures
        source.number == target.number ==> r == Err::<CloneSummary, CloneError>(
            CloneError::Rejected(Rejection::SameDisk),
        ),
        r matches Err(CloneError::Rejected(x)) ==> exists|bytes: u64|
            can_clone_spec(*source, *target, protected@, bytes) == Err::<(), Rejection>(x),
        r matches Err(CloneError::TargetErased { cause }) ==> clone_after_open(*cause),
        r matches Err(e) ==> e is TargetErased || e is Layout || e is Rejected
            || e is SourceIdentityChanged || e is Device || e is Canceled,
        r matches Err(CloneError::Layout(e)) ==> exists|c: Seq<u8>, ss: u32|
            sector_ok(ss) && layout_of(c, ss) == Err::<Layout, LayoutError>(e) && (
            old(reader).stand_in() matches Some((d, x)) ==> c == d && ss == x) && old(
            reader,
        ).shows(*source, c, ss),
        old(reader).stand_in() matches Some((d, ss)) ==> (source.number != target.number
            && confirm_identity_spec(*source, *source) is Ok && layout_of(d, ss) is Err ==> r
            == Err::<CloneSummary, CloneError>(CloneError::Layout(layout_of(d, ss)->Err_0))),
        r matches Ok(s) ==> exists|
            c: Seq<u8>,
            ss: u32,
            l: Layout,
            ds: u32,
            cap: u64,
            ws: Seq<WriteOp>,
            out: SinkOutcome,
            all: Seq<WriteOp>,
            m: Seq<u8>,
        |
            #[trigger] cloned_as(c, ss, l, ds, cap, ws, out, all, cfg.verify, m) && (old(reader).stand_in() matches Some(
                (d, x),
            ) ==> c == d && ss == x) && old(reader).shows(*source, c, ss) && can_clone_spec(*source, *target, protected@, l.bytes) is Ok
                && s.partitions == l.partitions && s.bytes_copied == out.bytes,
        r is Ok ==> (exists|o: DiskInfo|
            #[trigger] old(reader).observes(*source, o) && confirm_identity_spec(*source, o) is Ok)
            && (exists|o: DiskInfo|
            #[trigger] old(writer).observes(*target, o) && confirm_identity_spec(*target, o) is Ok),
        r matches Ok(s) ==> s.verified == cfg.verify && s.source_name@ == source.friendly_name@
            && s.target_name@ == target.friendly_name@,
        final(reader).open_calls() <= old(reader).open_calls() + 1,
        final(writer).open_calls() <= old(writer).open_calls() + 1,
        source.number == target.number ==> final(reader).open_calls() == old(reader).open_calls()
            && final(writer).open_calls() == old(writer).open_calls(),
        (final(writer).sessions() > old(writer).sessions()) <==> (r is Ok || r matches Err(
            CloneError::TargetErased { .. },
        )),
        final(writer).open_calls() > old(writer).open_calls() ==> exists|c: Seq<u8>, ss: u32|
            #[trigger] old(reader).shows(*source, c, ss) && sector_ok(ss) && layout_of(c, ss) is Ok
                && can_clone_spec(*source, *target, protected@, layout_of(c, ss)->Ok_0.bytes) is Ok,
        old(reader).stand_in() matches Some((d, ss)) ==> (old(writer).stand_in() matches Some(
            (cap, ds),
        ) ==> (cancel.never_cancels() && clone_fits(*source, *target, protected@, d, ss, cap, ds)
            ==> (r is Ok || (cfg.verify && (r matches Err(CloneError::TargetErased { cause })
            && *cause is VerifyMismatch))))),
{
    let mut rep = ProgressReporter::new(emit);

    // 1. Analyse the source.
    rep.begin(Stage::Analyzing, Some(source.friendly_name.clone()));
    // A disk onto itself: refused before either side is opened.
    if source.number == target.number {
        proof {
            assert(can_clone_spec(*source, *target, protected@, 0) == Err::<(), Rejection>(
                Rejection::SameDisk,
            ));
        }
        return Err(CloneError::Rejected(Rejection::SameDisk));
    }
    let mut src = match reader.open(source) {
        Ok(s) => s,
        Err(e) => {
            return Err(CloneError::Device(e));
        },
    };
    let ghost c = src.contents();
    let ghost seen_source = src.view_observed();
    let ghost ss = src.view_sector();
    match confirm_identity(source, src.observed()) {
        Ok(()) => {},
        Err(m) => {
            return Err(CloneError::SourceIdentityChanged(m.describe()));
        },
    }
    let plan = match read_layout(&mut src) {
        Ok(l) => l,
        Err(e) => {
            proof {
                if e is Layout {
                    assert(layout_of(c, ss) == Err::<Layout, LayoutError>(e->Layout_0));
                }
            }
            return Err(e);
        },
    };

    proof {
        if src.reliable() {
            lemma_layout_whole_sectors(c, ss);
        }
    }

    // 2. Only past this point is the target touched.
    match can_clone(source, target, protected, plan.bytes) {
        Ok(()) => {},
        Err(x) => {
            return Err(CloneError::Rejected(x));
        },
    }
    if cancel.is_canceled() {
        return Err(CloneError::Canceled);
    }

    rep.begin(Stage::Preparing, None);
    let dst = match writer.open(target) {
        Ok(d) => d,
        Err(e) => {
            return Err(CloneError::Device(e));
        },
    };
    let ghost ds = dst.view_sector();
    let ghost cap = dst.view_total();
    let ghost seen_target = dst.view_observed();

    // 3. From here the target cannot be restored.
    let (copied, Ghost(done)) = copy_to_target(&cfg, target, dst, src, &plan, cancel, &mut rep);
    let copied = match copied {
        Ok(n) => n,
        Err(e) => {
            return Err(CloneError::already_erased(e));
        },
    };
    proof {
        assert(cloned_as(c, ss, plan, ds, cap, done.0, done.1, done.2, cfg.verify, done.3));
        assert(old(reader).observes(*source, seen_source));
        assert(old(writer).observes(*target, seen_target));
    }

    rep.finish();
    Ok(
        CloneSummary {
            bytes_copied: copied,
            partitions: plan.partitions,
            verified: cfg.verify,
            source_name: source.friendly_name.clone(),
            target_name: target.friendly_name.clone(),
        },
    )
}

} // verus!

//! The whole job: resolve, download, decompress, prepare, write, (verify),
//! finish.
//!
//! All input and output sits behind traits or injected values, so that the
//! whole flow runs against stand-ins without a real stick.
use crate::checksum::{checksum_for, checksum_spec};
use crate::clock::{instant_now, micros_between};
use crate::device::{sector_ok, ByteSource, DeviceError, RawWriter, WriteOp, WriteSession, MAX_DEVICE_BYTES};
use crate::hash::{same_digest, sha256, sha256_of};
use crate::loader::{
    display_name_spec, is_target_spec, repo_spec, resolve, resolved_from, usable, Loader, Release,
    ResolveError, ResolvedImage,
};
use crate::model::DiskInfo;
use crate::pipeline::{event_is, sat_add, Cancel, ProgressEvent, ProgressReporter, RATE_WINDOW_MICROS};
use crate::progress::{ema, instant_rate, percent_spec};
use crate::progress::Stage;
use crate::safety::{
    can_write, can_write_spec, confirm_identity, confirm_identity_spec, describe_spec, Rejection,
};
use crate::sink::{self, digests, reads_back, some_stream, streamed, tail_writes, SinkError, SinkOutcome};
use crate::text::{dec, push_char, push_dec, push_str};
use std::collections::HashSet;
use std::time::Instant;
use vstd::prelude::*;

verus! {

/// Why the job failed.
#[derive(Debug)]
pub enum RunError {
    /// The release could not be resolved.
    Resolve(String),
    /// The download failed.
    Download(String),
    /// Decompressing failed.
    Extract(String),
    /// A safety rule refused the target.
    Rejected(Rejection),
    /// The check right before writing found a different device; says what
    /// diverged.
    IdentityChanged(String),
    Device(DeviceError),
    /// The read-back differs; `at` is where the first differing block starts.
    VerifyMismatch { at: u64 },
    /// Failed after the target was already erased.
    ///
    /// Opening the target removes its mount points and deletes its partition
    /// table, so every failure after that, a cancel included, leaves a stick
    /// whose contents are gone. The cause stays inside.
    TargetErased { cause: Box<RunError> },
    /// The user canceled.
    Canceled,
}

impl RunError {
    /// Marks a failure as one after the target was erased.
    pub fn already_erased(cause: RunError) -> (r: RunError)
        ensures
            r == (RunError::TargetErased { cause: Box::new(cause) }),
    {
        RunError::TargetErased { cause: Box::new(cause) }
    }
}

/// What happened when the decompressed image held no byte: an empty
/// download, or an empty entry in the archive.
fn empty_image_message() -> (r: String)
    ensures
        r@ == "압축을 푼 이미지가 비어 있습니다 (0 바이트)"@,
{
    "압축을 푼 이미지가 비어 있습니다 (0 바이트)".to_owned()
}

/// The job's error for a failure of the sink.
pub fn from_sink(e: SinkError) -> (r: RunError)
    ensures
        match e {
            SinkError::Source(s) => r == RunError::Extract(s),
            SinkError::EmptySource => r matches RunError::Extract(m) && m@
                == "압축을 푼 이미지가 비어 있습니다 (0 바이트)"@,
            SinkError::Device(d) => r == RunError::Device(d),
            SinkError::TooSmall { need, have } => r == RunError::Rejected(
                Rejection::TooSmall { need, have },
            ),
            SinkError::VerifyMismatch { at } => r == (RunError::VerifyMismatch { at }),
            SinkError::Canceled => r == RunError::Canceled,
        },
{
    match e {
        SinkError::Source(s) => RunError::Extract(s),
        SinkError::EmptySource => RunError::Extract(empty_image_message()),
        SinkError::Device(d) => RunError::Device(d),
        SinkError::TooSmall { need, have } => RunError::Rejected(Rejection::TooSmall { need, have }),
        SinkError::VerifyMismatch { at } => RunError::VerifyMismatch { at },
        SinkError::Canceled => RunError::Canceled,
    }
}

/// Told of a download's progress, and asked whether to stop.
pub trait DownloadWatch {
    /// Bytes received so far, and the total when known.
    fn progress(&mut self, done: u64, total: Option<u64>);

    /// Whether the download must stop now.
    fn should_stop(&self) -> bool;
}

/// Network and decompression, injected.
///
/// Tests put fixed answers and memory buffers behind it.
pub trait Io {
    /// The decompressed image stream.
    type Stream: ByteSource;

    /// Whether `releases` is a list the service may give for `url`; by
    /// default any.
    closed spec fn lists(&self, url: Seq<char>, releases: Seq<Release>) -> bool {
        true
    }

    /// For a stand-in with a fixed answer: the release list it always gives.
    /// A service on the network gives `None`, as by default.
    closed spec fn fixed_releases(&self) -> Option<Seq<Release>> {
        None
    }

    /// Whether `body` is a download the service may give for `url`; by
    /// default any.
    closed spec fn serves(&self, url: Seq<char>, body: Seq<u8>) -> bool {
        true
    }

    /// Whether the streams it opens describe the bytes they hand out; by
    /// default not.
    closed spec fn faithful_streams(&self) -> bool {
        false
    }

    /// Whether `image` is what the download `data`, named `name`, unpacks to;
    /// by default any.
    closed spec fn unpacks(&self, data: Seq<u8>, name: Seq<char>, image: Seq<u8>) -> bool {
        true
    }

    /// Fetches the release list.
    fn fetch_releases(&self, url: &str) -> (r: Result<Vec<Release>, String>)
        ensures
            r matches Ok(v) ==> self.lists(url@, v@),
            self.fixed_releases() matches Some(rs) ==> (r matches Ok(v) && v@ == rs),
    ;

    /// Downloads the image, telling `watch` the progress. When `watch` says
    /// to stop, the download stops at once: without that a cancel would only
    /// be seen after a 1.3 GB download finished.
    /// For a stand-in with a fixed answer: the body it always gives. A
    /// service on the network gives `None`, as by default.
    closed spec fn fixed_download(&self) -> Option<Seq<u8>> {
        None
    }

    fn download<D: DownloadWatch>(&self, url: &str, watch: &mut D) -> (r: Result<Vec<u8>, String>)
        ensures
            r matches Ok(v) ==> self.serves(url@, v@),
            self.fixed_download() matches Some(b) ==> (r matches Ok(v) && v@ == b),
    ;

    /// Opens the decompressed stream (gz, or the image entry of a zip), with
    /// its decompressed size when known: without it the progress bar stays
    /// without a number for minutes.
    fn open_decompressed(&self, data: Vec<u8>, name: &str) -> (r: Result<
        (Self::Stream, Option<u64>),
        String,
    >)
        ensures
            r matches Ok((s, _)) ==> s.inv(),
            r matches Ok((s, _)) ==> (self.faithful_streams() ==> s.faithful() && s.produced().len()
                == 0 && self.unpacks(data@, name@, s.origin())),
    ;

    /// Whether `text` is a file the service may give for `url`; by default
    /// any.
    closed spec fn texts(&self, url: Seq<char>, text: Seq<char>) -> bool {
        true
    }

    /// For a stand-in with a fixed answer: the text it always gives. A
    /// service on the network gives `None`, as by default.
    closed spec fn fixed_text(&self) -> Option<Seq<char>> {
        None
    }

    /// Fetches a small text file (the checksum file).
    fn fetch_text(&self, url: &str) -> (r: Result<String, String>)
        ensures
            r matches Ok(t) ==> self.texts(url@, t@),
            self.fixed_text() matches Some(t) ==> (r matches Ok(x) && x@ == t),
    ;
}

/// What was done, for the completion screen.
#[derive(Debug, Clone)]
pub struct RunSummary {
    pub loader: String,
    pub tag: String,
    pub asset_name: String,
    pub bytes_written: u64,
    pub verified: bool,
}

/// What the job is asked to do.
pub struct RunConfig {
    pub loader: Loader,
    pub verify: bool,
}

/// The digit of a nibble in lower-case hexadecimal.
pub open spec fn hex_digit(d: u8) -> char {
    if d < 10 {
        (('0' as u32) + d) as char
    } else {
        (('a' as u32) + d - 10) as char
    }
}

/// Bytes as lower-case hexadecimal, two digits each.
pub open spec fn hex_text(b: Seq<u8>) -> Seq<char>
    decreases b.len(),
{
    if b.len() == 0 {
        Seq::empty()
    } else {
        hex_text(b.drop_last()) + seq![hex_digit(b.last() / 16), hex_digit(b.last() % 16)]
    }
}

fn hex_digit_exec(d: u8) -> (r: char)
    requires
        d < 16,
    ensures
        r == hex_digit(d),
{
    if d < 10 {
        ((48u8 + d) as char)
    } else {
        ((87u8 + d) as char)
    }
}

/// 32 bytes as hexadecimal, to show two digests side by side.
pub fn hex32(b: &[u8; 32]) -> (r: String)
    ensures
        r@ == hex_text(b@),
{
    let mut s = String::new();
    let mut i: usize = 0;
    proof {
        assert(b@.take(0) =~= Seq::<u8>::empty());
    }
    while i < 32
        invariant
            i <= 32,
            b@.len() == 32,
            s@ == hex_text(b@.take(i as int)),
        decreases 32 - i,
    {
        let x = b[i];
        push_char(&mut s, hex_digit_exec(x / 16));
        push_char(&mut s, hex_digit_exec(x % 16));
        proof {
            assert(b@.take((i + 1) as int).drop_last() =~= b@.take(i as int));
            assert(s@ =~= hex_text(b@.take((i + 1) as int)));
        }
        i += 1;
    }
    proof {
        assert(b@.take(32) =~= b@);
    }
    s
}

/// The text of a resolution failure, as the error's debug form shows it.
pub open spec fn resolve_error_text(e: ResolveError) -> Seq<char> {
    match e {
        ResolveError::NoUsableAsset { searched } => "NoUsableAsset { searched: "@ + dec(
            searched as nat,
        ) + " }"@,
        ResolveError::NoReleases => "NoReleases"@,
    }
}

fn resolve_error_message(e: &ResolveError) -> (r: String)
    ensures
        r@ == resolve_error_text(*e),
{
    let mut s = String::new();
    match e {
        ResolveError::NoUsableAsset { searched } => {
            push_str(&mut s, "NoUsableAsset { searched: ");
            push_dec(&mut s, *searched as u64);
            push_str(&mut s, " }");
        },
        ResolveError::NoReleases => push_str(&mut s, "NoReleases"),
    }
    proof {
        assert(s@ =~= resolve_error_text(*e));
    }
    s
}

/// The message for a download whose size differs from the published one.
pub open spec fn size_mismatch_text(got: nat, want: nat) -> Seq<char> {
    "내려받은 크기가 다릅니다: "@ + dec(got) + " 바이트를 받았는데 "@ + dec(want)
        + " 바이트여야 합니다. 네트워크 중간 장비가 응답을 건드렸을 수 있습니다. 다시 시도해 주세요."@
}

/// Checks the download against the size the release published, before the
/// target is opened.
///
/// A middlebox that mishandles ranges can send the whole file in answer to a
/// resumed request, and the body comes out too long. Decompression catches
/// it in the end, but only after the target's partition table is gone.
/// Size 0 means the release gave none, and nothing is compared.
pub fn check_size(declared: u64, got: usize) -> (r: Result<(), RunError>)
    ensures
        r is Ok <==> (declared == 0 || got == declared),
        r matches Err(e) ==> e matches RunError::Download(m) && m@ == size_mismatch_text(
            got as nat,
            declared as nat,
        ),
{
    if declared > 0 && got as u64 != declared {
        let mut m = String::new();
        push_str(&mut m, "내려받은 크기가 다릅니다: ");
        push_dec(&mut m, got as u64);
        push_str(&mut m, " 바이트를 받았는데 ");
        push_dec(&mut m, declared);
        push_str(
            &mut m,
            " 바이트여야 합니다. 네트워크 중간 장비가 응답을 건드렸을 수 있습니다. 다시 시도해 주세요.",
        );
        proof {
            assert(m@ =~= size_mismatch_text(got as nat, declared as nat));
        }
        return Err(RunError::Download(m));
    }
    Ok(())
}

/// The message for a download whose digest differs from the published one.
pub open spec fn digest_mismatch_text(got: Seq<u8>, want: Seq<u8>) -> Seq<char> {
    "내려받은 파일이 발행자가 올린 체크섬과 다릅니다.\n                         받은 값: "@
        + hex_text(got) + "\n기대한 값: "@ + hex_text(want)
        + "\n네트워크 중간 장비가 응답을 건드렸을 수 있습니다. 다시 시도해 주세요."@
}

/// Checks the download against the digest the publisher listed, before the
/// target is opened.
///
/// `body` is the checksum file, when it could be fetched. Only a digest that
/// is found and differs stops the job: a missing or unreadable checksum file
/// does not (m-shell publishes none).
pub fn check_published_digest(compressed: &[u8], asset_name: &str, body: Option<&str>) -> (r:
    Result<(), RunError>)
    ensures
        r is Err <==> (body matches Some(b) && checksum_spec(b@, asset_name@) matches Some(want)
            && sha256_of(compressed@) != want),
        r matches Err(e) ==> e matches RunError::Download(m) && body matches Some(b)
            && checksum_spec(b@, asset_name@) matches Some(want) && m@ == digest_mismatch_text(
            sha256_of(compressed@),
            want,
        ),
{
    match body {
        Some(text) => {
            match checksum_for(text, asset_name) {
                Some(want) => {
                    let got = sha256(compressed, 0, compressed.len());
                    proof {
                        assert(compressed@.subrange(0, compressed@.len() as int) =~= compressed@);
                    }
                    if !same_digest(&got, &want) {
                        let mut m = String::new();
                        push_str(&mut m, "내려받은 파일이 발행자가 올린 체크섬과 다릅니다.\n                         받은 값: ");
                        let g = hex32(&got);
                        push_str(&mut m, g.as_str());
                        push_str(&mut m, "\n기대한 값: ");
                        let w = hex32(&want);
                        push_str(&mut m, w.as_str());
                        push_str(&mut m, "\n네트워크 중간 장비가 응답을 건드렸을 수 있습니다. 다시 시도해 주세요.");
                        proof {
                            assert(m@ =~= digest_mismatch_text(got@, want@));
                        }
                        return Err(RunError::Download(m));
                    }
                    Ok(())
                },
                None => Ok(()),
            }
        },
        None => Ok(()),
    }
}

/// Watches a download: forwards its progress and polls the cancel flag.
struct Watch<'a, C: Cancel, F: FnMut(ProgressEvent)> {
    rep: ProgressReporter<F>,
    cancel: &'a C,
    last: Instant,
    prev_done: u64,
}

/// New bytes between two counts; none where the count went back.
pub open spec fn bytes_since(done: u64, prev: u64) -> u64 {
    if done >= prev {
        (done - prev) as u64
    } else {
        0
    }
}

/// What one progress report does to the rate estimate and its window, for
/// `chunk` new bytes that arrived over `micros` microseconds.
pub open spec fn window_step(
    rate_before: Option<u64>,
    before: (u64, u64),
    rate_after: Option<u64>,
    after: (u64, u64),
    chunk: u64,
    micros: u64,
) -> bool {
    let wb = sat_add(before.0, chunk);
    let wm = sat_add(before.1, micros);
    if wm >= RATE_WINDOW_MICROS {
        rate_after == Some(ema(rate_before, instant_rate(wb, wm))) && after == (0u64, 0u64)
    } else {
        rate_after == rate_before && after == (wb, wm)
    }
}

impl<'a, C: Cancel, F: FnMut(ProgressEvent)> Watch<'a, C, F> {
    pub closed spec fn reporter(&self) -> ProgressReporter<F> {
        self.rep
    }

    /// The byte count of the previous report.
    pub closed spec fn prev_done_spec(&self) -> u64 {
        self.prev_done
    }

    pub closed spec fn cancel_spec(&self) -> &'a C {
        self.cancel
    }
}

impl<'a, C: Cancel, F: FnMut(ProgressEvent)> DownloadWatch for Watch<'a, C, F> {
    /// Forwards the new count; the bytes since the previous report, over the
    /// time the clock measured since then, feed the rate.
    fn progress(&mut self, done: u64, total: Option<u64>)
        ensures
            final(self).prev_done_spec() == done,
            final(self).cancel_spec() == old(self).cancel_spec(),
            final(self).reporter().completed_spec() == old(self).reporter().completed_spec(),
            final(self).reporter().current_spec() == old(self).reporter().current_spec(),
            final(self).reporter().detail_spec() == old(self).reporter().detail_spec(),
            final(self).reporter().last_percent_spec() == percent_spec(done, total),
            exists|us: u64|
                #[trigger] window_step(
                    old(self).reporter().rate_spec(),
                    old(self).reporter().window_spec(),
                    final(self).reporter().rate_spec(),
                    final(self).reporter().window_spec(),
                    bytes_since(done, old(self).prev_done_spec()),
                    us,
                ),
            percent_spec(done, total) == old(self).reporter().last_percent_spec()
                ==> final(self).reporter().sent() == old(self).reporter().sent(),
            percent_spec(done, total) != old(self).reporter().last_percent_spec() ==> {
                &&& final(self).reporter().sent().drop_last() == old(self).reporter().sent()
                &&& final(self).reporter().sent().len() == old(self).reporter().sent().len() + 1
                &&& event_is(
                    final(self).reporter().sent().last(),
                    old(self).reporter().current_spec(),
                    done,
                    total,
                    final(self).reporter().rate_spec(),
                    old(self).reporter().completed_spec(),
                    old(self).reporter().detail_spec(),
                )
            },
    {
        let now = instant_now();
        let us = micros_between(&self.last, &now);
        let chunk = done.saturating_sub(self.prev_done);
        self.rep.update(done, total, us, chunk);
        proof {
            assert(chunk == bytes_since(done, old(self).prev_done));
        }
        self.last = now;
        self.prev_done = done;
        proof {
            assert(window_step(
                old(self).reporter().rate_spec(),
                old(self).reporter().window_spec(),
                self.reporter().rate_spec(),
                self.reporter().window_spec(),
                bytes_since(done, old(self).prev_done_spec()),
                us,
            ));
        }
    }

    fn should_stop(&self) -> bool {
        self.cancel.is_canceled()
    }
}

/// The address of the release list of `l`.
pub open spec fn releases_url_spec(l: Loader) -> Seq<char> {
    "https://api.github.com/repos/"@ + repo_spec(l) + "/releases?per_page=10"@
}

/// Whether some release of `rs` has an image for `l`.
pub open spec fn resolvable(l: Loader, rs: Seq<Release>) -> bool {
    exists|i: int| 0 <= i < rs.len() && #[trigger] usable(l, rs[i])
}

/// Whether `img` is the image the list `rs` resolves to for `l`: from the
/// newest release that has one.
pub open spec fn resolved_in(l: Loader, rs: Seq<Release>, img: ResolvedImage) -> bool {
    exists|i: int, k: int|
        0 <= i < rs.len() && usable(l, rs[i]) && (forall|j: int|
            0 <= j < i ==> !usable(l, #[trigger] rs[j])) && #[trigger] resolved_from(l, rs[i], k, img)
}

/// Whether the service listed `rs` for the loader, which resolves to `img`,
/// and gave `body` for the image's address with the size the release
/// published: what must hold before the target is opened.
pub open spec fn fetched<I: Io>(io: &I, l: Loader, rs: Seq<Release>, img: ResolvedImage, body: Seq<
    u8,
>) -> bool {
    &&& io.lists(releases_url_spec(l), rs)
    &&& resolved_in(l, rs, img)
    &&& io.serves(img.download_url@, body)
    &&& (img.compressed_size == 0 || body.len() == img.compressed_size)
    &&& published_ok(io, img, body)
}

/// Whether `t` is what fetching the text at `url` may have given: a text the
/// service may give, or no text when the fetch failed. A stand-in with a
/// fixed text always gives it.
pub open spec fn text_answer<I: Io>(io: &I, url: Seq<char>, t: Option<Seq<char>>) -> bool {
    match t {
        Some(x) => io.texts(url, x) && (io.fixed_text() matches Some(f) ==> x == f),
        None => io.fixed_text() is None,
    }
}

/// Whether the checksum file `t`, when there is one, lets the download `body`
/// of `asset` through: no digest for the asset in it, or the same digest.
pub open spec fn digest_agrees(t: Option<Seq<char>>, asset: Seq<char>, body: Seq<u8>) -> bool {
    !(t matches Some(x) && checksum_spec(x, asset) matches Some(want) && sha256_of(body) != want)
}

/// Whether the digest the release publishes, when it publishes one, was
/// fetched and lets the download through.
pub open spec fn published_ok<I: Io>(io: &I, img: ResolvedImage, body: Seq<u8>) -> bool {
    match img.checksum_url {
        None => true,
        Some(u) => exists|t: Option<Seq<char>>|
            #[trigger] text_answer(io, u@, t) && digest_agrees(t, img.asset_name@, body),
    }
}

/// What a burn that went through did: the service listed `rs` for the
/// loader, which resolves to `img`; `body` came from the image's address with
/// the size and the digest the release published; the target, of `cap` bytes
/// with sectors of `sec` bytes, received the writes `ws` of a stream, and
/// where the service's streams are described, of streaming exactly the image
/// `body` unpacks to; `all` is those writes followed by the zeroing of the
/// device's end. When `verified`, the device read back as `m` matched what
/// the stream reported.
pub open spec fn burned_as<I: Io>(
    io: &I,
    l: Loader,
    rs: Seq<Release>,
    img: ResolvedImage,
    body: Seq<u8>,
    image: Seq<u8>,
    sec: u32,
    cap: u64,
    ws: Seq<WriteOp>,
    out: SinkOutcome,
    all: Seq<WriteOp>,
    verified: bool,
    m: Seq<u8>,
) -> bool {
    &&& fetched(io, l, rs, img, body)
    &&& sector_ok(sec)
    &&& some_stream(ws, sec as nat, out)
    &&& io.faithful_streams() ==> io.unpacks(body, img.asset_name@, image) && streamed(
        ws,
        image,
        sec as nat,
        out,
    )
    &&& all == ws + tail_writes(cap, out.bytes)
    &&& verified ==> reads_back(m, out.bytes as nat, sec as nat, out.hash@, digests(out.blocks@))
}

/// The kinds of failure that happen only once the target is open.
pub open spec fn after_open(e: RunError) -> bool {
    ||| e is IdentityChanged
    ||| e is Device
    ||| e is Extract
    ||| e is VerifyMismatch
    ||| e is Canceled
    ||| e matches RunError::Rejected(Rejection::TooSmall { .. })
}

/// Everything after the target was opened; gives the bytes written, and
/// the writes the image made with what the sink reported of them.
///
/// Kept apart from [`run`] for one reason: so that every failure past the
/// point of no return is wrapped in a single place.
fn write_to_target<W: WriteSession, S: ByteSource, C: Cancel, F: FnMut(ProgressEvent)>(
    cfg: &RunConfig,
    disk: &DiskInfo,
    session: W,
    stream: &mut S,
    expanded_size: Option<u64>,
    cancel: &C,
    rep: &mut ProgressReporter<F>,
) -> (r: (Result<u64, RunError>, Ghost<(Seq<WriteOp>, SinkOutcome, Seq<WriteOp>, Seq<u8>)>))
    requires
        sector_ok(session.view_sector()),
        session.view_total() <= MAX_DEVICE_BYTES,
        old(stream).inv(),
    ensures
        r.0 matches Err(e) ==> after_open(e),
        (r.0 matches Err(RunError::IdentityChanged(m))) <==> confirm_identity_spec(
            *disk,
            session.view_observed(),
        ) is Err,
        r.0 matches Err(RunError::IdentityChanged(m)) ==> confirm_identity_spec(
            *disk,
            session.view_observed(),
        ) matches Err(x) && m@ == describe_spec(x),
        r.0 matches Ok(n) ==> n > 0 && n == r.1@.1.bytes && some_stream(
            r.1@.0,
            session.view_sector() as nat,
            r.1@.1,
        ),
        r.0 is Ok && old(stream).faithful() ==> final(stream).faithful() && final(stream).inv()
            && final(stream).origin() == old(stream).origin() && final(stream).ended() && streamed(
            r.1@.0,
            final(stream).produced().skip(old(stream).produced().len() as int),
            session.view_sector() as nat,
            r.1@.1,
        ),
        r.0 is Ok ==> r.1@.2 == r.1@.0 + tail_writes(session.view_total(), r.1@.1.bytes),
        r.0 is Ok && cfg.verify ==> reads_back(
            r.1@.3,
            r.1@.1.bytes as nat,
            session.view_sector() as nat,
            r.1@.1.hash@,
            digests(r.1@.1.blocks@),
        ),
{
    let mut session = session;
    let ghost w0 = session.writes();
    // The device may have changed since the list was made.
    match confirm_identity(disk, session.observed()) {
        Ok(()) => {},
        Err(m) => {
            return (Err(RunError::IdentityChanged(m.describe())), Ghost(arbitrary()));
        },
    }
    rep.begin(Stage::Writing, None);
    let out = match sink::stream(stream, &mut session, expanded_size, cancel, rep) {
        Ok(o) => o,
        Err(e) => {
            return (Err(from_sink(e)), Ghost(arbitrary()));
        },
    };
    let ghost ws = session.writes().skip(w0.len() as int);
    proof {
        let d = choose|d: Seq<u8>| #[trigger] streamed(ws, d, session.view_sector() as nat, out);
        sink::law_front_is_written_last(ws, d, session.view_sector() as nat, out);
    }
    match sink::zero_tail(&mut session, out.bytes) {
        Ok(()) => {},
        Err(e) => {
            return (Err(from_sink(e)), Ghost(arbitrary()));
        },
    }
    let ghost all = session.writes().skip(w0.len() as int);
    proof {
        assert(all =~= ws + tail_writes(session.view_total(), out.bytes));
    }
    let ghost mut m: Seq<u8> = Seq::empty();
    if cfg.verify {
        // Flush the cache onto the medium before reading back: otherwise the
        // check reads the cache it just wrote, or, when the volume just
        // appearing drops the cache, the contents from before the write.
        match session.commit() {
            Ok(()) => {},
            Err(e) => {
                return (Err(RunError::Device(e)), Ghost(arbitrary()));
            },
        }
        rep.begin(Stage::Verifying, None);
        proof {
            m = session.medium();
        }
        match sink::verify(&mut session, out.bytes, &out.hash, &out.blocks, cancel, rep) {
            Ok(()) => {},
            Err(e) => {
                return (Err(from_sink(e)), Ghost(arbitrary()));
            },
        }
    }
    rep.begin(Stage::Finishing, None);
    match session.finish() {
        Ok(()) => {},
        Err(e) => {
            return (Err(RunError::Device(e)), Ghost(arbitrary()));
        },
    }
    (Ok(out.bytes), Ghost((ws, out, all, m)))
}

/// Runs the whole job.
///
/// The target is checked against the safety rules before anything is
/// downloaded, and the download against its published size and digest
/// before the target is opened. Opening the target erases it; every failure
/// from there on comes back as [`RunError::TargetErased`].
pub fn run<I: Io, W: RawWriter, C: Cancel, F: FnMut(ProgressEvent)>(
    cfg: RunConfig,
    disk: &DiskInfo,
    protected: &HashSet<u32>,
    io: &I,
    writer: &mut W,
    cancel: &C,
    emit: F,
) -> (r: Result<RunSummary, RunError>)
    ensures
        r matches Err(RunError::Rejected(x)) ==> can_write_spec(*disk, protected@, 0, None) == Err::<
            (),
            Rejection,
        >(x),
        can_write_spec(*disk, protected@, 0, None) is Err ==> (r matches Err(e) && (e is Resolve
            || e is Rejected)),
        r matches Err(RunError::TargetErased { cause }) ==> can_write_spec(
            *disk,
            protected@,
            0,
            None,
        ) is Ok && after_open(*cause),
        r matches Ok(s) ==> can_write_spec(*disk, protected@, 0, None) is Ok && s.verified
            == cfg.verify && s.loader@ == display_name_spec(cfg.loader) && s.bytes_written > 0,
        r matches Ok(s) ==> is_target_spec(cfg.loader, s.asset_name@),
        r is Ok ==> exists|o: DiskInfo|
            #[trigger] old(writer).observes(*disk, o) && confirm_identity_spec(*disk, o) is Ok,
        r matches Err(e) ==> e is TargetErased || e is Resolve || e is Rejected || e is Canceled
            || e is Download || e is Extract || e is Device,
        io.fixed_releases() matches Some(rs) ==> ((r matches Err(RunError::Resolve(_)))
            <==> !resolvable(cfg.loader, rs)),
        final(writer).open_calls() <= old(writer).open_calls() + 1,
        (final(writer).sessions() > old(writer).sessions()) <==> (r is Ok || r matches Err(
            RunError::TargetErased { .. },
        )),
        final(writer).open_calls() > old(writer).open_calls() ==> can_write_spec(
            *disk,
            protected@,
            0,
            None,
        ) is Ok && exists|rs: Seq<Release>, img: ResolvedImage, body: Seq<u8>|
            #[trigger] fetched(io, cfg.loader, rs, img, body),
        io.fixed_releases() matches Some(rs) ==> (io.fixed_download() matches Some(b) ==> (
        resolvable(cfg.loader, rs) && (forall|img: ResolvedImage|
            #[trigger] resolved_in(cfg.loader, rs, img) ==> img.compressed_size != 0 && b.len()
                != img.compressed_size) && cancel.never_cancels() && can_write_spec(
            *disk,
            protected@,
            0,
            None,
        ) is Ok ==> (r matches Err(RunError::Download(_))) && final(writer).open_calls() == old(
            writer,
        ).open_calls())),
        r matches Ok(s) ==> exists|
            rs: Seq<Release>,
            img: ResolvedImage,
            body: Seq<u8>,
            image: Seq<u8>,
            sec: u32,
            ws: Seq<WriteOp>,
            out: SinkOutcome,
            cap: u64,
            all: Seq<WriteOp>,
            m: Seq<u8>,
        |
            #[trigger] burned_as(io, cfg.loader, rs, img, body, image, sec, cap, ws, out, all, cfg.verify, m) && (
            io.fixed_releases() matches Some(x) ==> rs == x) && s.tag@ == img.tag@
                && s.asset_name@ == img.asset_name@ && s.bytes_written == out.bytes,
{
    let mut rep = ProgressReporter::new(emit);

    // 1. Which image.
    rep.begin(Stage::Resolving, None);
    let url = cfg.loader.releases_api_url();
    let releases = match io.fetch_releases(url.as_str()) {
        Ok(v) => v,
        Err(e) => {
            return Err(RunError::Resolve(e));
        },
    };
    let ghost rs = releases@;
    let image = match resolve(cfg.loader, releases.as_slice()) {
        Ok(i) => i,
        Err(e) => {
            proof {
                if resolvable(cfg.loader, rs) {
                    let i = choose|i: int| 0 <= i < rs.len() && #[trigger] usable(cfg.loader, rs[i]);
                    assert(usable(cfg.loader, releases@[i]));
                }
            }
            return Err(RunError::Resolve(resolve_error_message(&e)));
        },
    };
    proof {
        let (i, k) = choose|i: int, k: int|
            0 <= i < releases@.len() && usable(cfg.loader, releases@[i]) && (forall|j: int|
                0 <= j < i ==> !usable(cfg.loader, #[trigger] releases@[j])) && resolved_from(
                cfg.loader,
                releases@[i],
                k,
                image,
            );
        assert(is_target_spec(cfg.loader, image.asset_name@));
        assert(resolved_in(cfg.loader, rs, image));
    }

    // The decompressed size is not known yet: only the minimum-capacity rule
    // applies here; the real size is checked while writing.
    match can_write(disk, protected, 0, None) {
        Ok(()) => {},
        Err(x) => {
            return Err(RunError::Rejected(x));
        },
    }
    if cancel.is_canceled() {
        return Err(RunError::Canceled);
    }

    // 2. Download.
    let mut detail = String::new();
    push_str(&mut detail, cfg.loader.display_name());
    push_str(&mut detail, " ");
    push_str(&mut detail, image.tag.as_str());
    rep.begin(Stage::Downloading, Some(detail));
    let mut watch = Watch { rep, cancel, last: instant_now(), prev_done: 0 };
    let answer = io.download(image.download_url.as_str(), &mut watch);
    let mut rep = watch.rep;
    let compressed = match answer {
        Ok(v) => v,
        Err(e) => {
            if cancel.is_canceled() {
                return Err(RunError::Canceled);
            }
            return Err(RunError::Download(e));
        },
    };
    if cancel.is_canceled() {
        return Err(RunError::Canceled);
    }

    // Before the target is opened: the size the release published...
    match check_size(image.compressed_size, compressed.len()) {
        Ok(()) => {},
        Err(e) => {
            return Err(e);
        },
    }
    // ... and the digest the publisher listed.
    let ghost mut answer: Option<Seq<char>> = None;
    match &image.checksum_url {
        Some(u) => {
            match io.fetch_text(u.as_str()) {
                Ok(body) => {
                    proof {
                        answer = Some(body@);
                    }
                    match check_published_digest(
                        compressed.as_slice(),
                        image.asset_name.as_str(),
                        Some(body.as_str()),
                    ) {
                        Ok(()) => {},
                        Err(e) => {
                            return Err(e);
                        },
                    }
                },
                Err(_) => {},
            }
        },
        None => {},
    }
    proof {
        if let Some(u) = image.checksum_url {
            assert(text_answer(io, u@, answer) && digest_agrees(
                answer,
                image.asset_name@,
                compressed@,
            ));
        }
    }

    let ghost body = compressed@;
    // 3. Decompress straight onto the device: no temporary file of gigabytes.
    rep.begin(Stage::Extracting, None);
    let (mut stream, expanded_size) = match io.open_decompressed(
        compressed,
        image.asset_name.as_str(),
    ) {
        Ok(p) => p,
        Err(e) => {
            return Err(RunError::Extract(e));
        },
    };

    rep.begin(Stage::Preparing, None);
    proof {
        assert(fetched(io, cfg.loader, rs, image, body));
    }
    let session = match writer.open(disk) {
        Ok(s) => s,
        Err(e) => {
            return Err(RunError::Device(e));
        },
    };

    // 4. From here the target cannot be restored: opening it removed the
    // mount points, deleted the partition table and zeroed the first MiB.
    let ghost sec = session.view_sector();
    let ghost seen = session.view_observed();
    let ghost cap = session.view_total();
    let ghost st0 = stream;
    let (written, Ghost(done)) = write_to_target(
        &cfg,
        disk,
        session,
        &mut stream,
        expanded_size,
        cancel,
        &mut rep,
    );
    let bytes_written = match written {
        Ok(n) => n,
        Err(e) => {
            return Err(RunError::already_erased(e));
        },
    };
    proof {
        if io.faithful_streams() {
            stream.lemma_ended_gives_origin();
            assert(stream.produced().skip(st0.produced().len() as int) =~= stream.produced());
        }
        assert(old(writer).observes(*disk, seen));
        assert(burned_as(
            io,
            cfg.loader,
            rs,
            image,
            body,
            st0.origin(),
            sec,
            cap,
            done.0,
            done.1,
            done.2,
            cfg.verify,
            done.3,
        ));
    }

    rep.finish();
    Ok(
        RunSummary {
            loader: cfg.loader.display_name().to_owned(),
            tag: image.tag.clone(),
            asset_name: image.asset_name.clone(),
            bytes_written,
            verified: cfg.verify,
        },
    )
}

} // verus!

//! Writes a byte stream onto a device.
//!
//! Burning a loader and cloning a stick share this code: the first hands it a
//! decompressed download, the second a stream read off the source stick. From
//! the device's side the two are indistinguishable.
use crate::clock::{instant_now, micros_between};
use crate::device::{ByteSource, DeviceError, WriteOp, WriteSession};
use crate::hash::{
    hasher_finish, hasher_input, hasher_new, hasher_update, same_digest, sha256, sha256_of, Hasher,
};
use crate::pipeline::{Cancel, ProgressEvent, ProgressReporter};
use vstd::prelude::*;

verus! {

/// Size sent to the device at once; a multiple of every sector size used.
pub const CHUNK: usize = 8 * 1024 * 1024;

/// Size held back from the front and written last.
///
/// The front of an image holds that image's own partition table. Writing it
/// at offset 0 first gives the device a valid table while the rest is still
/// being written, and Windows mounts the new volume mid-write; the volume is
/// not locked, so the next write into it is refused. 1 MiB covers the MBR,
/// the GPT header and the GPT entries.
pub const HOLDBACK: u64 = 1024 * 1024;

/// Size zeroed at the end of the device, where an old GPT backup header sits.
pub const TAIL_ZERO: u64 = 1024 * 1024;

/// Unit of the read-back comparison. Equal to [`HOLDBACK`], so that block 0
/// is exactly the partition-table region written last.
pub const BLOCK: u64 = HOLDBACK;

/// `k` zero bytes.
pub open spec fn zeros(k: nat) -> Seq<u8> {
    Seq::new(k, |i: int| 0u8)
}

/// `n` rounded up to a multiple of the sector size `s`.
pub open spec fn padlen(n: nat, s: nat) -> nat {
    if s == 0 {
        n
    } else {
        (((n + s - 1) as nat) / s) * s
    }
}

/// `data` followed by zeros up to a multiple of the sector size.
pub open spec fn pad(data: Seq<u8>, s: nat) -> Seq<u8> {
    data + zeros((padlen(data.len(), s) - data.len()) as nat)
}

/// Where the last of `ws` ends; `start` when there is none.
pub open spec fn end_of(ws: Seq<WriteOp>, start: int) -> int {
    if ws.len() == 0 {
        start
    } else {
        match ws.last() {
            WriteOp::Data { offset, bytes } => offset + bytes.len(),
            WriteOp::ZeroTail { .. } => start,
        }
    }
}

/// The bytes of the data writes of `ws`, one after another.
pub open spec fn flatten(ws: Seq<WriteOp>) -> Seq<u8>
    decreases ws.len(),
{
    if ws.len() == 0 {
        Seq::empty()
    } else {
        flatten(ws.drop_last()) + match ws.last() {
            WriteOp::Data { bytes, .. } => bytes,
            WriteOp::ZeroTail { .. } => Seq::empty(),
        }
    }
}

/// `ws` lays `data` out from `start` onward: each write carries the next
/// `parts[i]` bytes of `data`, padded with zeros to whole sectors, at the
/// offset where the previous write ended.
pub open spec fn lays(ws: Seq<WriteOp>, data: Seq<u8>, start: int, s: nat, parts: Seq<nat>) -> bool
    decreases ws.len(),
{
    if ws.len() == 0 {
        parts.len() == 0 && data.len() == 0
    } else {
        let k = parts.last();
        let cut = data.len() - k;
        &&& parts.len() == ws.len()
        &&& 0 < k <= data.len()
        &&& lays(ws.drop_last(), data.take(cut), start, s, parts.drop_last())
        &&& ws.last() matches WriteOp::Data { offset, bytes }
        &&& offset == end_of(ws.drop_last(), start)
        &&& bytes == pad(data.skip(cut), s)
    }
}

/// Number of [`BLOCK`]s, the last one possibly partial, that cover `len` bytes.
pub open spec fn block_count(len: nat) -> nat {
    (len + BLOCK - 1) as nat / (BLOCK as nat)
}

/// Block `i` of `data`.
pub open spec fn block_of(data: Seq<u8>, i: int) -> Seq<u8> {
    data.subrange(
        i * BLOCK,
        if (i + 1) * BLOCK <= data.len() {
            (i + 1) * BLOCK
        } else {
            data.len() as int
        },
    )
}

/// The digest of every block of `data`.
pub open spec fn block_hashes(data: Seq<u8>) -> Seq<Seq<u8>> {
    Seq::new(block_count(data.len()), |i: int| sha256_of(block_of(data, i)))
}

/// The digests held in `v`, as byte sequences.
pub open spec fn digests(v: Seq<[u8; 32]>) -> Seq<Seq<u8>> {
    v.map_values(|a: [u8; 32]| a@)
}

/// Whole and per-block digests, fed in device order.
struct Tally {
    whole: Hasher,
    block: Hasher,
    filled: u64,
    blocks: Vec<[u8; 32]>,
    /// Everything fed so far.
    seen: Ghost<Seq<u8>>,
}

impl Tally {
    spec fn wf(&self) -> bool {
        &&& hasher_input(self.whole) == self.seen@
        &&& self.filled < BLOCK
        &&& self.seen@.len() == self.blocks@.len() * BLOCK + self.filled
        &&& hasher_input(self.block) == self.seen@.skip(self.blocks@.len() * BLOCK)
        &&& forall|i: int|
            0 <= i < self.blocks@.len() ==> #[trigger] self.blocks@[i]@ == sha256_of(
                self.seen@.subrange(i * BLOCK, (i + 1) * BLOCK),
            )
    }

    fn new() -> (t: Self)
        ensures
            t.wf(),
            t.seen@ == Seq::<u8>::empty(),
    {
        let t = Tally {
            whole: hasher_new(),
            block: hasher_new(),
            filled: 0,
            blocks: Vec::new(),
            seen: Ghost(Seq::empty()),
        };
        proof {
            assert(t.seen@.skip(0) =~= Seq::<u8>::empty());
        }
        t
    }

    /// Feeds `data[from..to]`.
    fn update(&mut self, data: &[u8], from: usize, to: usize)
        requires
            old(self).wf(),
            from <= to <= data@.len(),
        ensures
            final(self).wf(),
            final(self).seen@ == old(self).seen@ + data@.subrange(from as int, to as int),
    {
        hasher_update(&mut self.whole, data, from, to);
        let ghost target = old(self).seen@ + data@.subrange(from as int, to as int);
        let mut at = from;
        while at < to
            invariant
                from <= at <= to <= data@.len(),
                hasher_input(self.whole) == target,
                target == old(self).seen@ + data@.subrange(from as int, to as int),
                self.seen@ == old(self).seen@ + data@.subrange(from as int, at as int),
                self.filled < BLOCK,
                self.seen@.len() == self.blocks@.len() * BLOCK + self.filled,
                hasher_input(self.block) == self.seen@.skip(self.blocks@.len() * BLOCK),
                forall|i: int|
                    0 <= i < self.blocks@.len() ==> #[trigger] self.blocks@[i]@ == sha256_of(
                        self.seen@.subrange(i * BLOCK, (i + 1) * BLOCK),
                    ),
            decreases to - at,
        {
            let room = (BLOCK - self.filled) as usize;
            let take = if room < to - at {
                room
            } else {
                to - at
            };
            let ghost before = self.seen@;
            hasher_update(&mut self.block, data, at, at + take);
            self.filled = self.filled + take as u64;
            self.seen = Ghost(self.seen@ + data@.subrange(at as int, (at + take) as int));
            proof {
                assert(self.seen@ =~= old(self).seen@ + data@.subrange(from as int, (at + take) as int));
                assert(self.seen@.skip(self.blocks@.len() * BLOCK) =~= before.skip(
                    self.blocks@.len() * BLOCK,
                ) + data@.subrange(at as int, (at + take) as int));
                assert forall|i: int| 0 <= i < self.blocks@.len() implies #[trigger] self.blocks@[i]@
                    == sha256_of(self.seen@.subrange(i * BLOCK, (i + 1) * BLOCK)) by {
                    let nb = self.blocks@.len();
                    assert((i + 1) * BLOCK <= nb * BLOCK) by (nonlinear_arith)
                        requires
                            0 <= i < nb,
                            BLOCK == 1048576,
                    ;
                    assert(self.seen@.subrange(i * BLOCK, (i + 1) * BLOCK) =~= before.subrange(
                        i * BLOCK,
                        (i + 1) * BLOCK,
                    ));
                }
            }
            if self.filled == BLOCK {
                let mut done = hasher_new();
                std::mem::swap(&mut self.block, &mut done);
                let d = hasher_finish(done);
                let ghost nb = self.blocks@.len();
                self.blocks.push(d);
                self.filled = 0;
                proof {
                    assert(self.seen@.skip(nb * BLOCK) =~= self.seen@.subrange(
                        nb * BLOCK,
                        (nb + 1) * BLOCK,
                    ));
                    assert(self.seen@.skip(self.blocks@.len() * BLOCK) =~= Seq::<u8>::empty());
                    assert forall|i: int| 0 <= i < self.blocks@.len() implies #[trigger] self.blocks@[i]@
                        == sha256_of(self.seen@.subrange(i * BLOCK, (i + 1) * BLOCK)) by {
                        if i < nb {
                        } else {
                            assert(i == nb);
                        }
                    }
                }
            }
            at = at + take;
        }
        proof {
            assert(data@.subrange(from as int, at as int) =~= data@.subrange(from as int, to as int));
        }
    }

    /// Closes the last partial block; gives the whole digest and the block digests.
    fn finish(self) -> (r: ([u8; 32], Vec<[u8; 32]>))
        requires
            self.wf(),
        ensures
            r.0@ == sha256_of(self.seen@),
            digests(r.1@) == block_hashes(self.seen@),
    {
        let mut blocks = self.blocks;
        let ghost full = blocks@.len();
        if self.filled > 0 {
            let d = hasher_finish(self.block);
            blocks.push(d);
        }
        proof {
            let seen = self.seen@;
            assert(block_count(seen.len()) == blocks@.len()) by {
                if self.filled > 0 {
                    assert((full * BLOCK + self.filled + BLOCK - 1) as nat / (BLOCK as nat) == full + 1)
                        by (nonlinear_arith)
                        requires
                            0 < self.filled < BLOCK,
                            BLOCK == 1048576,
                    ;
                } else {
                    assert((full * BLOCK + BLOCK - 1) as nat / (BLOCK as nat) == full) by (nonlinear_arith)
                        requires
                            BLOCK == 1048576,
                    ;
                }
            }
            assert forall|i: int| 0 <= i < blocks@.len() implies #[trigger] digests(blocks@)[i]
                == block_hashes(seen)[i] by {
                if i < full {
                    assert((i + 1) * BLOCK <= seen.len()) by (nonlinear_arith)
                        requires
                            0 <= i < full,
                            seen.len() == full * BLOCK + self.filled,
                            BLOCK == 1048576,
                    ;
                } else {
                    assert(i == full);
                    assert((i + 1) * BLOCK > seen.len());
                    assert(block_of(seen, i) =~= seen.skip(full * BLOCK));
                }
            }
            assert(digests(blocks@) =~= block_hashes(seen));
        }
        (hasher_finish(self.whole), blocks)
    }
}


/// What [`stream`] wrote.
#[derive(Debug)]
pub struct SinkOutcome {
    /// Bytes placed on the device, rounded up to whole sectors.
    pub bytes: u64,
    /// SHA-256 of what was written, compared with the read-back.
    pub hash: [u8; 32],
    /// Per-[`BLOCK`] digests, to tell where a read-back diverges.
    pub blocks: Vec<[u8; 32]>,
}

/// Why writing failed.
#[derive(Debug)]
pub enum SinkError {
    /// The source stream could not be read.
    Source(String),
    /// The source gave not a single byte.
    EmptySource,
    Device(DeviceError),
    TooSmall { need: u64, have: u64 },
    /// The read-back differs; `at` is where the first differing [`BLOCK`] starts.
    VerifyMismatch { at: u64 },
    Canceled,
}

/// The bytes fed to the digests by [`stream`]: the held-back front as it
/// came, the body writes, then the zeros that pad the front to a whole sector.
pub open spec fn tallied(data: Seq<u8>, hl: nat, body: Seq<WriteOp>, s: nat) -> Seq<u8> {
    data.take(hl as int) + flatten(body) + zeros((padlen(hl, s) - hl) as nat)
}

/// Length of the held-back front of a stream of `n` bytes.
pub open spec fn held(n: nat) -> nat {
    if n < HOLDBACK {
        n
    } else {
        HOLDBACK as nat
    }
}

/// What a successful [`stream`] of `data` did: `ws` are the writes it made,
/// in order.
///
/// Everything but the front is written first, in order, each piece padded
/// to whole sectors; the front (the partition table) comes last, at offset 0.
pub open spec fn streamed(ws: Seq<WriteOp>, data: Seq<u8>, s: nat, out: SinkOutcome) -> bool {
    let hl = held(data.len());
    let body = ws.drop_last();
    &&& data.len() > 0
    &&& ws.len() >= 1
    &&& ws.last() == WriteOp::Data { offset: 0, bytes: pad(data.take(hl as int), s) }
    &&& exists|parts: Seq<nat>| lays(body, data.skip(hl as int), hl as int, s, parts)
    &&& forall|i: int| 0 <= i < body.len() ==> #[trigger] body[i] is Data && body[i]->offset >= HOLDBACK
    &&& out.bytes == if end_of(body, hl as int) < padlen(hl, s) {
        padlen(hl, s) as int
    } else {
        end_of(body, hl as int)
    }
    &&& out.hash@ == sha256_of(tallied(data, hl, body, s))
    &&& digests(out.blocks@) == block_hashes(tallied(data, hl, body, s))
}

/// `ws` are the writes of a successful stream of some data.
pub open spec fn some_stream(ws: Seq<WriteOp>, s: nat, out: SinkOutcome) -> bool {
    exists|data: Seq<u8>| #[trigger] streamed(ws, data, s, out)
}

/// Every part but the last is a whole number of sectors.
pub open spec fn whole_but_last(parts: Seq<nat>, s: nat) -> bool {
    forall|i: int| 0 <= i < parts.len() - 1 ==> #[trigger] parts[i] % s == 0
}

/// The writes `ws` of a stream of `data` carry no padding but at the very
/// end of the body: every piece but the last fills whole sectors, so the
/// pieces sit on the device back to back.
pub open spec fn packed(ws: Seq<WriteOp>, data: Seq<u8>, s: nat) -> bool {
    let hl = held(data.len());
    exists|parts: Seq<nat>|
        lays(ws.drop_last(), data.skip(hl as int), hl as int, s, parts) && whole_but_last(parts, s)
}

proof fn lemma_padlen(n: nat, s: nat)
    requires
        0 < s,
        n <= CHUNK,
        (CHUNK as nat) % s == 0,
    ensures
        n <= padlen(n, s) <= CHUNK,
        padlen(n, s) < n + s,
        n == 0 ==> padlen(n, s) == 0,
        s <= CHUNK,
{
    let q = ((n + s - 1) as nat) / s;
    let m = (CHUNK as nat) / s;
    assert(m * s == CHUNK) by (nonlinear_arith)
        requires
            (CHUNK as nat) % s == 0,
            m == (CHUNK as nat) / s,
            0 < s,
    ;
    assert(q * s <= n + s - 1 && n + s - 1 < q * s + s) by (nonlinear_arith)
        requires
            q == ((n + s - 1) as nat) / s,
            0 < s,
    ;
    assert(q <= m) by (nonlinear_arith)
        requires
            q * s <= n + s - 1,
            n <= m * s,
            0 < s,
    ;
    assert(q * s <= m * s) by (nonlinear_arith)
        requires
            q <= m,
            0 < s,
    ;
    if n == 0 {
        vstd::arithmetic::div_mod::lemma_basic_div((s - 1) as int, s as int);
        assert(q == 0);
        assert(padlen(n, s) == q * s);
        assert(q * s == 0) by (nonlinear_arith)
            requires
                q == 0,
        ;
    }
    assert(s <= CHUNK) by (nonlinear_arith)
        requires
            m * s == CHUNK,
            0 < s,
    ;
}

proof fn lemma_lays_push(
    ws: Seq<WriteOp>,
    data: Seq<u8>,
    start: int,
    s: nat,
    parts: Seq<nat>,
    piece: Seq<u8>,
)
    requires
        lays(ws, data, start, s, parts),
        piece.len() > 0,
        0 <= end_of(ws, start) <= u64::MAX,
    ensures
        lays(
            ws.push(WriteOp::Data { offset: end_of(ws, start) as u64, bytes: pad(piece, s) }),
            data + piece,
            start,
            s,
            parts.push(piece.len()),
        ),
{
    let w = WriteOp::Data { offset: end_of(ws, start) as u64, bytes: pad(piece, s) };
    let d2 = data + piece;
    assert(ws.push(w).drop_last() =~= ws);
    assert(parts.push(piece.len()).drop_last() =~= parts);
    assert(d2.take(d2.len() - piece.len()) =~= data);
    assert(d2.skip(d2.len() - piece.len()) =~= piece);
}

/// Fills `buf` from the front until it is full or the source ends.
fn fill<S: ByteSource>(src: &mut S, buf: &mut Vec<u8>) -> (r: Result<usize, String>)
    requires
        old(buf)@.len() == CHUNK,
        old(src).inv(),
    ensures
        final(src).inv(),
        final(buf)@.len() == CHUNK,
        r matches Ok(n) ==> n <= CHUNK,
        old(src).faithful() ==> final(src).faithful() && final(src).origin() == old(src).origin()
            && final(src).produced().len() >= old(src).produced().len() && final(src).produced().take(
            old(src).produced().len() as int,
        ) == old(src).produced(),
        old(src).faithful() ==> (r matches Ok(n) ==> final(src).produced() == old(src).produced()
            + final(buf)@.take(n as int)),
        old(src).faithful() ==> (r matches Ok(n) ==> (n < CHUNK ==> final(src).ended())),
        old(src).faithful() && old(src).ended() ==> r == Ok::<usize, String>(0),
        old(src).never_fails() ==> r is Ok && final(src).never_fails(),
{
    let mut filled: usize = 0;
    while filled < CHUNK
        invariant
            filled <= CHUNK,
            buf@.len() == CHUNK,
            src.inv(),
            old(src).faithful() ==> src.faithful() && src.origin() == old(src).origin()
                && src.produced() == old(src).produced() + buf@.take(filled as int),
            old(src).faithful() && old(src).ended() ==> filled == 0 && src.ended(),
            old(src).never_fails() ==> src.never_fails(),
        ensures
            old(src).never_fails() ==> src.never_fails(),
            src.inv(),
            filled <= CHUNK,
            buf@.len() == CHUNK,
            old(src).faithful() ==> src.faithful() && src.origin() == old(src).origin()
                && src.produced() == old(src).produced() + buf@.take(filled as int),
            old(src).faithful() ==> (filled < CHUNK ==> src.ended()),
            old(src).faithful() && old(src).ended() ==> filled == 0,
        decreases CHUNK - filled,
    {
        match src.read_into(buf.as_mut_slice(), filled) {
            Ok(0) => {
                proof {
                    assert(buf@.subrange(filled as int, filled as int) =~= Seq::<u8>::empty());
                    assert(buf@.take(filled as int) =~= buf@.take(filled as int) + Seq::<u8>::empty());
                }
                break;
            },
            Ok(n) => {
                proof {
                    assert(buf@.take((filled + n) as int) =~= buf@.take(filled as int) + buf@.subrange(
                        filled as int,
                        filled + n,
                    ));
                }
                filled = filled + n;
            },
            Err(e) => {
                proof {
                    if old(src).faithful() {
                        assert(src.produced().take(old(src).produced().len() as int) =~= old(
                            src,
                        ).produced());
                    }
                }
                return Err(e);
            },
        }
    }
    proof {
        if old(src).faithful() {
            assert(src.produced().take(old(src).produced().len() as int) =~= old(src).produced());
        }
    }
    Ok(filled)
}

/// Appends `buf[..take]` to `out`.
fn append_front(out: &mut Vec<u8>, buf: &[u8], take: usize)
    requires
        take <= buf@.len(),
    ensures
        final(out)@ == old(out)@ + buf@.take(take as int),
{
    let mut k: usize = 0;
    while k < take
        invariant
            k <= take <= buf@.len(),
            out@ == old(out)@ + buf@.take(k as int),
        decreases take - k,
    {
        out.push(buf[k]);
        k += 1;
        proof {
            assert(buf@.take(k as int) =~= buf@.take((k - 1) as int).push(buf@[k - 1]));
            assert(out@ =~= old(out)@ + buf@.take(k as int));
        }
    }
}

/// Moves `buf[start..end]` to the front of `buf`.
fn shift_down(buf: &mut Vec<u8>, start: usize, end: usize)
    requires
        start <= end <= old(buf)@.len(),
    ensures
        final(buf)@.len() == old(buf)@.len(),
        final(buf)@.take(end - start) == old(buf)@.subrange(start as int, end as int),
{
    let rest = end - start;
    let mut k: usize = 0;
    while k < rest
        invariant
            k <= rest,
            start + rest == end <= buf@.len(),
            buf@.len() == old(buf)@.len(),
            forall|j: int| 0 <= j < k ==> #[trigger] buf@[j] == old(buf)@[start + j],
            forall|j: int| k <= j < buf@.len() ==> #[trigger] buf@[j] == old(buf)@[j],
        decreases rest - k,
    {
        let v = buf[start + k];
        buf.set(k, v);
        k += 1;
    }
    proof {
        assert(buf@.take(rest as int) =~= old(buf)@.subrange(start as int, end as int));
    }
}

/// Sets `buf[from..to]` to zero.
fn zero_range(buf: &mut Vec<u8>, from: usize, to: usize)
    requires
        from <= to <= old(buf)@.len(),
    ensures
        final(buf)@.len() == old(buf)@.len(),
        final(buf)@.take(to as int) == old(buf)@.take(from as int) + zeros((to - from) as nat),
{
    let mut z: usize = from;
    while z < to
        invariant
            from <= z <= to <= buf@.len(),
            buf@.len() == old(buf)@.len(),
            buf@.take(from as int) == old(buf)@.take(from as int),
            forall|j: int| from <= j < z ==> #[trigger] buf@[j] == 0u8,
        decreases to - z,
    {
        buf.set(z, 0u8);
        z += 1;
        proof {
            assert(buf@.take(from as int) =~= old(buf)@.take(from as int));
        }
    }
    proof {
        assert(buf@.take(to as int) =~= old(buf)@.take(from as int) + zeros((to - from) as nat));
    }
}

/// `n` rounded up to a multiple of `s`.
fn round_up(n: usize, s: usize) -> (r: usize)
    requires
        0 < s,
        n <= CHUNK,
        (CHUNK as nat) % (s as nat) == 0,
    ensures
        r == padlen(n as nat, s as nat),
        n <= r <= CHUNK,
{
    proof {
        lemma_padlen(n as nat, s as nat);
    }
    ((n + s - 1) / s) * s
}

/// Writes the stream onto the device from the front.
///
/// The first [`HOLDBACK`] bytes are held and written last, at offset 0, once
/// everything else is on the device. Every piece is padded with zeros to
/// whole sectors: leaving the buffer as it was would put stale memory on the
/// stick. A stream that gives no byte at all is a failure: by now the target's
/// partition table is already gone, and an empty image would pass the
/// read-back check and report an emptied stick as written and verified.
///
/// `expected_total` is for the progress bar only.
#[verifier::loop_isolation(false)]
#[verifier::spinoff_prover]
#[verifier::rlimit(100)]
pub fn stream<S: ByteSource, W: WriteSession, C: Cancel, F: FnMut(ProgressEvent)>(
    src: &mut S,
    session: &mut W,
    expected_total: Option<u64>,
    cancel: &C,
    rep: &mut ProgressReporter<F>,
) -> (r: Result<SinkOutcome, SinkError>)
    requires
        old(session).view_sector() > 0,
        (CHUNK as nat) % (old(session).view_sector() as nat) == 0,
        old(session).view_total() <= u64::MAX - 2 * CHUNK,
        old(src).inv(),
    ensures
        final(src).inv(),
        final(session).view_observed() == old(session).view_observed(),
        final(session).view_sector() == old(session).view_sector(),
        final(session).view_total() == old(session).view_total(),
        final(session).writes().take(old(session).writes().len() as int) == old(session).writes(),
        final(session).writes().len() >= old(session).writes().len(),
        r matches Ok(out) ==> some_stream(
            final(session).writes().skip(old(session).writes().len() as int),
            old(session).view_sector() as nat,
            out,
        ),
        r matches Err(SinkError::EmptySource) ==> final(session).writes() == old(session).writes(),
        r matches Err(SinkError::TooSmall { need, have }) ==> have == old(session).view_total()
            && need > have,
        old(src).faithful() ==> final(src).faithful() && final(src).origin() == old(src).origin()
            && final(src).produced().take(old(src).produced().len() as int) == old(src).produced(),
        old(src).faithful() ==> (r matches Ok(out) ==> final(src).ended() && streamed(
            final(session).writes().skip(old(session).writes().len() as int),
            final(src).produced().skip(old(src).produced().len() as int),
            old(session).view_sector() as nat,
            out,
        )),
        old(src).faithful() && (HOLDBACK as nat) % (old(session).view_sector() as nat) == 0 ==> (r is Ok
            ==> packed(
            final(session).writes().skip(old(session).writes().len() as int),
            final(src).produced().skip(old(src).produced().len() as int),
            old(session).view_sector() as nat,
        )),
        old(src).faithful() ==> (r matches Err(SinkError::EmptySource) ==> final(src).produced()
            == old(src).produced() && final(src).ended()),
        old(src).faithful() && old(src).ended() ==> (r matches Err(e) && (e is EmptySource
            || e is Canceled)),
        final(session).reliable() == old(session).reliable(),
        old(src).never_fails() ==> final(src).never_fails(),
        cancel.never_cancels() && old(src).never_fails() && old(session).reliable() && (
        HOLDBACK as nat) % (old(session).view_sector() as nat) == 0 && HOLDBACK <= old(
            session,
        ).view_total() ==> r is Ok || r matches Err(SinkError::EmptySource) || r matches Err(
            SinkError::TooSmall { .. },
        ),
        cancel.never_cancels() && old(src).faithful() && old(src).inv() && old(src).never_fails()
            && old(session).reliable() && (HOLDBACK as nat) % (old(session).view_sector() as nat)
            == 0 && padlen(
            (old(src).origin().len() - old(src).produced().len()) as nat,
            old(session).view_sector() as nat,
        ) <= old(session).view_total() ==> r is Ok || r matches Err(SinkError::EmptySource),
{
    let sector = session.sector_size() as usize;
    let capacity = session.total_bytes();
    let ghost s = sector as nat;
    let ghost p0 = src.produced();
    let ghost w0 = session.writes();

    let mut buf: Vec<u8> = vec![0u8; CHUNK];
    let mut offset: u64 = 0;
    let mut last_t = instant_now();
    let mut tally = Tally::new();
    let mut holdback: Vec<u8> = Vec::new();
    let ghost mut consumed: Seq<u8> = Seq::empty();
    let ghost mut body: Seq<WriteOp> = Seq::empty();
    let ghost mut parts: Seq<nat> = Seq::empty();
    // A faithful source, and a sector that divides the held front: then every
    // piece but the last fills whole sectors.
    let ghost tight = src.faithful() && (HOLDBACK as nat) % s == 0;
    // Besides, reads that cannot fail and a device that holds the rest of the
    // stream padded: then the stream is never too big for the device.
    let ghost fits = tight && src.never_fails() && padlen(
        (src.origin().len() - p0.len()) as nat,
        s,
    ) <= capacity;
    proof {
        src.lemma_produced_is_front();
    }

    proof {
        assert(src.produced() =~= p0 + consumed);
        assert(session.writes() =~= w0 + body);
        assert(consumed.skip(0) =~= Seq::<u8>::empty());
        assert(consumed.take(0) + flatten(body) =~= Seq::<u8>::empty());
    }

    loop
        invariant
            buf@.len() == CHUNK,
            sector as nat == s,
            s == session.view_sector(),
            capacity == session.view_total(),
            session.view_observed() == old(session).view_observed(),
            session.view_sector() == old(session).view_sector(),
            session.view_total() == old(session).view_total(),
            old(src).faithful() ==> src.faithful() && src.origin() == old(src).origin()
                && src.produced() == p0 + consumed,
            tight ==> whole_but_last(parts, s),
            tight ==> (parts.len() > 0 && parts.last() % s != 0 ==> src.ended()),
            tight ==> (0 < holdback@.len() < HOLDBACK ==> src.ended()),
            session.writes() == w0 + body,
            holdback@.len() <= HOLDBACK,
            holdback@ == consumed.take(holdback@.len() as int),
            consumed.len() >= holdback@.len(),
            consumed.len() > holdback@.len() ==> holdback@.len() == HOLDBACK,
            body.len() > 0 ==> holdback@.len() == HOLDBACK,
            lays(body, consumed.skip(holdback@.len() as int), holdback@.len() as int, s, parts),
            offset == end_of(body, holdback@.len() as int),
            offset <= capacity || body.len() == 0,
            forall|i: int| 0 <= i < body.len() ==> #[trigger] body[i] is Data && body[i]->offset >= HOLDBACK,
            tally.wf(),
            tally.seen@ == consumed.take(holdback@.len() as int) + flatten(body),
            offset <= capacity + HOLDBACK,
            src.inv(),
            old(src).faithful() && old(src).ended() ==> src.ended() && offset == 0,
            session.reliable() == old(session).reliable(),
            old(src).never_fails() ==> src.never_fails(),
            (HOLDBACK as nat) % s == 0 && holdback@.len() == HOLDBACK ==> (offset as nat) % s == 0,
            fits ==> consumed.len() <= src.origin().len() - p0.len(),
            fits ==> offset as nat == consumed.len() || (src.ended() && offset as nat == padlen(
                consumed.len(),
                s,
            )),
        decreases capacity + HOLDBACK - offset,
    {
        if cancel.is_canceled() {
            return Err(SinkError::Canceled);
        }

        let ghost old_consumed = consumed;
        let ghost old_body = body;
        let ghost old_hl = holdback@.len();
        let ghost pc = src.produced();
        let ghost was_ended = src.ended();
        let filled = match fill(src, &mut buf) {
            Ok(n) => n,
            Err(e) => {
                proof {
                    if old(src).faithful() {
                        assert(src.produced().take(pc.len() as int) == pc);
                        assert(pc.len() >= p0.len());
                        assert(src.produced().len() >= pc.len());
                        assert forall|k: int| 0 <= k < p0.len() implies #[trigger] src.produced()[k]
                            == pc[k] by {
                            assert(src.produced().take(pc.len() as int)[k] == src.produced()[k]);
                        }
                        assert(src.produced().take(p0.len() as int) =~= pc.take(p0.len() as int));
                        assert(src.produced().take(p0.len() as int) =~= p0);
                    }
                    assert(session.writes().take(w0.len() as int) =~= w0);
                }
                return Err(SinkError::Source(e));
            },
        };
        if filled == 0 {
            proof {
                if old(src).faithful() {
                    assert(src.produced() =~= p0 + consumed);
                }
            }
            break;
        }
        let ghost chunk = buf@.take(filled as int);
        proof {
            consumed = consumed + chunk;
            if old(src).faithful() {
                assert(src.produced() =~= p0 + consumed);
            }
            if fits {
                src.lemma_produced_is_front();
            }
            // A stream that had ended would have given nothing.
            if tight {
                assert(!was_ended);
            }
        }

        // The front HOLDBACK bytes are held, not written yet.
        let mut start: usize = 0;
        if holdback.len() < HOLDBACK as usize {
            let want = HOLDBACK as usize - holdback.len();
            let take = if want < filled {
                want
            } else {
                filled
            };
            let ghost hb0 = holdback@;
            append_front(&mut holdback, buf.as_slice(), take);
            tally.update(buf.as_slice(), 0, take);
            offset = offset + take as u64;
            start = take;
            proof {
                assert(body.len() == 0);
                assert(old_consumed.len() == hb0.len());
                assert(holdback@ =~= consumed.take(holdback@.len() as int));
                assert(consumed.skip(holdback@.len() as int) =~= chunk.skip(take as int));
                assert(buf@.subrange(0, take as int) =~= buf@.take(take as int));
                assert(tally.seen@ =~= consumed.take(holdback@.len() as int) + flatten(body));
                if tight && holdback@.len() < HOLDBACK {
                    assert(filled < CHUNK);
                }
            }
        } else {
            proof {
                assert(consumed.take(HOLDBACK as int) =~= old_consumed.take(HOLDBACK as int));
                assert(consumed.skip(HOLDBACK as int) =~= old_consumed.skip(HOLDBACK as int) + chunk);
            }
        }
        if start == filled {
            proof {
                assert(consumed.skip(holdback@.len() as int) =~= Seq::<u8>::empty());
            }
            continue;
        }
        let rest = filled - start;
        let ghost piece = buf@.subrange(start as int, filled as int);
        let ghost dprev = consumed.skip(HOLDBACK as int).take(
            consumed.skip(HOLDBACK as int).len() - rest,
        );
        proof {
            assert(holdback@.len() == HOLDBACK);
            assert(chunk.skip(start as int) =~= piece);
            assert(consumed.skip(HOLDBACK as int) =~= dprev + piece);
            assert(dprev =~= old_consumed.skip(old_hl as int));
            if body.len() == 0 {
                assert(parts.len() == 0);
                assert(dprev.len() == 0);
            }
            assert(lays(body, dprev, HOLDBACK as int, s, parts));
        }
        if start > 0 {
            shift_down(&mut buf, start, filled);
        }
        proof {
            assert(buf@.take(rest as int) =~= piece);
        }

        // Only whole sectors go to the device: the last piece is padded with zeros.
        let padded = round_up(rest, sector);
        zero_range(&mut buf, rest, padded);
        proof {
            assert(buf@.take(padded as int) =~= pad(piece, s));
        }

        proof {
            if fits {
                // What this write reaches is the stream so far, padded.
                lemma_padlen_shift(offset as nat, rest as nat, s);
                lemma_padlen_monotone(consumed.len(), (src.origin().len() - p0.len()) as nat, s);
            }
        }
        if offset + padded as u64 > capacity {
            return Err(SinkError::TooSmall { need: offset + padded as u64, have: capacity });
        }

        proof {
            lemma_padlen_bounds(rest as nat, s);
            if (HOLDBACK as nat) % s == 0 {
                vstd::arithmetic::div_mod::lemma_add_mod_noop(offset as int, padded as int, s as int);
                vstd::arithmetic::div_mod::lemma_small_mod(0, s);
                assert(((offset + padded) as nat) % s == 0);
            }
        }
        let (front, _) = buf.as_slice().split_at(padded);
        match session.write_at(offset, front) {
            Ok(()) => {},
            Err(e) => {
                proof {
                    if old(src).faithful() {
                        assert(src.produced().take(p0.len() as int) =~= p0);
                    }
                    assert(session.writes().take(w0.len() as int) =~= w0);
                }
                return Err(SinkError::Device(e));
            },
        }
        let ghost seen0 = tally.seen@;
        tally.update(buf.as_slice(), 0, padded);
        let ghost w = WriteOp::Data { offset, bytes: pad(piece, s) };
        proof {
            let ghost parts0 = parts;
            lemma_lays_push(body, dprev, HOLDBACK as int, s, parts, piece);
            body = body.push(w);
            parts = parts.push(piece.len());
            if tight {
                // The stream had not ended before this chunk: the previous
                // piece was whole, and the held front was empty or full.
                assert(old_hl == 0 || old_hl == HOLDBACK);
                assert forall|i: int| 0 <= i < parts.len() - 1 implies #[trigger] parts[i] % s == 0 by {
                    assert(parts[i] == parts0[i]);
                }
                if filled == CHUNK {
                    if old_hl == 0 {
                        assert(rest == CHUNK - HOLDBACK);
                        vstd::arithmetic::div_mod::lemma_sub_mod_noop(
                            CHUNK as int,
                            HOLDBACK as int,
                            s as int,
                        );
                    }
                    assert((rest as nat) % s == 0);
                }
            }
            assert(session.writes() =~= w0 + body);
            assert(body.drop_last() =~= old_body);
            assert(flatten(body) =~= flatten(old_body) + pad(piece, s));
            assert(buf@.subrange(0, padded as int) =~= pad(piece, s));
            assert(tally.seen@ =~= consumed.take(HOLDBACK as int) + flatten(body));
            assert forall|i: int| 0 <= i < body.len() implies #[trigger] body[i] is Data
                && body[i]->offset >= HOLDBACK by {
                if i < body.len() - 1 {
                    assert(body[i] == old_body[i]);
                }
            }
        }
        offset = offset + padded as u64;
        proof {
            if fits && (rest as nat) % s == 0 {
                lemma_padlen_whole(rest as nat, s);
            }
        }

        let now = instant_now();
        // Past the announced size the estimate is wrong: show no number rather
        // than more than 100 %.
        let total = match expected_total {
            Some(t) => if offset <= t {
                Some(t)
            } else {
                None
            },
            None => None,
        };
        let us = micros_between(&last_t, &now);
        rep.update(offset, total, us, padded as u64);
        last_t = now;
    }

    if offset == 0 {
        proof {
            assert(consumed.len() == 0);
            if old(src).faithful() {
                assert(src.produced() =~= p0);
            }
            assert(session.writes() =~= w0);
        }
        return Err(SinkError::EmptySource);
    }

    // Now the front: from here the device holds a valid partition table, but
    // everything else is already written.
    let raw = holdback.len();
    let ghost hl = raw as nat;
    let ghost body_end = end_of(body, hl as int);
    let hpadded = round_up(raw, sector);
    let ghost hb0 = holdback@;
    let mut z: usize = raw;
    while z < hpadded
        invariant
            raw <= z <= hpadded <= CHUNK,
            holdback@ == hb0 + zeros((z - raw) as nat),
        decreases hpadded - z,
    {
        holdback.push(0u8);
        z += 1;
        proof {
            assert(holdback@ =~= hb0 + zeros((z - raw) as nat));
        }
    }
    proof {
        assert(hb0 =~= consumed.take(hl as int));
        assert(holdback@ =~= pad(consumed.take(hl as int), s));
    }
    if hpadded > raw {
        tally.update(holdback.as_slice(), raw, hpadded);
        if (hpadded as u64) > offset {
            offset = hpadded as u64;
        }
    }
    proof {
        assert(holdback@.subrange(raw as int, hpadded as int) =~= zeros((padlen(hl, s) - hl) as nat));
        assert(tally.seen@ =~= tallied(consumed, hl, body, s));
    }
    proof {
        lemma_padlen_bounds(hl, s);
        if (HOLDBACK as nat) % s == 0 {
            lemma_padlen_le(hl, HOLDBACK as nat, s);
            vstd::arithmetic::div_mod::lemma_small_mod(0, s);
        }
    }
    proof {
        if fits {
            lemma_padlen_monotone(hl, consumed.len(), s);
            lemma_padlen_monotone(consumed.len(), (src.origin().len() - p0.len()) as nat, s);
        }
    }
    match session.write_at(0, holdback.as_slice()) {
        Ok(()) => {},
        Err(e) => {
            return Err(SinkError::Device(e));
        },
    }
    let ghost all = body.push(WriteOp::Data { offset: 0, bytes: pad(consumed.take(hl as int), s) });
    proof {
        assert(session.writes() =~= w0 + all);
        assert(session.writes().skip(w0.len() as int) =~= all);
        assert(all.drop_last() =~= body);
        if old(src).faithful() {
            assert(src.produced().skip(p0.len() as int) =~= consumed);
            assert(src.produced().take(p0.len() as int) =~= p0);
        }
        assert(session.writes().take(w0.len() as int) =~= w0);
        assert(held(consumed.len()) == hl);
    }
    let (hash, blocks) = tally.finish();
    let out = SinkOutcome { bytes: offset, hash, blocks };
    proof {
        assert(lays(body, consumed.skip(hl as int), hl as int, s, parts));
        assert(streamed(all, consumed, s, out));
        assert(some_stream(
            session.writes().skip(old(session).writes().len() as int),
            old(session).view_sector() as nat,
            out,
        ));
        if tight {
            assert(packed(all, consumed, s));
        }
    }
    Ok(out)
}

/// Where zeroing the device's end starts: the last [`TAIL_ZERO`] bytes, but
/// never before the end of what was just written.
pub open spec fn tail_start(capacity: u64, written: u64) -> u64 {
    let t = if capacity < TAIL_ZERO {
        0
    } else {
        (capacity - TAIL_ZERO) as u64
    };
    if t < written {
        written
    } else {
        t
    }
}

/// The write that zeroing the end of a device of `capacity` bytes makes once
/// `written` bytes were placed: one, or none when nothing is left past them.
pub open spec fn tail_writes(capacity: u64, written: u64) -> Seq<WriteOp> {
    let t = tail_start(capacity, written);
    if t < capacity {
        seq![WriteOp::ZeroTail { len: (capacity - t) as u64 }]
    } else {
        Seq::empty()
    }
}

/// Zeroes the end of the device, so that an old GPT backup header there
/// cannot bring a deleted partition table back. The zeroed range never
/// reaches into the `written` bytes.
pub fn zero_tail<W: WriteSession>(session: &mut W, written: u64) -> (r: Result<(), SinkError>)
    ensures
        final(session).view_observed() == old(session).view_observed(),
        final(session).view_sector() == old(session).view_sector(),
        final(session).view_total() == old(session).view_total(),
        r is Ok || r is Err && r->Err_0 is Device,
        final(session).reliable() == old(session).reliable(),
        old(session).reliable() ==> r is Ok,
        ({
            let cap = old(session).view_total();
            let t = tail_start(cap, written);
            if r is Ok {
                final(session).writes() == if t < cap {
                    old(session).writes().push(WriteOp::ZeroTail { len: (cap - t) as u64 })
                } else {
                    old(session).writes()
                }
            } else {
                t < cap && final(session).writes() == old(session).writes()
            }
        }),
{
    let capacity = session.total_bytes();
    let base = capacity.saturating_sub(TAIL_ZERO);
    let start = if base < written {
        written
    } else {
        base
    };
    if start < capacity {
        match session.zero_tail(capacity - start) {
            Ok(()) => {},
            Err(e) => {
                return Err(SinkError::Device(e));
            },
        }
    }
    Ok(())
}

/// Bytes read back in one step from `pos`: a block, or what is left, cut to
/// whole sectors.
pub open spec fn step(pos: nat, bytes: nat, s: nat) -> nat {
    let left = if bytes - pos < BLOCK {
        (bytes - pos) as nat
    } else {
        BLOCK as nat
    };
    if s == 0 {
        0
    } else {
        (left / s) * s
    }
}

/// Where reading back from `pos` stops.
pub open spec fn read_end(pos: nat, bytes: nat, s: nat) -> nat
    decreases bytes - pos,
{
    if pos >= bytes || step(pos, bytes, s) == 0 {
        pos
    } else {
        proof {
            lemma_step(pos, bytes, s);
        }
        read_end(pos + step(pos, bytes, s), bytes, s)
    }
}

/// Every block read back from `pos` on, against the recorded digests from
/// index `i` on, matches.
pub open spec fn blocks_match(
    medium: Seq<u8>,
    pos: nat,
    bytes: nat,
    s: nat,
    blocks: Seq<Seq<u8>>,
    i: nat,
) -> bool
    decreases bytes - pos,
{
    if pos >= bytes || step(pos, bytes, s) == 0 {
        true
    } else {
        proof {
            lemma_step(pos, bytes, s);
        }
        let n = step(pos, bytes, s);
        &&& i < blocks.len()
        &&& pos + n <= medium.len()
        &&& blocks[i as int] == sha256_of(medium.subrange(pos as int, (pos + n) as int))
        &&& blocks_match(medium, pos + n, bytes, s, blocks, i + 1)
    }
}

/// Where the first block read back from `pos` on differs from its recorded
/// digest (index `i` on); where reading back stops when every block matches.
pub open spec fn first_mismatch(
    medium: Seq<u8>,
    pos: nat,
    bytes: nat,
    s: nat,
    blocks: Seq<Seq<u8>>,
    i: nat,
) -> nat
    decreases bytes - pos,
{
    if pos >= bytes || step(pos, bytes, s) == 0 {
        pos
    } else {
        proof {
            lemma_step(pos, bytes, s);
        }
        let n = step(pos, bytes, s);
        if i < blocks.len() && pos + n <= medium.len() && blocks[i as int] == sha256_of(
            medium.subrange(pos as int, (pos + n) as int),
        ) {
            first_mismatch(medium, pos + n, bytes, s, blocks, i + 1)
        } else {
            pos
        }
    }
}

/// Whether the device reads back as recorded: block by block, then as a whole.
pub open spec fn reads_back(
    medium: Seq<u8>,
    bytes: nat,
    s: nat,
    expected: Seq<u8>,
    blocks: Seq<Seq<u8>>,
) -> bool {
    &&& blocks_match(medium, 0, bytes, s, blocks, 0)
    &&& read_end(0, bytes, s) <= medium.len()
    &&& expected == sha256_of(medium.take(read_end(0, bytes, s) as int))
}

/// One read-back step stays within the range and within a block.
pub proof fn lemma_step(pos: nat, bytes: nat, s: nat)
    requires
        pos < bytes,
    ensures
        step(pos, bytes, s) <= bytes - pos,
        step(pos, bytes, s) <= BLOCK,
{
    let left = if bytes - pos < BLOCK {
        (bytes - pos) as nat
    } else {
        BLOCK as nat
    };
    if s > 0 {
        assert((left / s) * s <= left) by (nonlinear_arith)
            requires
                s > 0,
        ;
    }
}

/// Reads the device back and compares it with what was written.
///
/// A faulty stick can report a write as done and keep something else; this
/// comparison is the only thing that catches it. Each block is compared on
/// its own, so that a failure says where it happened.
#[verifier::loop_isolation(false)]
pub fn verify<W: WriteSession, C: Cancel, F: FnMut(ProgressEvent)>(
    session: &mut W,
    bytes: u64,
    expected: &[u8; 32],
    blocks: &[[u8; 32]],
    cancel: &C,
    rep: &mut ProgressReporter<F>,
) -> (r: Result<(), SinkError>)
    requires
        old(session).view_sector() > 0,
    ensures
        final(session).view_observed() == old(session).view_observed(),
        final(session).view_sector() == old(session).view_sector(),
        final(session).view_total() == old(session).view_total(),
        final(session).writes() == old(session).writes(),
        final(session).medium() == old(session).medium(),
        r is Ok ==> reads_back(
            old(session).medium(),
            bytes as nat,
            old(session).view_sector() as nat,
            expected@,
            digests(blocks@),
        ),
        r matches Err(SinkError::VerifyMismatch { at }) ==> at == first_mismatch(
            old(session).medium(),
            0,
            bytes as nat,
            old(session).view_sector() as nat,
            digests(blocks@),
            0,
        ),
        r matches Err(SinkError::VerifyMismatch { at }) ==> at <= bytes && !reads_back(
            old(session).medium(),
            bytes as nat,
            old(session).view_sector() as nat,
            expected@,
            digests(blocks@),
        ),
        r matches Err(e) ==> e is VerifyMismatch || e is Canceled || e is Device,
        final(session).reliable() == old(session).reliable(),
        cancel.never_cancels() && old(session).reliable() && bytes <= old(session).view_total()
            ==> r is Ok || r matches Err(SinkError::VerifyMismatch { .. }),
        cancel.never_cancels() && old(session).reliable() && bytes <= old(session).view_total()
            && reads_back(
            old(session).medium(),
            bytes as nat,
            old(session).view_sector() as nat,
            expected@,
            digests(blocks@),
        ) ==> r is Ok,
{
    let sector = session.sector_size() as u64;
    let ghost s = sector as nat;
    let ghost m = session.medium();
    let ghost bd = digests(blocks@);
    let mut whole = hasher_new();
    let mut pos: u64 = 0;
    let mut index: usize = 0;
    let mut last_v = instant_now();
    proof {
        assert(m.take(0) =~= Seq::<u8>::empty());
    }

    while pos < bytes
        invariant
            pos <= bytes,
            index <= blocks@.len(),
            s == sector,
            s > 0,
            session.medium() == m,
            session.writes() == old(session).writes(),
            session.view_observed() == old(session).view_observed(),
            session.view_sector() == old(session).view_sector(),
            session.view_total() == old(session).view_total(),
            session.reliable() == old(session).reliable(),
            pos <= m.len(),
            hasher_input(whole) == m.take(pos as int),
            read_end(0, bytes as nat, s) == read_end(pos as nat, bytes as nat, s),
            blocks_match(m, 0, bytes as nat, s, bd, 0) == blocks_match(
                m,
                pos as nat,
                bytes as nat,
                s,
                bd,
                index as nat,
            ),
            first_mismatch(m, 0, bytes as nat, s, bd, 0) == first_mismatch(
                m,
                pos as nat,
                bytes as nat,
                s,
                bd,
                index as nat,
            ),
        decreases bytes - pos,
    {
        if cancel.is_canceled() {
            return Err(SinkError::Canceled);
        }
        proof {
            lemma_step(pos as nat, bytes as nat, s);
        }
        let left = if bytes - pos < BLOCK {
            bytes - pos
        } else {
            BLOCK
        };
        // Reads too must be whole sectors.
        let n = ((left / sector) * sector) as usize;
        if n == 0 {
            break;
        }
        let at = pos;
        let mut back: Vec<u8> = vec![0u8; n];
        match session.read_at(at, back.as_mut_slice()) {
            Ok(()) => {},
            Err(e) => {
                return Err(SinkError::Device(e));
            },
        }
        hasher_update(&mut whole, back.as_slice(), 0, n);
        let got = sha256(back.as_slice(), 0, n);
        proof {
            assert(back@.subrange(0, n as int) =~= back@);
            assert(m.take((pos + n) as int) =~= m.take(pos as int) + m.subrange(
                pos as int,
                pos + n,
            ));
        }
        // Each block is compared where it stands: one digest for the whole
        // would say only that something differs, not where.
        if index < blocks.len() && same_digest(&blocks[index], &got) {
        } else {
            proof {
                if index < blocks@.len() {
                    assert(bd[index as int] == blocks@[index as int]@);
                }
            }
            return Err(SinkError::VerifyMismatch { at });
        }
        proof {
            assert(bd[index as int] == blocks@[index as int]@);
        }
        index = index + 1;
        pos = pos + n as u64;

        let now = instant_now();
        let us = micros_between(&last_v, &now);
        rep.update(pos, Some(bytes), us, n as u64);
        last_v = now;
    }

    // All blocks matched but the whole differs: the difference lies outside
    // the blocks. Say where the compared range ends rather than pass.
    let digest = hasher_finish(whole);
    if !same_digest(&digest, expected) {
        return Err(SinkError::VerifyMismatch { at: pos });
    }
    Ok(())
}

// ---------------------------------------------------------------------------
// The device as told, and what a stream leaves on it.

/// The medium `m` after the write `w`, on a device that does what it is
/// told: a data write replaces its range, a tail write zeroes the last bytes.
/// A write past the end changes nothing.
pub open spec fn after_write(m: Seq<u8>, w: WriteOp) -> Seq<u8> {
    match w {
        WriteOp::Data { offset, bytes } => if offset + bytes.len() <= m.len() {
            m.take(offset as int) + bytes + m.skip(offset + bytes.len())
        } else {
            m
        },
        WriteOp::ZeroTail { len } => if len <= m.len() {
            m.take(m.len() - len) + zeros(len as nat)
        } else {
            m
        },
    }
}

/// The medium `m` after the writes `ws`, in order.
pub open spec fn after_writes(m: Seq<u8>, ws: Seq<WriteOp>) -> Seq<u8>
    decreases ws.len(),
{
    if ws.len() == 0 {
        m
    } else {
        after_write(after_writes(m, ws.drop_last()), ws.last())
    }
}

proof fn lemma_padlen_whole(k: nat, s: nat)
    requires
        s > 0,
        k % s == 0,
    ensures
        padlen(k, s) == k,
{
    let q = k / s;
    vstd::arithmetic::div_mod::lemma_fundamental_div_mod(k as int, s as int);
    assert(k == q * s) by (nonlinear_arith)
        requires
            k == s * q + k % s,
            k % s == 0,
    ;
    vstd::arithmetic::div_mod::lemma_fundamental_div_mod_converse(
        (k + s - 1) as int,
        s as int,
        q as int,
        (s - 1) as int,
    );
}

/// A length rounded up to whole sectors is at least the length, and a whole
/// number of sectors.
pub proof fn lemma_padlen_bounds(n: nat, s: nat)
    requires
        s > 0,
    ensures
        n <= padlen(n, s),
        padlen(n, s) % s == 0,
{
    let x = (n + s - 1) as nat;
    vstd::arithmetic::div_mod::lemma_fundamental_div_mod(x as int, s as int);
    vstd::arithmetic::div_mod::lemma_mod_pos_bound(x as int, s as int);
    vstd::arithmetic::div_mod::lemma_mod_multiples_basic((x / s) as int, s as int);
    assert((x / s) * s == s * (x / s)) by (nonlinear_arith);
}

/// Padding keeps the order of counts.
proof fn lemma_padlen_monotone(n: nat, m: nat, s: nat)
    requires
        s > 0,
        n <= m,
    ensures
        padlen(n, s) <= padlen(m, s),
{
    lemma_padlen_bounds(m, s);
    lemma_padlen_le(n, padlen(m, s), s);
}

/// Padding never passes a multiple of the sector size that the count stays within.
proof fn lemma_padlen_le(n: nat, m: nat, s: nat)
    requires
        s > 0,
        n <= m,
        m % s == 0,
    ensures
        padlen(n, s) <= m,
{
    let k = m / s;
    vstd::arithmetic::div_mod::lemma_fundamental_div_mod(m as int, s as int);
    assert(m == s * k);
    assert(n + s - 1 < s * (k + 1)) by (nonlinear_arith)
        requires
            n <= m,
            m == s * k,
            s > 0,
    ;
    vstd::arithmetic::div_mod::lemma_multiply_divide_lt((n + s - 1) as int, s as int, (k + 1) as int);
    assert(((n + s - 1) as nat) / s <= k);
    assert((((n + s - 1) as nat) / s) * s <= k * s) by (nonlinear_arith)
        requires
            ((n + s - 1) as nat) / s <= k,
    ;
    assert(k * s == m) by (nonlinear_arith)
        requires
            m == s * k,
    ;
}

proof fn lemma_padlen_shift(c: nat, k: nat, s: nat)
    requires
        s > 0,
        c % s == 0,
    ensures
        padlen(c + k, s) == c + padlen(k, s),
{
    let q = c / s;
    vstd::arithmetic::div_mod::lemma_fundamental_div_mod(c as int, s as int);
    assert(c == q * s) by (nonlinear_arith)
        requires
            c == s * q + c % s,
            c % s == 0,
    ;
    let x = (k + s - 1) as nat;
    let a = x / s;
    let r = x % s;
    vstd::arithmetic::div_mod::lemma_fundamental_div_mod(x as int, s as int);
    vstd::arithmetic::div_mod::lemma_mod_pos_bound(x as int, s as int);
    assert((c + x) as int == (q + a) * s + r) by (nonlinear_arith)
        requires
            c == q * s,
            x == s * a + r,
    ;
    vstd::arithmetic::div_mod::lemma_fundamental_div_mod_converse(
        (c + x) as int,
        s as int,
        (q + a) as int,
        r as int,
    );
    assert((q + a) * s == q * s + a * s) by (nonlinear_arith);
}

/// Pieces of whole sectors lie back to back and carry no padding.
proof fn lemma_lays_whole(ws: Seq<WriteOp>, d: Seq<u8>, start: int, s: nat, parts: Seq<nat>)
    requires
        lays(ws, d, start, s, parts),
        s > 0,
        forall|i: int| 0 <= i < parts.len() ==> #[trigger] parts[i] % s == 0,
    ensures
        d.len() % s == 0,
        flatten(ws) == d,
        end_of(ws, start) == start + d.len(),
    decreases ws.len(),
{
    if ws.len() == 0 {
        vstd::arithmetic::div_mod::lemma_small_mod(0, s);
    } else {
        let k = parts.last();
        let cut = (d.len() - k) as nat;
        let p0 = parts.drop_last();
        assert forall|i: int| 0 <= i < p0.len() implies #[trigger] p0[i] % s == 0 by {
            assert(p0[i] == parts[i]);
        }
        lemma_lays_whole(ws.drop_last(), d.take(cut as int), start, s, p0);
        assert(parts[parts.len() - 1] % s == 0);
        lemma_padlen_whole(k, s);
        assert(pad(d.skip(cut as int), s) =~= d.skip(cut as int));
        assert(d =~= d.take(cut as int) + d.skip(cut as int));
        assert(flatten(ws) =~= d.take(cut as int) + d.skip(cut as int));
        vstd::arithmetic::div_mod::lemma_add_mod_noop(cut as int, k as int, s as int);
        vstd::arithmetic::div_mod::lemma_small_mod(0, s);
    }
}

/// Packed pieces carry padding only at their very end.
proof fn lemma_lays_packed(ws: Seq<WriteOp>, d: Seq<u8>, start: int, s: nat, parts: Seq<nat>)
    requires
        lays(ws, d, start, s, parts),
        s > 0,
        whole_but_last(parts, s),
    ensures
        flatten(ws) == pad(d, s),
        end_of(ws, start) == start + padlen(d.len(), s),
{
    if ws.len() == 0 {
        vstd::arithmetic::div_mod::lemma_small_mod(0, s);
        lemma_padlen_whole(0, s);
        assert(pad(d, s) =~= d);
    } else {
        let k = parts.last();
        let cut = (d.len() - k) as nat;
        let p0 = parts.drop_last();
        assert forall|i: int| 0 <= i < p0.len() implies #[trigger] p0[i] % s == 0 by {
            assert(p0[i] == parts[i]);
        }
        lemma_lays_whole(ws.drop_last(), d.take(cut as int), start, s, p0);
        lemma_padlen_shift(cut, k, s);
        lemma_padlen_bounds(k, s);
        assert(d =~= d.take(cut as int) + d.skip(cut as int));
        assert(pad(d, s) =~= d.take(cut as int) + pad(d.skip(cut as int), s));
        assert(flatten(ws) =~= d.take(cut as int) + pad(d.skip(cut as int), s));
    }
}

/// Laid-out writes leave the front of the medium alone and put their bytes,
/// back to back, from `start` on.
proof fn lemma_after_lays(m: Seq<u8>, ws: Seq<WriteOp>, d: Seq<u8>, start: int, s: nat, parts: Seq<nat>)
    requires
        lays(ws, d, start, s, parts),
        0 <= start,
        end_of(ws, start) <= m.len(),
    ensures
        start <= end_of(ws, start),
        after_writes(m, ws).len() == m.len(),
        after_writes(m, ws).take(start) == m.take(start),
        after_writes(m, ws).subrange(start, end_of(ws, start)) == flatten(ws),
    decreases ws.len(),
{
    if ws.len() == 0 {
        assert(m.subrange(start, start) =~= Seq::<u8>::empty());
    } else {
        let w0 = ws.drop_last();
        let k = parts.last();
        let cut = (d.len() - k) as nat;
        let off = end_of(w0, start);
        let bytes = pad(d.skip(cut as int), s);
        assert(end_of(ws, start) == off + bytes.len());
        lemma_after_lays(m, w0, d.take(cut as int), start, s, parts.drop_last());
        let r0 = after_writes(m, w0);
        let r = after_writes(m, ws);
        assert(r =~= r0.take(off) + bytes + r0.skip(off + bytes.len()));
        assert(r.take(start) =~= r0.take(start));
        assert(r.subrange(start, off + bytes.len()) =~= r0.subrange(start, off) + bytes);
        assert(flatten(ws) =~= flatten(w0) + bytes);
    }
}

/// The front of a stream, which holds the image's partition table, is
/// written once and last: the last write goes to offset 0 and every write
/// before it lies past the held front.
pub proof fn law_front_is_written_last(ws: Seq<WriteOp>, data: Seq<u8>, s: nat, out: SinkOutcome)
    requires
        streamed(ws, data, s, out),
    ensures
        ws.last() matches WriteOp::Data { offset, .. } && offset == 0,
        forall|i: int|
            0 <= i < ws.len() - 1 ==> (#[trigger] ws[i] matches WriteOp::Data { offset, .. } && offset
                >= HOLDBACK),
{
    assert forall|i: int| 0 <= i < ws.len() - 1 implies (#[trigger] ws[i] matches WriteOp::Data {
        offset,
        ..
    } && offset >= HOLDBACK) by {
        assert(ws[i] == ws.drop_last()[i]);
    }
}

/// A stream that went through puts its data on a device that does what it
/// is told: the first `out.bytes` bytes of the device are the data padded
/// with zeros to whole sectors, whatever the device held before, and the
/// recorded digests are those of exactly these bytes. This holds when the
/// pieces are packed and the sector size divides the held front.
pub proof fn law_stream_places_the_image(
    ws: Seq<WriteOp>,
    data: Seq<u8>,
    s: nat,
    out: SinkOutcome,
    m: Seq<u8>,
)
    requires
        streamed(ws, data, s, out),
        packed(ws, data, s),
        s > 0,
        (HOLDBACK as nat) % s == 0,
        out.bytes <= m.len(),
    ensures
        out.bytes == padlen(data.len(), s),
        after_writes(m, ws).len() == m.len(),
        after_writes(m, ws).take(out.bytes as int) == pad(data, s),
        out.hash@ == sha256_of(pad(data, s)),
        digests(out.blocks@) == block_hashes(pad(data, s)),
{
    let n = data.len();
    let hl = held(n);
    let body = ws.drop_last();
    let rest = data.skip(hl as int);
    let parts = choose|parts: Seq<nat>|
        lays(body, rest, hl as int, s, parts) && whole_but_last(parts, s);
    lemma_lays_packed(body, rest, hl as int, s, parts);
    lemma_padlen_bounds(hl, s);
    let r = after_writes(m, body);
    assert(after_writes(m, ws) == after_write(r, ws.last()));
    if body.len() == 0 {
        assert(rest.len() == 0);
        assert(data.take(hl as int) =~= data);
        assert(tallied(data, hl, body, s) =~= pad(data, s));
        assert(after_writes(m, ws).take(out.bytes as int) =~= pad(data, s));
    } else {
        assert(hl == HOLDBACK);
        lemma_padlen_whole(HOLDBACK as nat, s);
        lemma_padlen_shift(HOLDBACK as nat, rest.len(), s);
        lemma_after_lays(m, body, rest, hl as int, s, parts);
        let front = data.take(hl as int);
        assert(pad(front, s) =~= front);
        assert(data =~= front + rest);
        assert(pad(data, s) =~= front + pad(rest, s));
        assert(tallied(data, hl, body, s) =~= pad(data, s));
        assert(after_writes(m, ws) =~= front + r.skip(hl as int));
        assert(after_writes(m, ws).take(out.bytes as int) =~= front + r.subrange(
            hl as int,
            out.bytes as int,
        ));
    }
}

/// Reading back a whole number of sectors, with blocks of whole sectors,
/// ends exactly at the end.
proof fn lemma_read_end_whole(pos: nat, bytes: nat, s: nat)
    requires
        s > 0,
        (BLOCK as nat) % s == 0,
        pos <= bytes,
        ((bytes - pos) as nat) % s == 0,
    ensures
        read_end(pos, bytes, s) == bytes,
    decreases bytes - pos,
{
    if pos < bytes {
        let left = if bytes - pos < BLOCK {
            (bytes - pos) as nat
        } else {
            BLOCK as nat
        };
        assert(left % s == 0);
        vstd::arithmetic::div_mod::lemma_fundamental_div_mod(left as int, s as int);
        assert((left / s) * s == left) by (nonlinear_arith)
            requires
                left == s * (left / s) + left % s,
                left % s == 0,
        ;
        assert(step(pos, bytes, s) == left);
        vstd::arithmetic::div_mod::lemma_sub_mod_noop((bytes - pos) as int, left as int, s as int);
        vstd::arithmetic::div_mod::lemma_small_mod(0, s);
        lemma_read_end_whole(pos + left, bytes, s);
    }
}

/// A read-back that passes against what a stream recorded has read the
/// image itself back: the device's first `out.bytes` bytes hash as the data
/// padded with zeros to whole sectors.
pub proof fn law_read_back_matches_the_image(
    ws: Seq<WriteOp>,
    data: Seq<u8>,
    s: nat,
    out: SinkOutcome,
    medium: Seq<u8>,
)
    requires
        streamed(ws, data, s, out),
        packed(ws, data, s),
        s > 0,
        (HOLDBACK as nat) % s == 0,
        reads_back(medium, out.bytes as nat, s, out.hash@, digests(out.blocks@)),
    ensures
        out.bytes <= medium.len(),
        sha256_of(medium.take(out.bytes as int)) == sha256_of(pad(data, s)),
{
    law_stream_places_the_image(ws, data, s, out, zeros(out.bytes as nat));
    lemma_padlen_bounds(data.len(), s);
    lemma_read_end_whole(0, out.bytes as nat, s);
}

/// Zeroing the tail spares the image: the write that [`zero_tail`] makes
/// leaves the first `written` bytes of the device as they were, and zeroes
/// at most the last [`TAIL_ZERO`] bytes.
pub proof fn law_tail_zeroing_spares_the_image(m: Seq<u8>, written: u64)
    requires
        written <= m.len() <= u64::MAX,
    ensures
        ({
            let cap = m.len() as u64;
            let t = tail_start(cap, written);
            &&& written <= t
            &&& t < cap ==> (cap - t) <= TAIL_ZERO
            &&& t < cap ==> after_write(m, WriteOp::ZeroTail { len: (cap - t) as u64 }).take(
                written as int,
            ) == m.take(written as int)
            &&& t < cap ==> after_write(m, WriteOp::ZeroTail { len: (cap - t) as u64 }).skip(t as int)
                == zeros((cap - t) as nat)
        }),
{
    let cap = m.len() as u64;
    let t = tail_start(cap, written);
    if t < cap {
        let r = after_write(m, WriteOp::ZeroTail { len: (cap - t) as u64 });
        assert(r =~= m.take(t as int) + zeros((cap - t) as nat));
        assert(r.take(written as int) =~= m.take(written as int));
        assert(r.skip(t as int) =~= zeros((cap - t) as nat));
    }
}

} // verus!

//! A source device as a byte stream.
//!
//! With this adapter cloning needs no write path of its own: to the sink a
//! source stick is indistinguishable from a decompressed download, so the
//! holdback, padding, digests, cancellation and progress all carry over.
use crate::device::{ByteSource, ReadSession};
use crate::device::debug_text;
use vstd::prelude::*;

verus! {

/// Streams a source session from the front up to `limit` bytes.
pub struct SessionReader<R: ReadSession> {
    session: R,
    /// Next position to read on the device.
    pos: u64,
    /// Nothing past this is streamed.
    limit: u64,
    buf: Vec<u8>,
    start: usize,
    end: usize,
    /// Every byte handed out so far.
    handed: Ghost<Seq<u8>>,
}

impl<R: ReadSession> SessionReader<R> {
    pub closed spec fn session_spec(&self) -> R {
        self.session
    }

    pub closed spec fn limit_spec(&self) -> u64 {
        self.limit
    }

    pub closed spec fn chunk_spec(&self) -> nat {
        self.buf@.len()
    }

    /// Bytes read from the device and not yet handed out.
    pub closed spec fn buffered(&self) -> nat {
        (self.end - self.start) as nat
    }

    /// Whether the next read has to go to the device: nothing is buffered
    /// and the limit is not reached.
    pub open spec fn needs_refill(&self) -> bool {
        self.buffered() == 0 && self.produced().len() < self.limit_spec()
    }

    /// How many bytes the next read fetches from the device: a chunk, or
    /// less where the limit comes first.
    pub open spec fn refill(&self) -> nat {
        if self.needs_refill() {
            if self.chunk_spec() < self.limit_spec() - self.produced().len() {
                self.chunk_spec()
            } else {
                (self.limit_spec() - self.produced().len()) as nat
            }
        } else {
            0
        }
    }

    /// How many bytes the next read hands out into `room` free places.
    pub open spec fn next_count(&self, room: nat) -> nat {
        let avail = if self.buffered() > 0 {
            self.buffered()
        } else {
            self.refill()
        };
        if room < avail {
            room
        } else {
            avail
        }
    }

    /// The reader's own consistency: what is buffered is the device's bytes
    /// right before `pos`, and nothing past `limit` was read.
    pub closed spec fn wf(&self) -> bool {
        &&& self.start <= self.end <= self.buf@.len()
        &&& self.end - self.start <= self.pos <= self.limit
        &&& self.pos <= self.session.contents().len()
        &&& self.buf@.subrange(self.start as int, self.end as int) == self.session.contents().subrange(
            self.pos - (self.end - self.start),
            self.pos as int,
        )
        &&& self.handed@ == self.session.contents().take(self.pos - (self.end - self.start))
        &&& self.buf@.len() > 0 || self.limit == 0
    }

    /// `limit` and `chunk` must be multiples of the session's sector size, or
    /// the device refuses the reads as unaligned.
    pub fn new(session: R, limit: u64, chunk: usize) -> (r: Self)
        ensures
            chunk > 0 || limit == 0 ==> r.wf() && r.inv(),
            r.faithful(),
            r.origin() == if limit <= session.contents().len() {
                session.contents().take(limit as int)
            } else {
                Seq::empty()
            },
            r.session_spec() == session,
            r.limit_spec() == limit,
            r.chunk_spec() == chunk,
            r.produced() == Seq::<u8>::empty(),
            session.reliable() && session.view_sector() > 0 && (limit as nat) % (
            session.view_sector() as nat) == 0 && (chunk as nat) % (session.view_sector() as nat)
                == 0 && limit <= session.contents().len() ==> r.never_fails(),
    {
        proof {
            if session.view_sector() > 0 {
                vstd::arithmetic::div_mod::lemma_small_mod(0, session.view_sector() as nat);
            }
        }
        let r = SessionReader {
            session,
            pos: 0,
            limit,
            buf: vec![0u8; chunk],
            start: 0,
            end: 0,
            handed: Ghost(Seq::empty()),
        };
        proof {
            assert(r.buf@.subrange(0, 0) =~= r.session.contents().subrange(0, 0));
            assert(r.session.contents().take(0) =~= Seq::<u8>::empty());
        }
        r
    }

    /// Gives the source session back, to close it.
    pub fn into_session(self) -> (r: R)
        ensures
            r == self.session_spec(),
            self.never_fails() ==> r.reliable(),
    {
        self.session
    }

    /// Reads into the front of `out`.
    pub fn read(&mut self, out: &mut [u8]) -> (r: Result<usize, String>)
        requires
            old(self).wf(),
        ensures
            final(self).wf(),
            final(self).session_spec().contents() == old(self).session_spec().contents(),
            final(self).limit_spec() == old(self).limit_spec(),
            final(self).chunk_spec() == old(self).chunk_spec(),
            final(out)@.len() == old(out)@.len(),
            final(self).produced() == old(self).session_spec().contents().take(
                final(self).produced().len() as int,
            ),
            r matches Ok(n) ==> n <= old(out)@.len() && final(self).produced() == old(self).produced()
                + final(out)@.take(n as int),
            r matches Ok(n) ==> (n == 0 <==> (old(out)@.len() == 0 || old(self).produced().len()
                == old(self).limit_spec() || old(self).chunk_spec() == 0)),
            r matches Ok(n) ==> n == old(self).next_count(old(out)@.len()),
            r is Ok ==> final(self).produced().len() + final(self).buffered() == old(
                self,
            ).produced().len() + old(self).buffered() + old(self).refill(),
            !old(self).needs_refill() ==> r is Ok,
            r is Err ==> old(self).needs_refill() && final(self).produced() == old(self).produced()
                && final(self).buffered() == 0,
    {
        proof {
            assert(out@.take(0) =~= Seq::<u8>::empty());
        }
        let r = self.read_into(out, 0);
        proof {
            if let Ok(n) = r {
                assert(out@.subrange(0, n as int) =~= out@.take(n as int));
            }
        }
        r
    }

    /// Reads everything left, up to the limit, onto the end of `out`.
    pub fn read_to_end(&mut self, out: &mut Vec<u8>) -> (r: Result<usize, String>)
        requires
            old(self).wf(),
            old(out)@.len() + old(self).limit_spec() <= usize::MAX,
        ensures
            final(self).wf(),
            final(self).session_spec().contents() == old(self).session_spec().contents(),
            final(self).limit_spec() == old(self).limit_spec(),
            final(self).produced() == old(self).session_spec().contents().take(
                final(self).produced().len() as int,
            ),
            r matches Ok(n) ==> final(out)@ == old(out)@ + final(self).produced().skip(
                old(self).produced().len() as int,
            ) && n == final(self).produced().len() - old(self).produced().len(),
            r is Ok && old(self).chunk_spec() > 0 ==> final(self).produced().len()
                == final(self).limit_spec(),
            old(self).produced().len() + old(self).buffered() >= old(self).limit_spec() ==> r is Ok,
            r is Err ==> old(self).produced().len() + old(self).buffered() < old(self).limit_spec(),
    {
        let mut tmp: Vec<u8> = vec![0u8; 4096];
        let mut total: usize = 0;
        let ghost p0 = self.produced();
        loop
            invariant
                self.wf(),
                self.session.contents() == old(self).session.contents(),
                self.limit == old(self).limit,
                self.buf@.len() == old(self).buf@.len(),
                tmp@.len() == 4096,
                self.produced().len() >= p0.len(),
                self.produced().take(p0.len() as int) == p0,
                self.produced() == old(self).session.contents().take(self.produced().len() as int),
                out@ == old(out)@ + self.produced().skip(p0.len() as int),
                total == self.produced().len() - p0.len(),
                self.produced().len() <= self.limit,
                old(out)@.len() + self.limit <= usize::MAX,
                p0 == old(self).produced(),
                p0.len() + old(self).buffered() >= self.limit ==> self.produced().len()
                    + self.buffered() == p0.len() + old(self).buffered(),
            ensures
                self.buf@.len() > 0 ==> self.produced().len() == self.limit,
            decreases self.limit - self.produced().len(),
        {
            let ghost before = self.produced();
            match self.read(tmp.as_mut_slice()) {
                Ok(0) => {
                    proof {
                        assert(tmp@.take(0) =~= Seq::<u8>::empty());
                        assert(self.produced() =~= before);
                    }
                    break;
                },
                Ok(n) => {
                    let mut k: usize = 0;
                    let ghost o0 = out@;
                    while k < n
                        invariant
                            k <= n <= tmp@.len(),
                            out@ == o0 + tmp@.take(k as int),
                        decreases n - k,
                    {
                        out.push(tmp[k]);
                        k += 1;
                        proof {
                            assert(tmp@.take(k as int) =~= tmp@.take((k - 1) as int).push(
                                tmp@[k - 1],
                            ));
                            assert(out@ =~= o0 + tmp@.take(k as int));
                        }
                    }
                    proof {
                        assert(self.produced().take(p0.len() as int) =~= p0);
                        assert(self.produced().skip(p0.len() as int) =~= before.skip(p0.len() as int)
                            + tmp@.take(n as int));
                        assert(out@ =~= old(out)@ + self.produced().skip(p0.len() as int));
                    }
                    total = total + n;
                },
                Err(e) => {
                    return Err(e);
                },
            }
        }
        proof {
            assert(self.produced().skip(p0.len() as int).len() == total);
        }
        Ok(total)
    }
}

/// A consistent reader that has handed out everything up to its limit has
/// handed out exactly the device's first `limit` bytes.
pub proof fn lemma_reader_done<R: ReadSession>(r: SessionReader<R>)
    requires
        r.inv(),
        r.ended(),
    ensures
        r.produced() == r.origin(),
        r.produced().len() == r.limit_spec(),
{
}

/// Read to its limit, a source yields exactly the device's first `limit`
/// bytes, when the device holds that many.
pub proof fn law_reader_yields_the_front<R: ReadSession>(r: SessionReader<R>)
    requires
        r.inv(),
        r.ended(),
        r.limit_spec() <= r.session_spec().contents().len(),
    ensures
        r.produced() == r.session_spec().contents().take(r.limit_spec() as int),
{
    lemma_reader_done(r);
}

impl<R: ReadSession> ByteSource for SessionReader<R> {
    closed spec fn faithful(&self) -> bool {
        true
    }

    /// Every byte handed out: the device's bytes up to `pos`, minus what is
    /// still buffered.
    closed spec fn produced(&self) -> Seq<u8> {
        self.handed@
    }

    /// Everything up to the limit was handed out.
    closed spec fn ended(&self) -> bool {
        self.handed@.len() == self.limit
    }

    closed spec fn inv(&self) -> bool {
        self.wf()
    }

    /// Every read succeeds when the session's reads do and every read it
    /// makes is of whole sectors within the device.
    closed spec fn never_fails(&self) -> bool {
        let s = self.session.view_sector() as nat;
        &&& self.session.reliable()
        &&& s > 0
        &&& (self.limit as nat) % s == 0
        &&& self.buf@.len() % s == 0
        &&& (self.pos as nat) % s == 0
        &&& self.limit <= self.session.contents().len()
    }

    proof fn lemma_ended_gives_origin(&self) {
        if self.inv() && self.ended() {
            lemma_reader_done(*self);
        }
    }

    proof fn lemma_produced_is_front(&self) {
        if self.inv() && self.never_fails() {
            let k = self.pos - (self.end - self.start);
            assert(self.handed@ =~= self.session.contents().take(self.limit as int).take(k as int));
        }
    }

    /// The device's bytes up to the limit.
    closed spec fn origin(&self) -> Seq<u8> {
        if self.limit <= self.session.contents().len() {
            self.session.contents().take(self.limit as int)
        } else {
            Seq::empty()
        }
    }

    fn read_into(&mut self, out: &mut [u8], at: usize) -> (r: Result<usize, String>)
        ensures
            final(self).wf(),
            final(self).session_spec().contents() == old(self).session_spec().contents(),
            final(self).limit_spec() == old(self).limit_spec(),
            final(self).chunk_spec() == old(self).chunk_spec(),
            r matches Ok(n) ==> (n == 0 <==> (old(out)@.len() == at || old(self).produced().len()
                == old(self).limit_spec() || old(self).chunk_spec() == 0)),
            r matches Ok(n) ==> n == old(self).next_count((old(out)@.len() - at) as nat),
            r is Ok ==> final(self).produced().len() + final(self).buffered() == old(
                self,
            ).produced().len() + old(self).buffered() + old(self).refill(),
            !old(self).needs_refill() ==> r is Ok,
            r is Err ==> old(self).needs_refill() && final(self).produced() == old(self).produced()
                && final(self).buffered() == 0,
    {
        let ghost ok = self.wf();
        let ghost nf = self.never_fails();
        let ghost c = self.session.contents();
        if self.start == self.end {
            if self.pos >= self.limit {
                proof {
                    assert(out@.subrange(at as int, at as int) =~= Seq::<u8>::empty());
                    assert(self.produced() + Seq::<u8>::empty() =~= self.produced());
                }
                return Ok(0);
            }
            // Only what is left up to the limit; a multiple of the sector size.
            let left = self.limit - self.pos;
            let blen = self.buf.len();
            let n: usize = if (blen as u64) < left {
                blen
            } else {
                left as usize
            };
            let mut piece: Vec<u8> = vec![0u8; n];
            proof {
                if self.never_fails() {
                    let s = self.session.view_sector() as int;
                    vstd::arithmetic::div_mod::lemma_sub_mod_noop(
                        self.limit as int,
                        self.pos as int,
                        s,
                    );
                    assert((self.limit as int) % s == 0);
                    assert((self.pos as int) % s == 0);
                    vstd::arithmetic::div_mod::lemma_small_mod(0, s as nat);
                    assert((self.limit as int - self.pos as int) % s == 0);
                    assert((left as int) % s == 0);
                    if (blen as u64) < left {
                        assert(n == blen);
                        assert((blen as int) % s == 0);
                    } else {
                        assert(n as int == left as int);
                    }
                    assert((n as int) % s == 0);
                    vstd::arithmetic::div_mod::lemma_add_mod_noop(self.pos as int, n as int, s);
                    assert((self.pos as int + n as int) % s == 0);
                    assert(self.pos + n <= self.limit);
                }
            }
            match self.session.read_at(self.pos, piece.as_mut_slice()) {
                Ok(()) => {},
                Err(e) => {
                    proof {
                        if ok {
                            assert(self.buf@.subrange(self.start as int, self.end as int)
                                =~= c.subrange(self.pos as int, self.pos as int));
                        }
                    }
                    return Err(debug_text(&e));
                },
            }
            proof {
                assert(piece@ == c.subrange(self.pos as int, self.pos + n));
            }
            let ghost pos0 = self.pos;
            let mut k: usize = 0;
            while k < n
                invariant
                    k <= n <= self.buf@.len(),
                    self.buf@.len() == blen,
                    piece@.len() == n,
                    forall|j: int| 0 <= j < k ==> #[trigger] self.buf@[j] == piece@[j],
                    self.session.contents() == c,
                    self.session.view_sector() == old(self).session.view_sector(),
                    self.session.reliable() == old(self).session.reliable(),
                    self.pos == pos0,
                    self.limit == old(self).limit,
                    self.handed == old(self).handed,
                    self.start == old(self).start,
                    self.end == old(self).end,
                decreases n - k,
            {
                let v = piece[k];
                self.buf.set(k, v);
                k += 1;
            }
            proof {
                assert(self.buf@.subrange(0, n as int) =~= piece@);
            }
            self.pos = self.pos + n as u64;
            self.start = 0;
            self.end = n;
            proof {
                if ok {
                    assert(c.take(pos0 as int) == self.handed@);
                }
                if nf {
                    let s = self.session.view_sector() as int;
                    vstd::arithmetic::div_mod::lemma_sub_mod_noop(
                        self.limit as int,
                        pos0 as int,
                        s,
                    );
                    vstd::arithmetic::div_mod::lemma_small_mod(0, s as nat);
                    if (blen as u64) >= left {
                        assert((n as int) % s == 0);
                    }
                    vstd::arithmetic::div_mod::lemma_add_mod_noop(pos0 as int, n as int, s);
                    assert((self.pos as int) % s == 0) by {
                        assert(((pos0 as int) % s + (n as int) % s) % s == 0);
                    }
                    assert(self.never_fails());
                }
            }
        }
        let room = out.len() - at;
        let avail = self.end - self.start;
        let n = if room < avail {
            room
        } else {
            avail
        };
        let ghost base = self.pos - (self.end - self.start);
        let mut k: usize = 0;
        while k < n
            invariant
                k <= n,
                at + n <= out@.len(),
                out@.len() <= usize::MAX,
                out@.len() == old(out)@.len(),
                out@.take(at as int) == old(out)@.take(at as int),
                self.start + n <= self.end <= self.buf@.len(),
                forall|j: int| at <= j < at + k ==> #[trigger] out@[j] == self.buf@[self.start + j - at],
            decreases n - k,
        {
            out[at + k] = self.buf[self.start + k];
            k += 1;
            proof {
                assert(out@.take(at as int) =~= old(out)@.take(at as int));
            }
        }
        proof {
            assert(out@.subrange(at as int, at + n) =~= self.buf@.subrange(
                self.start as int,
                self.start + n,
            ));
            if ok {
                let len = self.end - self.start;
                assert forall|j: int| 0 <= j < len implies #[trigger] self.buf@[self.start + j]
                    == c[base + j] by {
                    assert(self.buf@.subrange(self.start as int, self.end as int)[j] == c.subrange(
                        base,
                        self.pos as int,
                    )[j]);
                }
                assert(self.buf@.subrange(self.start as int, self.start + n) =~= c.subrange(
                    base,
                    base + n,
                ));
                assert(c.take(base + n) =~= c.take(base) + c.subrange(base, base + n));
                assert forall|i: int| 0 <= i < len - n implies #[trigger] self.buf@.subrange(
                    (self.start + n) as int,
                    self.end as int,
                )[i] == c.subrange(base + n, self.pos as int)[i] by {
                    assert(self.buf@[self.start + (n + i)] == c[base + (n + i)]);
                }
                assert(self.buf@.subrange((self.start + n) as int, self.end as int) =~= c.subrange(
                    base + n,
                    self.pos as int,
                ));
            }
        }
        self.handed = Ghost(self.handed@ + out@.subrange(at as int, at + n));
        self.start = self.start + n;
        Ok(n)
    }
}

} // verus!

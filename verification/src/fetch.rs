//! The decisions of a download that resumes where it broke off.
//!
//! The transfer itself is done by the caller; what is decided here is which
//! answer of the server can be used, when what was received must be dropped,
//! when the file is complete, and when to give up.
//!
//! Without these rules a one-second Wi-Fi drop throws away 1.2 GB already
//! received, and a misbehaving cache gets a whole file spliced onto half of
//! one. Every rule below stops one of those.
use crate::checksum::{is_ws, is_ws_exec};
use crate::text::{chars_of, dec, push_dec, push_str, starts_with};
use vstd::prelude::*;

verus! {

// ---------------------------------------------------------------------------
// Parsing `Content-Range`

/// `s` without its leading white space, as `str::trim_start` gives it.
pub open spec fn trim_start(s: Seq<char>) -> Seq<char>
    decreases s.len(),
{
    if s.len() > 0 && is_ws(s[0]) {
        trim_start(s.skip(1))
    } else {
        s
    }
}

/// `s` without its trailing white space, as `str::trim_end` gives it.
pub open spec fn trim_end(s: Seq<char>) -> Seq<char>
    decreases s.len(),
{
    if s.len() > 0 && is_ws(s.last()) {
        trim_end(s.drop_last())
    } else {
        s
    }
}

/// `s` without white space at either end, as `str::trim` gives it.
pub open spec fn trim(s: Seq<char>) -> Seq<char> {
    trim_end(trim_start(s))
}

/// The first position of `c` in `s` from `i` on.
pub open spec fn find_from(s: Seq<char>, c: char, i: nat) -> Option<nat>
    decreases s.len() - i,
{
    if i >= s.len() {
        None
    } else if s[i as int] == c {
        Some(i)
    } else {
        find_from(s, c, i + 1)
    }
}

/// Whether every character is an ASCII decimal digit.
pub open spec fn all_digits(d: Seq<char>) -> bool {
    forall|i: int| 0 <= i < d.len() ==> '0' <= #[trigger] d[i] && d[i] <= '9'
}

/// The value of decimal digits.
pub open spec fn dec_value(d: Seq<char>) -> nat
    decreases d.len(),
{
    if d.len() == 0 {
        0
    } else {
        dec_value(d.drop_last()) * 10 + ((d.last() as nat) - ('0' as nat)) as nat
    }
}

/// What `u64::from_str` gives: an optional `+`, then at least one decimal
/// digit, for a value that fits.
pub open spec fn parse_u64_spec(s: Seq<char>) -> Option<u64> {
    let d = if s.len() > 0 && s[0] == '+' {
        s.skip(1)
    } else {
        s
    };
    if d.len() > 0 && all_digits(d) && dec_value(d) <= u64::MAX {
        Some(dec_value(d) as u64)
    } else {
        None
    }
}

/// What [`parse_content_range`] reads from a `Content-Range` value.
pub open spec fn content_range_spec(v: Seq<char>) -> Option<(u64, Option<u64>)> {
    let t = trim(v);
    if !starts_with(t, "bytes"@) {
        None
    } else {
        let rest = trim_start(t.skip("bytes"@.len() as int));
        match find_from(rest, '/', 0) {
            None => None,
            Some(i) => {
                let range = rest.take(i as int);
                let first = match find_from(range, '-', 0) {
                    Some(j) => range.take(j as int),
                    None => range,
                };
                match parse_u64_spec(trim(first)) {
                    None => None,
                    Some(start) => Some((start, parse_u64_spec(trim(rest.skip(i + 1 as int))))),
                }
            },
        }
    }
}

proof fn lemma_find_skips(s: Seq<char>, c: char, i: nat)
    requires
        i <= s.len(),
        forall|j: int| 0 <= j < i ==> s[j] != c,
    ensures
        find_from(s, c, 0) == find_from(s, c, i),
    decreases i,
{
    if i > 0 {
        lemma_find_skips(s, c, (i - 1) as nat);
    }
}

proof fn lemma_find_found(s: Seq<char>, c: char, i: nat)
    requires
        find_from(s, c, 0) == Some(i),
    ensures
        i < s.len(),
        s[i as int] == c,
        forall|j: int| 0 <= j < i ==> s[j] != c,
{
    lemma_find_result(s, c, 0);
}

proof fn lemma_find_result(s: Seq<char>, c: char, k: nat)
    ensures
        find_from(s, c, k) matches Some(i) ==> k <= i < s.len() && s[i as int] == c && forall|j: int|
            k <= j < i ==> s[j] != c,
        find_from(s, c, k) is None ==> forall|j: int| k <= j < s.len() ==> s[j] != c,
    decreases s.len() - k,
{
    if k < s.len() {
        lemma_find_result(s, c, k + 1);
    }
}

fn find_char(s: &Vec<char>, c: char) -> (r: Option<usize>)
    ensures
        match r {
            Some(i) => find_from(s@, c, 0) == Some(i as nat),
            None => find_from(s@, c, 0) is None,
        },
{
    let mut i: usize = 0;
    while i < s.len()
        invariant
            i <= s@.len(),
            forall|j: int| 0 <= j < i ==> s@[j] != c,
        decreases s@.len() - i,
    {
        if s[i] == c {
            proof {
                lemma_find_skips(s@, c, i as nat);
            }
            return Some(i);
        }
        i += 1;
    }
    proof {
        lemma_find_skips(s@, c, i as nat);
    }
    None
}

fn copy_range(s: &Vec<char>, a: usize, b: usize) -> (r: Vec<char>)
    requires
        a <= b <= s@.len(),
    ensures
        r@ == s@.subrange(a as int, b as int),
{
    let mut r: Vec<char> = Vec::new();
    let mut k: usize = a;
    while k < b
        invariant
            a <= k <= b <= s@.len(),
            r@ == s@.subrange(a as int, k as int),
        decreases b - k,
    {
        r.push(s[k]);
        k += 1;
        proof {
            assert(r@ =~= s@.subrange(a as int, k as int));
        }
    }
    r
}

proof fn lemma_trim_start_step(s: Seq<char>, i: int)
    requires
        0 <= i < s.len(),
        is_ws(s[i]),
    ensures
        trim_start(s.skip(i)) == trim_start(s.skip(i + 1)),
{
    assert(s.skip(i).skip(1) =~= s.skip(i + 1));
}

proof fn lemma_trim_end_step(s: Seq<char>, j: int)
    requires
        0 < j <= s.len(),
        is_ws(s[j - 1]),
    ensures
        trim_end(s.take(j)) == trim_end(s.take(j - 1)),
{
    assert(s.take(j).drop_last() =~= s.take(j - 1));
}

pub fn trim_chars(s: &Vec<char>) -> (r: Vec<char>)
    ensures
        r@ == trim(s@),
{
    proof {
        assert(s@.skip(0) =~= s@);
    }
    let mut i: usize = 0;
    while i < s.len() && is_ws_exec(s[i])
        invariant
            i <= s@.len(),
            trim_start(s@) == trim_start(s@.skip(i as int)),
        decreases s@.len() - i,
    {
        proof {
            lemma_trim_start_step(s@, i as int);
        }
        i += 1;
    }
    proof {
        assert(s@.skip(0) =~= s@);
    }
    let t = copy_range(s, i, s.len());
    proof {
        assert(t@ =~= s@.skip(i as int));
        assert(trim_start(s@) == t@);
    }
    proof {
        assert(t@.take(t@.len() as int) =~= t@);
    }
    let mut j: usize = t.len();
    while j > 0 && is_ws_exec(t[j - 1])
        invariant
            j <= t@.len(),
            trim_end(t@) == trim_end(t@.take(j as int)),
        decreases j,
    {
        proof {
            lemma_trim_end_step(t@, j as int);
        }
        j -= 1;
    }
    proof {
        assert(t@.take(t@.len() as int) =~= t@);
    }
    let r = copy_range(&t, 0, j);
    proof {
        assert(r@ =~= t@.take(j as int));
    }
    r
}

proof fn lemma_dec_value_push(x: Seq<char>, c: char)
    ensures
        dec_value(x.push(c)) == dec_value(x) * 10 + ((c as nat) - ('0' as nat)) as nat,
{
    assert(x.push(c).drop_last() =~= x);
}

/// Appending digits never lowers the value.
proof fn lemma_dec_value_grows(d: Seq<char>, k: int)
    requires
        0 <= k <= d.len(),
        all_digits(d),
    ensures
        dec_value(d.take(k)) <= dec_value(d),
    decreases d.len() - k,
{
    if k < d.len() {
        lemma_dec_value_grows(d, k + 1);
        assert(d.take(k + 1).drop_last() =~= d.take(k));
        assert('0' <= d[k] <= '9');
    } else {
        assert(d.take(k) =~= d);
    }
}

fn parse_u64_chars(s: &Vec<char>) -> (r: Option<u64>)
    ensures
        r == parse_u64_spec(s@),
{
    let start: usize = if s.len() > 0 && s[0] == '+' {
        1
    } else {
        0
    };
    let ghost d = s@.skip(start as int);
    proof {
        assert(d =~= (if s@.len() > 0 && s@[0] == '+' {
            s@.skip(1)
        } else {
            s@
        }));
        assert(s@.subrange(start as int, start as int) =~= Seq::<char>::empty());
    }
    if start == s.len() {
        return None;
    }
    let mut acc: u64 = 0;
    let mut k: usize = start;
    while k < s.len()
        invariant
            start <= k <= s@.len(),
            start < s@.len(),
            d == s@.skip(start as int),
            d == (if s@.len() > 0 && s@[0] == '+' {
                s@.skip(1)
            } else {
                s@
            }),
            all_digits(s@.subrange(start as int, k as int)),
            acc as nat == dec_value(s@.subrange(start as int, k as int)),
        decreases s@.len() - k,
    {
        let c = s[k];
        if !('0' <= c && c <= '9') {
            proof {
                assert(d[k - start] == c);
            }
            return None;
        }
        let v: u64 = ((c as u32) - ('0' as u32)) as u64;
        let ghost before = s@.subrange(start as int, k as int);
        proof {
            lemma_dec_value_push(before, c);
            assert(s@.subrange(start as int, k + 1) =~= before.push(c));
        }
        if acc > (u64::MAX - v) / 10 {
            proof {
                assert(acc * 10 + v > u64::MAX) by (nonlinear_arith)
                    requires
                        acc > (u64::MAX - v) / 10,
                        v <= 9,
                ;
                let pre = s@.subrange(start as int, k + 1);
                if all_digits(d) {
                    assert(d.take(k + 1 - start) =~= pre);
                    lemma_dec_value_grows(d, k + 1 - start);
                }
            }
            return None;
        }
        acc = acc * 10 + v;
        k += 1;
    }
    proof {
        assert(s@.subrange(start as int, k as int) =~= d);
    }
    Some(acc)
}

/// Reads `bytes 40000-99999/100000` into (start, whole size).
///
/// Some servers write the whole size as `*`: that one is None. Without a
/// start the answer cannot be used, and the whole value is None.
pub fn parse_content_range(v: &str) -> (r: Option<(u64, Option<u64>)>)
    ensures
        r == content_range_spec(v@),
{
    let all = chars_of(v);
    let t = trim_chars(&all);
    let prefix = chars_of("bytes");
    if !crate::text::seq_starts_with(t.as_slice(), prefix.as_slice()) {
        return None;
    }
    let after = copy_range(&t, prefix.len(), t.len());
    proof {
        assert(after@ =~= t@.skip("bytes"@.len() as int));
    }
    proof {
        assert(after@.skip(0) =~= after@);
    }
    let mut i: usize = 0;
    while i < after.len() && is_ws_exec(after[i])
        invariant
            i <= after@.len(),
            trim_start(after@) == trim_start(after@.skip(i as int)),
        decreases after@.len() - i,
    {
        proof {
            lemma_trim_start_step(after@, i as int);
        }
        i += 1;
    }
    proof {
        assert(after@.skip(0) =~= after@);
    }
    let rest = copy_range(&after, i, after.len());
    proof {
        assert(rest@ =~= after@.skip(i as int));
    }
    let slash = match find_char(&rest, '/') {
        Some(k) => k,
        None => {
            return None;
        },
    };
    proof {
        lemma_find_found(rest@, '/', slash as nat);
    }
    let range = copy_range(&rest, 0, slash);
    let len = copy_range(&rest, slash + 1, rest.len());
    proof {
        assert(range@ =~= rest@.take(slash as int));
        assert(len@ =~= rest@.skip(slash + 1));
    }
    let first = match find_char(&range, '-') {
        Some(j) => {
            proof {
                lemma_find_found(range@, '-', j as nat);
            }
            let f = copy_range(&range, 0, j);
            proof {
                assert(f@ =~= range@.take(j as int));
            }
            f
        },
        None => range,
    };
    let start = match parse_u64_chars(&trim_chars(&first)) {
        Some(n) => n,
        None => {
            return None;
        },
    };
    let whole = parse_u64_chars(&trim_chars(&len));
    Some((start, whole))
}

// ---------------------------------------------------------------------------
// Judging the server's answers

/// Attempts in a row that may get no further before giving up.
///
/// This counts fruitless attempts, not breaks: on a line that drops every
/// 200 MB each attempt resumes and moves on, and counting breaks would give
/// up on the fifth and drop the gigabyte already received.
pub const MAX_FRUITLESS: u32 = 5;

/// Attempts in all. Progress revives the budget above; this only stops a
/// server that misbehaves for ever.
pub const MAX_ATTEMPTS: u32 = 60;

/// How many attempts were made, the furthest length ever reached, and how
/// many attempts in a row got no further than that.
///
/// The furthest length, not the current one: an unusable answer is dropped
/// and fetched again, and going back and forth over one stretch is no
/// progress.
pub struct Budget {
    pub attempt: u32,
    pub best: u64,
    pub fruitless: u32,
}

impl Budget {
    pub fn new() -> (r: Budget)
        ensures
            r.attempt == 0 && r.best == 0 && r.fruitless == 0,
    {
        Budget { attempt: 0, best: 0, fruitless: 0 }
    }

    /// Whether another attempt may start.
    pub fn may_try(&self) -> (r: bool)
        ensures
            r == (self.attempt < MAX_ATTEMPTS && self.fruitless < MAX_FRUITLESS),
    {
        self.attempt < MAX_ATTEMPTS && self.fruitless < MAX_FRUITLESS
    }

    /// Whether to pause before the attempt: before every attempt but the
    /// first, also after a connection that failed outright. Without it five
    /// attempts burn out in a few milliseconds of a Wi-Fi drop.
    pub fn should_wait(&self) -> (r: bool)
        ensures
            r == (self.attempt > 0),
    {
        self.attempt > 0
    }

    /// Closes an attempt that left `have` bytes received.
    pub fn record(&mut self, have: u64)
        requires
            old(self).attempt < MAX_ATTEMPTS,
            old(self).fruitless < MAX_FRUITLESS,
        ensures
            final(self).attempt == old(self).attempt + 1,
            have > old(self).best ==> final(self).best == have && final(self).fruitless == 0,
            have <= old(self).best ==> final(self).best == old(self).best && final(self).fruitless
                == old(self).fruitless + 1,
    {
        self.attempt = self.attempt + 1;
        if have > self.best {
            self.best = have;
            self.fruitless = 0;
        } else {
            self.fruitless = self.fruitless + 1;
        }
    }
}

/// What to do with an answer of the server.
#[derive(Debug, PartialEq, Eq)]
pub enum Reply {
    /// The download fails with this message.
    Fail(String),
    /// Read the body; drop what was received first when `restart`. `total`
    /// is the whole file's size, when known.
    Take { restart: bool, total: Option<u64> },
    /// Do not read the body; try again, dropping what was received first
    /// when `restart`.
    Retry { reason: String, restart: bool },
}

/// The message of an answer with a status other than 200 or 206.
pub open spec fn status_message(status: u16) -> Seq<char> {
    "내려받기에 실패했습니다 (HTTP "@ + dec(status as nat) + ")"@
}

/// The message of a 206 that starts elsewhere than asked.
pub open spec fn misplaced_message(start: u64, have: u64) -> Seq<char> {
    "서버가 "@ + dec(start as nat) + " 바이트부터 보냈습니다 (요청한 자리: "@ + dec(have as nat) + ")"@
}

/// What `judge_reply` answers to `status`, the `Content-Range` text `cr`, the
/// `Content-Length` and the `have` bytes already received.
pub open spec fn judged(
    status: u16,
    cr: Option<Seq<char>>,
    content_length: Option<u64>,
    have: u64,
    r: Reply,
) -> bool {
    &&& (status != 200 && status != 206 ==> (r matches Reply::Fail(m) && m@ == status_message(status)))
    &&& (status == 200 ==> r == (Reply::Take { restart: true, total: content_length }))
    &&& (status == 206 ==> match cr {
            None => r matches Reply::Retry { reason, restart } && !restart && reason@
                == "서버가 Content-Range 없이 206 을 보냈습니다"@,
            Some(v) => match content_range_spec(v) {
                None => r matches Reply::Retry { reason, restart } && !restart && reason@
                    == "서버가 Content-Range 없이 206 을 보냈습니다"@,
                Some((start, whole)) => if start != have {
                    r matches Reply::Retry { reason, restart } && restart && reason@
                        == misplaced_message(start, have)
                } else {
                    r == (Reply::Take {
                        restart: false,
                        total: match whole {
                            Some(w) => Some(w),
                            None => match content_length {
                                Some(c) => if c + start <= u64::MAX {
                                    Some((c + start) as u64)
                                } else {
                                    None
                                },
                                None => None,
                            },
                        },
                    })
                },
            },
        })
}

/// Judges an answer to a request for the file from byte `have` on.
/// `content_range` is the `Content-Range` header as text, when it is there
/// and readable.
///
/// A 200 is the whole file again, from the start. A 206 is only used when
/// its `Content-Range` says it starts exactly at `have`: a transparent cache
/// or an HTTPS-scanning antivirus answers a range with the whole file or
/// another stretch, and splicing that on spoils the image silently. The
/// whole size is read again from every answer, from `Content-Range`, else
/// from the length of what is left.
pub fn judge_reply(
    status: u16,
    content_range: Option<&str>,
    content_length: Option<u64>,
    have: u64,
) -> (r: Reply)
    ensures
        judged(
            status,
            match content_range {
                Some(v) => Some(v@),
                None => None,
            },
            content_length,
            have,
            r,
        ),

{
    if status == 200 {
        return Reply::Take { restart: true, total: content_length };
    }
    if status != 206 {
        let mut m = String::new();
        push_str(&mut m, "내려받기에 실패했습니다 (HTTP ");
        push_dec(&mut m, status as u64);
        push_str(&mut m, ")");
        return Reply::Fail(m);
    }
    let parsed = match content_range {
        Some(v) => parse_content_range(v),
        None => None,
    };
    match parsed {
        None => Reply::Retry {
            reason: "서버가 Content-Range 없이 206 을 보냈습니다".to_owned(),
            restart: false,
        },
        Some((start, whole)) => {
            if start != have {
                let mut m = String::new();
                push_str(&mut m, "서버가 ");
                push_dec(&mut m, start);
                push_str(&mut m, " 바이트부터 보냈습니다 (요청한 자리: ");
                push_dec(&mut m, have);
                push_str(&mut m, ")");
                return Reply::Retry { reason: m, restart: true };
            }
            let total = match whole {
                Some(w) => Some(w),
                None => match content_length {
                    Some(c) => c.checked_add(start),
                    None => None,
                },
            };
            Reply::Take { restart: false, total }
        },
    }
}

/// What the download does after an answer was judged.
#[derive(Debug, PartialEq, Eq)]
pub enum BodyStep {
    /// Give up with this message.
    Stop(String),
    /// Do not read the body; try again, for this reason.
    Again(String),
    /// Read the body; the whole file's size, when known.
    Read(Option<u64>),
}

/// Applies a judged answer to what was received so far: drops it when the
/// answer says to restart, and says what to do next.
pub fn start_body(out: &mut Vec<u8>, reply: Reply) -> (r: BodyStep)
    ensures
        match reply {
            Reply::Fail(m) => r == BodyStep::Stop(m) && final(out)@ == old(out)@,
            Reply::Retry { reason, restart } => r == BodyStep::Again(reason) && final(out)@ == if restart {
                Seq::<u8>::empty()
            } else {
                old(out)@
            },
            Reply::Take { restart, total } => r == BodyStep::Read(total) && final(out)@ == if restart {
                Seq::<u8>::empty()
            } else {
                old(out)@
            },
        },
{
    match reply {
        Reply::Fail(m) => BodyStep::Stop(m),
        Reply::Retry { reason, restart } => {
            if restart {
                out.clear();
            }
            BodyStep::Again(reason)
        },
        Reply::Take { restart, total } => {
            if restart {
                out.clear();
            }
            BodyStep::Read(total)
        },
    }
}

/// Appends the `n` bytes just read from the body to what was received.
pub fn append_piece(out: &mut Vec<u8>, piece: &[u8], n: usize)
    requires
        n <= piece@.len(),
    ensures
        final(out)@ == old(out)@ + piece@.take(n as int),
{
    let mut k: usize = 0;
    while k < n
        invariant
            k <= n <= piece@.len(),
            out@ == old(out)@ + piece@.take(k as int),
        decreases n - k,
    {
        out.push(piece[k]);
        k += 1;
        proof {
            assert(piece@.take(k as int) =~= piece@.take((k - 1) as int).push(piece@[k - 1]));
        }
    }
}

/// Applies the judgement of an ended body: the whole file, or the reason to
/// try again, having dropped what was received when it must not be resumed.
pub fn finish_body(out: &mut Vec<u8>, ending: Ending) -> (r: Option<String>)
    ensures
        match ending {
            Ending::Done => r is None && final(out)@ == old(out)@,
            Ending::Retry { reason, restart } => r == Some(reason) && final(out)@ == if restart {
                Seq::<u8>::empty()
            } else {
                old(out)@
            },
        },
{
    match ending {
        Ending::Done => None,
        Ending::Retry { reason, restart } => {
            if restart {
                out.clear();
            }
            Some(reason)
        },
    }
}

/// What to do once a body was read to its end.
#[derive(Debug, PartialEq, Eq)]
pub enum Ending {
    /// The file is complete.
    Done,
    /// Try again, dropping what was received first when `restart`.
    Retry { reason: String, restart: bool },
}

/// What `judge_end` answers to a body that ended with `got` bytes received.
pub open spec fn ended(got: u64, total: Option<u64>, r: Ending) -> bool {
    match total {
        Some(t) => if got < t {
            r matches Ending::Retry { reason, restart } && !restart && reason@ == "연결이 끊겼습니다 ("@
                + dec(got as nat) + "/"@ + dec(t as nat) + " 바이트)"@
        } else if got > t {
            r matches Ending::Retry { reason, restart } && restart && reason@
                == "받은 양이 알려준 크기보다 많습니다 ("@ + dec(got as nat) + "/"@ + dec(
                t as nat,
            ) + " 바이트)"@
        } else {
            r == Ending::Done
        },
        None => r matches Ending::Retry { reason, restart } && !restart && reason@
            == "서버가 전체 크기를 알려주지 않아 다 받았는지 확인할 수 없습니다"@,
    }
}

/// Judges a body that ended with `got` bytes received in all.
///
/// Short: resume. Longer than announced: something that must not be spliced
/// on was, and what was received is dropped; handing it on would fail the
/// decompression after the stick was already erased. Without a whole size
/// the end cannot be told from a clean break: a multi-member gzip cut at a
/// member boundary decompresses without error, and a stick that does not
/// boot would be reported as verified.
pub fn judge_end(got: u64, total: Option<u64>) -> (r: Ending)
    ensures
        ended(got, total, r),
{
    match total {
        Some(t) => {
            if got == t {
                return Ending::Done;
            }
            let mut m = String::new();
            if got < t {
                push_str(&mut m, "연결이 끊겼습니다 (");
            } else {
                push_str(&mut m, "받은 양이 알려준 크기보다 많습니다 (");
            }
            push_dec(&mut m, got);
            push_str(&mut m, "/");
            push_dec(&mut m, t);
            push_str(&mut m, " 바이트)");
            Ending::Retry { reason: m, restart: got > t }
        },
        None => Ending::Retry {
            reason: "서버가 전체 크기를 알려주지 않아 다 받았는지 확인할 수 없습니다".to_owned(),
            restart: false,
        },
    }
}

/// The `Range` header asking for the file from byte `have` on.
pub fn range_from(have: u64) -> (r: String)
    ensures
        r@ == "bytes="@ + dec(have as nat) + "-"@,
{
    let mut m = String::new();
    push_str(&mut m, "bytes=");
    push_dec(&mut m, have);
    push_str(&mut m, "-");
    m
}

/// The message when every attempt is spent.
pub fn give_up(last_err: &str) -> (r: String)
    ensures
        r@ == "내려받기를 여러 번 시도했지만 완료하지 못했습니다: "@ + last_err@,
{
    let mut m = String::new();
    push_str(&mut m, "내려받기를 여러 번 시도했지만 완료하지 못했습니다: ");
    push_str(&mut m, last_err);
    m
}

/// Whether `v` is the one character `0`.
fn is_zero_text(v: &str) -> (r: bool)
    ensures
        r == (v@ == seq!['0']),
{
    let cs = chars_of(v);
    let r = cs.len() == 1 && cs[0] == '0';
    proof {
        if r {
            assert(cs@ =~= seq!['0']);
        }
    }
    r
}

/// The error for the answer to the release list, if it is one. The hourly
/// limit of 60 calls is per address, and a shared line can arrive with it
/// already spent: that is told apart from a network failure, so that the
/// user knows to wait.
pub fn release_list_error(status: u16, status_text: &str, remaining: Option<&str>) -> (r: Option<
    String,
>)
    ensures
        status == 403 && (remaining matches Some(x) && x@ == seq!['0']) ==> (r matches Some(m) && m@
            == "GitHub API 호출 한도를 초과했습니다. 잠시 후 다시 시도해 주세요."@),
        !(status == 403 && (remaining matches Some(x) && x@ == seq!['0'])) ==> if 200 <= status
            <= 299 {
            r is None
        } else {
            r matches Some(m) && m@ == "릴리스 목록을 가져오지 못했습니다 ("@ + status_text@ + ")"@
        },
{
    if status == 403 {
        let spent = match remaining {
            Some(x) => is_zero_text(x),
            None => false,
        };
        if spent {
            return Some("GitHub API 호출 한도를 초과했습니다. 잠시 후 다시 시도해 주세요.".to_owned());
        }
    }
    if 200 <= status && status <= 299 {
        return None;
    }
    let mut m = String::new();
    push_str(&mut m, "릴리스 목록을 가져오지 못했습니다 (");
    push_str(&mut m, status_text);
    push_str(&mut m, ")");
    Some(m)
}

/// The error for the answer to a checksum file, if it is one.
pub fn checksum_fetch_error(status: u16, status_text: &str) -> (r: Option<String>)
    ensures
        200 <= status <= 299 ==> r is None,
        !(200 <= status <= 299) ==> (r matches Some(m) && m@ == "체크섬을 가져오지 못했습니다 ("@
            + status_text@ + ")"@),
{
    if 200 <= status && status <= 299 {
        return None;
    }
    let mut m = String::new();
    push_str(&mut m, "체크섬을 가져오지 못했습니다 (");
    push_str(&mut m, status_text);
    push_str(&mut m, ")");
    Some(m)
}

} // verus!

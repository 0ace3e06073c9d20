//! How far preparing a target got, and how a failure says so to the user.
//!
//! Opening a target removes its drive letters and deletes its partition table
//! before a single byte is written. Whatever fails after that leaves a stick
//! that has already changed, and the message must say so: "close Explorer and
//! try again" is only right for a stick that is still intact.
use crate::device::DeviceError;
use crate::text::{dec, push_dec, push_str};
use vstd::prelude::*;

verus! {

/// State told after the partition table was deleted.
pub const ERASED: &'static str = "이 USB 는 파티션 테이블이 이미 지워진 상태입니다. 안에 있던 내용은 돌아오지 않고, 탐색기에는 빈 장치로 보이거나 \"포맷하시겠습니까\" 를 묻습니다. 다시 굽기를 실행하면 정상적으로 끝납니다.";

/// State told after only the drive letters were removed; the contents are intact.
pub const UNMOUNTED: &'static str = "이 USB 의 드라이브 문자가 떨어진 상태입니다. 뽑았다 다시 꽂으면 윈도우가 문자를 새로 붙여줍니다. 안의 내용은 그대로입니다.";

/// State told when a write session fails: a session exists only once
/// preparation is over, so the table is certainly gone.
pub const PARTIAL: &'static str = "이 USB 는 파티션 테이블이 지워지고 이미지가 일부만 쓰인 상태입니다. 지금 상태로는 부팅되지 않습니다. 다시 굽기를 실행해 주세요.";

/// How far preparation has touched the target; later is harder to undo.
#[derive(Debug, Clone, Copy, PartialEq, Eq, Structural, PartialOrd, Ord, Default)]
pub enum Touched {
    /// Nothing yet: a failure here leaves the stick as it was.
    #[default]
    Nothing,
    /// Drive letters removed; re-plugging brings them back.
    Mounts,
    /// Partition table deleted; re-plugging does not bring it back.
    Layout,
}

/// Position of a stage in the order above.
pub open spec fn rank(t: Touched) -> nat {
    match t {
        Touched::Nothing => 0,
        Touched::Mounts => 1,
        Touched::Layout => 2,
    }
}

/// The stage recorded after marking `t` at stage `cur`: the later of the two.
pub open spec fn advance(cur: Touched, t: Touched) -> Touched {
    if rank(t) > rank(cur) {
        t
    } else {
        cur
    }
}

/// The recorded damage never walks backwards: marking a stage never lowers
/// the record, the record is at least the stage marked, and once the
/// partition table is gone every later mark leaves it so.
pub proof fn law_damage_never_walks_backwards(cur: Touched, t: Touched)
    ensures
        rank(advance(cur, t)) >= rank(cur),
        rank(advance(cur, t)) >= rank(t),
        advance(cur, t) == cur || advance(cur, t) == t,
        cur == Touched::Layout ==> advance(cur, t) == Touched::Layout,
{
}

fn rank_of(t: Touched) -> (r: u8)
    ensures
        r as nat == rank(t),
{
    match t {
        Touched::Nothing => 0,
        Touched::Mounts => 1,
        Touched::Layout => 2,
    }
}

/// What happened while preparing.
#[derive(Debug, Default)]
pub struct Prep {
    touched: Touched,
    notes: Vec<String>,
}

/// The items, one after another, with `sep` between them.
pub open spec fn join(items: Seq<String>, sep: Seq<char>) -> Seq<char>
    decreases items.len(),
{
    if items.len() == 0 {
        Seq::empty()
    } else if items.len() == 1 {
        items[0]@
    } else {
        join(items.drop_last(), sep) + sep + items.last()@
    }
}

/// Appends the items of `items`, with `sep` between them.
fn push_joined(s: &mut String, items: &Vec<String>, sep: &str)
    ensures
        final(s)@ == old(s)@ + join(items@, sep@),
{
    let mut i: usize = 0;
    while i < items.len()
        invariant
            i <= items@.len(),
            s@ == old(s)@ + join(items@.take(i as int), sep@),
        decreases items@.len() - i,
    {
        proof {
            assert(items@.take((i + 1) as int).drop_last() =~= items@.take(i as int));
        }
        if i > 0 {
            push_str(s, sep);
        }
        push_str(s, items[i].as_str());
        i += 1;
        proof {
            if i == 1 {
                assert(join(items@.take(0), sep@) =~= Seq::<char>::empty());
            }
            assert(s@ =~= old(s)@ + join(items@.take(i as int), sep@));
        }
    }
    proof {
        assert(items@.take(i as int) =~= items@);
    }
}

/// The one-line human description of an error.
///
/// It never holds a variant name (`Locked`, `WriteDenied`, ...): the front end
/// looks for those names in the whole error text to pick a screen.
pub open spec fn describe_spec(e: DeviceError) -> Seq<char> {
    match e {
        DeviceError::NeedsElevation => "관리자 권한이 없습니다"@,
        DeviceError::NotFound { disk_number } => "디스크 "@ + dec(disk_number as nat)
            + " 를 찾을 수 없습니다"@,
        DeviceError::Locked { op } => op@ + ": 다른 프로그램이 붙잡고 있어 잠그지 못했습니다 (Win32 32)"@,
        DeviceError::WriteDenied { op } => op@ + ": 장치가 접근을 거부했습니다 (Win32 5)"@,
        DeviceError::MediaChanged { op } => op@ + ": 도중에 장치가 빠졌거나 바뀌었습니다 (Win32 1110)"@,
        DeviceError::BadSectorSize(n) => "장치가 알려준 섹터 크기가 비정상입니다 ("@ + dec(n as nat)
            + " 바이트)"@,
        DeviceError::IdentityChanged { message } => message@,
        DeviceError::Io { message, .. } => message@,
        DeviceError::TargetErased { message, .. } => message@,
    }
}

/// The Win32 code carried by an error; 0 when there is none.
pub open spec fn code_of_spec(e: DeviceError) -> i32 {
    match e {
        DeviceError::WriteDenied { .. } => 5,
        DeviceError::Locked { .. } => 32,
        DeviceError::MediaChanged { .. } => 1110,
        DeviceError::Io { code, .. } => code,
        DeviceError::TargetErased { code, .. } => code,
        _ => 0,
    }
}

/// The Win32 code carried by an error; 0 when there is none.
pub fn code_of(e: &DeviceError) -> (r: i32)
    ensures
        r == code_of_spec(*e),
{
    match e {
        DeviceError::WriteDenied { .. } => 5,
        DeviceError::Locked { .. } => 32,
        DeviceError::MediaChanged { .. } => 1110,
        DeviceError::Io { code, .. } => *code,
        DeviceError::TargetErased { code, .. } => *code,
        _ => 0,
    }
}

/// The one-line human description of an error; see [`describe_spec`].
pub fn describe(e: &DeviceError) -> (r: String)
    ensures
        r@ == describe_spec(*e),
{
    let mut s = String::new();
    match e {
        DeviceError::NeedsElevation => push_str(&mut s, "관리자 권한이 없습니다"),
        DeviceError::NotFound { disk_number } => {
            push_str(&mut s, "디스크 ");
            push_dec(&mut s, *disk_number as u64);
            push_str(&mut s, " 를 찾을 수 없습니다");
        },
        DeviceError::Locked { op } => {
            push_str(&mut s, op);
            push_str(&mut s, ": 다른 프로그램이 붙잡고 있어 잠그지 못했습니다 (Win32 32)");
        },
        DeviceError::WriteDenied { op } => {
            push_str(&mut s, op);
            push_str(&mut s, ": 장치가 접근을 거부했습니다 (Win32 5)");
        },
        DeviceError::MediaChanged { op } => {
            push_str(&mut s, op);
            push_str(&mut s, ": 도중에 장치가 빠졌거나 바뀌었습니다 (Win32 1110)");
        },
        DeviceError::BadSectorSize(n) => {
            push_str(&mut s, "장치가 알려준 섹터 크기가 비정상입니다 (");
            push_dec(&mut s, *n as u64);
            push_str(&mut s, " 바이트)");
        },
        DeviceError::IdentityChanged { message } => push_str(&mut s, message.as_str()),
        DeviceError::Io { message, .. } => push_str(&mut s, message.as_str()),
        DeviceError::TargetErased { message, .. } => push_str(&mut s, message.as_str()),
    }
    proof {
        assert(s@ =~= describe_spec(*e));
    }
    s
}

impl Prep {
    pub closed spec fn touched_spec(&self) -> Touched {
        self.touched
    }

    pub closed spec fn notes_spec(&self) -> Seq<String> {
        self.notes@
    }

    /// The notes as they appear in a report.
    pub open spec fn trail_spec(&self) -> Seq<char> {
        if self.notes_spec().len() == 0 {
            "준비 단계에 남은 실패 기록 없음"@
        } else {
            "준비 단계 기록:\n  "@ + join(self.notes_spec(), "\n  "@)
        }
    }

    /// The preparation summary a session carries; see [`Prep::summary`].
    pub open spec fn summary_spec(&self, locked: usize, enumerated: bool) -> Seq<char> {
        let head = if enumerated {
            "볼륨 "@ + dec(locked as nat) + "개 잠금"@
        } else {
            "볼륨 목록을 읽지 못해 무엇이 마운트돼 있는지 확인하지 못함"@
        };
        if self.notes_spec().len() == 0 {
            "준비 단계: "@ + head + ", 실패 기록 없음"@
        } else {
            "준비 단계: "@ + head + "\n문제:\n  "@ + join(self.notes_spec(), "\n  "@)
        }
    }

    /// Whether `r` is what [`Prep::explain`] makes of `e`.
    pub open spec fn explained(&self, e: DeviceError, r: DeviceError) -> bool {
        match self.touched_spec() {
            Touched::Nothing => r == e,
            Touched::Mounts => r matches DeviceError::Io { code, message } && code == code_of_spec(e)
                && message@ == UNMOUNTED@ + "\n원인: "@ + describe_spec(e) + "\n"@ + self.trail_spec(),
            Touched::Layout => r matches DeviceError::TargetErased { code, message } && code
                == code_of_spec(e) && message@ == ERASED@ + "\n원인: "@ + describe_spec(e) + "\n"@
                + self.trail_spec(),
        }
    }

    pub fn new() -> (r: Self)
        ensures
            r.touched_spec() == Touched::Nothing,
            r.notes_spec() == Seq::<String>::empty(),
    {
        Prep { touched: Touched::Nothing, notes: Vec::new() }
    }

    /// Records what did not work.
    pub fn note(&mut self, what: &str)
        ensures
            final(self).touched_spec() == old(self).touched_spec(),
            final(self).notes_spec().len() == old(self).notes_spec().len() + 1,
            final(self).notes_spec().drop_last() == old(self).notes_spec(),
            final(self).notes_spec().last()@ == what@,
    {
        let ghost before = self.notes@;
        self.notes.push(what.to_owned());
        proof {
            assert(self.notes@.drop_last() =~= before);
        }
    }

    /// Marks how far preparation got. A stage once reached is never undone.
    pub fn reached(&mut self, t: Touched)
        ensures
            final(self).touched_spec() == advance(old(self).touched_spec(), t),
            final(self).notes_spec() == old(self).notes_spec(),
    {
        if rank_of(t) > rank_of(self.touched) {
            self.touched = t;
        }
    }

    pub fn touched(&self) -> (r: Touched)
        ensures
            r == self.touched_spec(),
    {
        self.touched
    }

    /// The preparation summary a session carries.
    ///
    /// `enumerated` says whether the volume list could be read at all: a
    /// failed listing looks like "no volume to lock" otherwise, and must not
    /// be reported as a finished preparation.
    pub fn summary(&self, locked: usize, enumerated: bool) -> (r: String)
        ensures
            r@ == self.summary_spec(locked, enumerated),
    {
        let mut s = String::new();
        push_str(&mut s, "준비 단계: ");
        if enumerated {
            push_str(&mut s, "볼륨 ");
            push_dec(&mut s, locked as u64);
            push_str(&mut s, "개 잠금");
        } else {
            push_str(&mut s, "볼륨 목록을 읽지 못해 무엇이 마운트돼 있는지 확인하지 못함");
        }
        if self.notes.len() == 0 {
            push_str(&mut s, ", 실패 기록 없음");
        } else {
            push_str(&mut s, "\n문제:\n  ");
            push_joined(&mut s, &self.notes, "\n  ");
        }
        proof {
            assert(s@ =~= self.summary_spec(locked, enumerated));
        }
        s
    }

    /// What the preparation noted, for a report.
    pub fn trail(&self) -> (r: String)
        ensures
            r@ == self.trail_spec(),
    {
        let mut s = String::new();
        if self.notes.len() == 0 {
            push_str(&mut s, "준비 단계에 남은 실패 기록 없음");
        } else {
            push_str(&mut s, "준비 단계 기록:\n  ");
            push_joined(&mut s, &self.notes, "\n  ");
        }
        proof {
            assert(s@ =~= self.trail_spec());
        }
        s
    }

    /// Adds to an error of the preparation what state the target is in now.
    /// When nothing was touched the error as it came is the most exact, and
    /// is returned unchanged.
    pub fn explain(&self, e: DeviceError) -> (r: DeviceError)
        ensures
            self.explained(e, r),
    {
        match self.touched {
            Touched::Nothing => e,
            Touched::Mounts => {
                let mut m = String::new();
                push_str(&mut m, UNMOUNTED);
                push_str(&mut m, "\n원인: ");
                let d = describe(&e);
                push_str(&mut m, d.as_str());
                push_str(&mut m, "\n");
                let t = self.trail();
                push_str(&mut m, t.as_str());
                proof {
                    assert(m@ =~= UNMOUNTED@ + "\n원인: "@ + describe_spec(e) + "\n"@
                        + self.trail_spec());
                }
                DeviceError::Io { code: code_of(&e), message: m }
            },
            Touched::Layout => {
                let mut m = String::new();
                push_str(&mut m, ERASED);
                push_str(&mut m, "\n원인: ");
                let d = describe(&e);
                push_str(&mut m, d.as_str());
                push_str(&mut m, "\n");
                let t = self.trail();
                push_str(&mut m, t.as_str());
                proof {
                    assert(m@ =~= ERASED@ + "\n원인: "@ + describe_spec(e) + "\n"@ + self.trail_spec());
                }
                DeviceError::TargetErased { code: code_of(&e), message: m }
            },
        }
    }
}

/// Where a write-session failure happened, in words.
pub open spec fn failed_where(what: Seq<char>, at: Option<u64>) -> Seq<char> {
    match at {
        Some(o) => what + " 중 오프셋 "@ + dec(o as nat) + " 에서 실패했습니다."@,
        None => what + " 에서 실패했습니다."@,
    }
}

/// Whether `r` is what [`with_write_context`] makes of `e`.
pub open spec fn write_context(
    e: DeviceError,
    what: Seq<char>,
    at: Option<u64>,
    prep_notes: Seq<char>,
    r: DeviceError,
) -> bool {
    match e {
        DeviceError::WriteDenied { op } => r matches DeviceError::Io { code, message } && code == 5
            && message@ == "장치가 쓰기를 거부했습니다 ("@ + op@ + ", 오프셋 "@ + dec(
            match at {
                Some(o) => o as nat,
                None => 0,
            },
        ) + ").\n"@ + PARTIAL@ + "\n"@ + prep_notes,
        _ => r matches DeviceError::TargetErased { code, message } && code == code_of_spec(e)
            && message@ == PARTIAL@ + "\n"@ + failed_where(what, at) + "\n원인: "@ + describe_spec(e)
            + "\n"@ + prep_notes,
    }
}

/// Adds to an error of a write session where it happened and what the
/// preparation saw.
///
/// A live session means preparation is over and the target already erased.
/// A refused write keeps its wording "쓰기를 거부했습니다", by which the front
/// end picks its dedicated guidance; the target's state is added there too.
/// `at` is where it failed; None for work without a position, such as a flush.
pub fn with_write_context(e: DeviceError, what: &str, at: Option<u64>, prep_notes: &str) -> (r:
    DeviceError)
    ensures
        write_context(e, what@, at, prep_notes@, r),
{
    if let DeviceError::WriteDenied { op } = &e {
        let mut m = String::new();
        push_str(&mut m, "장치가 쓰기를 거부했습니다 (");
        push_str(&mut m, op);
        push_str(&mut m, ", 오프셋 ");
        let o = match at {
            Some(o) => o,
            None => 0,
        };
        push_dec(&mut m, o);
        push_str(&mut m, ").\n");
        push_str(&mut m, PARTIAL);
        push_str(&mut m, "\n");
        push_str(&mut m, prep_notes);
        proof {
            let o2: nat = match at {
                Some(o) => o as nat,
                None => 0,
            };
            assert(m@ =~= "장치가 쓰기를 거부했습니다 ("@ + op@ + ", 오프셋 "@ + dec(o2) + ").\n"@
                + PARTIAL@ + "\n"@ + prep_notes@);
        }
        return DeviceError::Io { code: 5, message: m };
    }
    let mut m = String::new();
    push_str(&mut m, PARTIAL);
    push_str(&mut m, "\n");
    match at {
        Some(o) => {
            push_str(&mut m, what);
            push_str(&mut m, " 중 오프셋 ");
            push_dec(&mut m, o);
            push_str(&mut m, " 에서 실패했습니다.");
        },
        None => {
            push_str(&mut m, what);
            push_str(&mut m, " 에서 실패했습니다.");
        },
    }
    push_str(&mut m, "\n원인: ");
    let d = describe(&e);
    push_str(&mut m, d.as_str());
    push_str(&mut m, "\n");
    push_str(&mut m, prep_notes);
    proof {
        assert(m@ =~= PARTIAL@ + "\n"@ + failed_where(what@, at) + "\n원인: "@ + describe_spec(e)
            + "\n"@ + prep_notes@);
    }
    DeviceError::TargetErased { code: code_of(&e), message: m }
}

} // verus!

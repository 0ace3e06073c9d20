//! What the Windows device layer decides on the answers it gets.
//!
//! The layer itself opens `\\.\PhysicalDriveN`, issues `DeviceIoControl` and
//! walks the volumes; those Win32 calls need Windows and stand apart from
//! this crate. Which errors are worth waiting for, what a device descriptor
//! says, which writes are retried, and which checks come before anything is
//! destroyed, is plain data, and stands here.
use crate::device::{DeviceError, MAX_DEVICE_BYTES};
use crate::fetch::{trim, trim_chars};
use crate::model::{bus_name, bus_type_name, BusType, DiskInfo};
use crate::prep::{with_write_context, write_context};
use crate::safety::{confirm_identity, confirm_identity_spec};
use crate::sink::{lemma_padlen_bounds, padlen};
use crate::text::{chars_of, dec, push_char, push_dec, push_str, string_of};
use std::collections::HashSet;
use vstd::prelude::*;

verus! {

// ---------------------------------------------------------------------------
// Win32 error codes

/// A short explanation of the common Win32 error codes: with a bare number
/// the user can only search the web.
pub open spec fn explain_spec(code: i32) -> Seq<char> {
    if code == 1 {
        " (지원되지 않는 요청)"@
    } else if code == 6 {
        " (잘못된 핸들)"@
    } else if code == 19 {
        " (쓰기 금지된 매체)"@
    } else if code == 21 {
        " (장치가 준비되지 않음)"@
    } else if code == 87 {
        " (잘못된 매개변수 — 대개 섹터 정렬이나 구조체 크기 문제)"@
    } else if code == 112 {
        " (공간 부족)"@
    } else if code == 433 {
        " (장치를 찾을 수 없음)"@
    } else if code == 1117 {
        " (입출력 장치 오류)"@
    } else {
        ""@
    }
}

pub fn explain(code: i32) -> (r: &'static str)
    ensures
        r@ == explain_spec(code),
{
    if code == 1 {
        " (지원되지 않는 요청)"
    } else if code == 6 {
        " (잘못된 핸들)"
    } else if code == 19 {
        " (쓰기 금지된 매체)"
    } else if code == 21 {
        " (장치가 준비되지 않음)"
    } else if code == 87 {
        " (잘못된 매개변수 — 대개 섹터 정렬이나 구조체 크기 문제)"
    } else if code == 112 {
        " (공간 부족)"
    } else if code == 433 {
        " (장치를 찾을 수 없음)"
    } else if code == 1117 {
        " (입출력 장치 오류)"
    } else {
        ""
    }
}

/// The decimal rendering of a signed number.
pub open spec fn idec(n: int) -> Seq<char> {
    if n < 0 {
        seq!['-'] + dec((-n) as nat)
    } else {
        dec(n as nat)
    }
}

fn push_idec(s: &mut String, n: i32)
    ensures
        final(s)@ == old(s)@ + idec(n as int),
{
    if n < 0 {
        push_char(s, '-');
        let m: u64 = (-(n as i64)) as u64;
        push_dec(s, m);
        proof {
            assert(final(s)@ =~= old(s)@ + idec(n as int));
        }
    } else {
        push_dec(s, n as u64);
    }
}

/// Whether `e` is the error of Win32 error `code` in the operation `op`:
/// the three codes the user is guided on get their own variant, every other
/// code says where it happened, its number and what it means.
pub open spec fn error_for_spec(code: i32, op: &'static str, e: DeviceError) -> bool {
    if code == 5 {
        e == DeviceError::WriteDenied { op }
    } else if code == 32 {
        e == DeviceError::Locked { op }
    } else if code == 1110 {
        e == DeviceError::MediaChanged { op }
    } else {
        e matches DeviceError::Io { code: c, message } && c == code && message@ == op@
            + " 실패: Win32 오류 "@ + idec(code as int) + explain_spec(code)
    }
}

/// The error for Win32 error `code` in the operation `op`.
pub fn error_for(code: i32, op: &'static str) -> (r: DeviceError)
    ensures
        error_for_spec(code, op, r),
{
    if code == 5 {
        DeviceError::WriteDenied { op }
    } else if code == 32 {
        DeviceError::Locked { op }
    } else if code == 1110 {
        DeviceError::MediaChanged { op }
    } else {
        let mut m = String::new();
        push_str(&mut m, op);
        push_str(&mut m, " 실패: Win32 오류 ");
        push_idec(&mut m, code);
        push_str(&mut m, explain(code));
        DeviceError::Io { code, message: m }
    }
}

// ---------------------------------------------------------------------------
// Opening and locking

/// Attempts at opening a device before giving up.
pub const OPEN_RETRIES: u32 = 150;

/// The attempt from which shared writing is asked for too.
pub const SHARE_WRITE_AFTER: u32 = 50;

/// What to do after an attempt at opening failed.
#[derive(Debug)]
pub enum OpenStep {
    /// Give up with this error.
    Fail(DeviceError),
    /// Wait and try again. `last` is the error to give if no attempt is
    /// left; `share_write` whether to ask for shared writing from now on.
    Retry { last: DeviceError, share_write: bool },
}

/// After opening `op` failed with Win32 error `code` on attempt `attempt`.
///
/// Only access denied (5) and a sharing violation (32) are waited for:
/// Explorer or an antivirus may let go. From a third of the attempts on,
/// shared writing is asked for as well, as Rufus does.
pub fn open_failure(code: i32, attempt: u32, share_write: bool, op: &'static str) -> (r: OpenStep)
    ensures
        code != 5 && code != 32 ==> (r matches OpenStep::Fail(e) && error_for_spec(code, op, e)),
        code == 5 || code == 32 ==> r == (OpenStep::Retry {
            last: if code == 5 {
                DeviceError::WriteDenied { op }
            } else {
                DeviceError::Locked { op }
            },
            share_write: share_write || attempt >= SHARE_WRITE_AFTER,
        }),
{
    if code != 5 && code != 32 {
        return OpenStep::Fail(error_for(code, op));
    }
    let last = if code == 5 {
        DeviceError::WriteDenied { op }
    } else {
        DeviceError::Locked { op }
    };
    OpenStep::Retry { last, share_write: share_write || attempt >= SHARE_WRITE_AFTER }
}

/// What the writability query's answer says: write-protected only when the
/// device refused with `ERROR_WRITE_PROTECT` (19). Any other failure means
/// "not known" and counts as writable: taking it as protected would hide
/// every disk whose query fails.
pub fn write_protected_from(answer: &Result<(), DeviceError>) -> (r: bool)
    ensures
        r <==> (*answer matches Err(DeviceError::Io { code, .. }) && code == 19),
{
    match answer {
        Err(DeviceError::Io { code, .. }) => *code == 19,
        _ => false,
    }
}

/// What to do after an attempt at locking a volume failed.
#[derive(Debug)]
pub enum LockStep {
    /// Wait and try again while time is left; give this error when none is.
    Wait(DeviceError),
    /// Give up with this error: waiting does not change it.
    Stop(DeviceError),
}

/// After locking failed with `e`, `last` being the error kept so far.
pub fn lock_failure(e: DeviceError, last: DeviceError) -> (r: LockStep)
    ensures
        e is Locked || e is WriteDenied ==> r == LockStep::Wait(e),
        !(e is Locked || e is WriteDenied) && (e matches DeviceError::Io { code, .. } && code == 32)
            ==> r == LockStep::Wait(last),
        !(e is Locked || e is WriteDenied) && !(e matches DeviceError::Io { code, .. } && code
            == 32) ==> r == LockStep::Stop(e),
{
    match e {
        DeviceError::Locked { .. } | DeviceError::WriteDenied { .. } => LockStep::Wait(e),
        DeviceError::Io { code, .. } => {
            if code == 32 {
                LockStep::Wait(last)
            } else {
                LockStep::Stop(e)
            }
        },
        _ => LockStep::Stop(e),
    }
}

// ---------------------------------------------------------------------------
// The device descriptor

/// The text that `String::from_utf8_lossy` makes of `bytes`, each invalid
/// sequence replaced by U+FFFD. It depends on the bytes alone.
pub uninterp spec fn lossy_text(bytes: Seq<u8>) -> Seq<char>;

/// `String::from_utf8_lossy`, made an owned string.
#[verifier::external_body]
fn utf8_lossy(bytes: &[u8]) -> (r: String)
    ensures
        r@ == lossy_text(bytes@),
{
    String::from_utf8_lossy(bytes).into_owned()
}

/// The first zero byte of `buf` from `i` on.
pub open spec fn zero_from(buf: Seq<u8>, i: nat) -> Option<nat>
    decreases buf.len() - i,
{
    if i >= buf.len() {
        None
    } else if buf[i as int] == 0 {
        Some(i)
    } else {
        zero_from(buf, i + 1)
    }
}

/// What [`descriptor_string`] reads.
pub open spec fn descriptor_spec(buf: Seq<u8>, offset: u32) -> Option<Seq<char>> {
    if offset == 0 || offset >= buf.len() {
        None
    } else {
        match zero_from(buf, offset as nat) {
            None => None,
            Some(end) => {
                let s = trim(lossy_text(buf.subrange(offset as int, end as int)));
                if s.len() == 0 {
                    None
                } else {
                    Some(s)
                }
            },
        }
    }
}

proof fn lemma_zero_from_skips(buf: Seq<u8>, from: nat, i: nat)
    requires
        from <= i <= buf.len(),
        forall|j: int| from <= j < i ==> buf[j] != 0,
    ensures
        zero_from(buf, from) == zero_from(buf, i),
    decreases i - from,
{
    if from < i {
        lemma_zero_from_skips(buf, from + 1, i);
    }
}

/// A string of a `STORAGE_DEVICE_DESCRIPTOR`: the descriptor keeps its
/// strings in the buffer behind it, each given by its offset and ended by a
/// zero byte. Offset 0 means none, and so does a string of blanks.
pub fn descriptor_string(buf: &[u8], offset: u32) -> (r: Option<String>)
    ensures
        match r {
            Some(s) => descriptor_spec(buf@, offset) == Some(s@),
            None => descriptor_spec(buf@, offset) is None,
        },
{
    if offset == 0 || offset as usize >= buf.len() {
        return None;
    }
    let start = offset as usize;
    let mut end: usize = start;
    while end < buf.len() && buf[end] != 0
        invariant
            start <= end <= buf@.len(),
            forall|j: int| start <= j < end ==> buf@[j] != 0,
        decreases buf@.len() - end,
    {
        end += 1;
    }
    proof {
        lemma_zero_from_skips(buf@, start as nat, end as nat);
    }
    if end == buf.len() {
        return None;
    }
    let mut bytes: Vec<u8> = Vec::new();
    let mut k: usize = start;
    while k < end
        invariant
            start <= k <= end <= buf@.len(),
            bytes@ == buf@.subrange(start as int, k as int),
        decreases end - k,
    {
        bytes.push(buf[k]);
        k += 1;
        proof {
            assert(bytes@ =~= buf@.subrange(start as int, k as int));
        }
    }
    let text = utf8_lossy(bytes.as_slice());
    let t = trim_chars(&chars_of(text.as_str()));
    if t.len() == 0 {
        return None;
    }
    Some(string_of(t.as_slice()))
}

/// What the device descriptor says of a disk.
pub struct DeviceDescriptor {
    pub bus_type: u16,
    pub vendor: Option<String>,
    pub product: Option<String>,
    pub serial: Option<String>,
}

/// A trimmed optional string; nothing when absent.
pub open spec fn trimmed(s: Option<String>) -> Seq<char> {
    match s {
        Some(x) => trim(x@),
        None => Seq::empty(),
    }
}

fn trimmed_of(s: &Option<String>) -> (r: Vec<char>)
    ensures
        r@ == trimmed(*s),
{
    match s {
        Some(x) => trim_chars(&chars_of(x.as_str())),
        None => Vec::new(),
    }
}

impl DeviceDescriptor {
    /// The name shown in the list: vendor and product, which come apart,
    /// joined; one of them when the other is blank; and a name of last
    /// resort when both are, for a blank name lets nobody tell devices apart.
    pub open spec fn friendly_spec(&self) -> Seq<char> {
        let v = trimmed(self.vendor);
        let p = trimmed(self.product);
        if v.len() > 0 && p.len() > 0 {
            v + " "@ + p
        } else if p.len() > 0 {
            p
        } else if v.len() > 0 {
            v
        } else {
            "USB 저장장치"@
        }
    }

    pub fn friendly_name(&self) -> (r: String)
        ensures
            r@ == self.friendly_spec(),
    {
        let v = trimmed_of(&self.vendor);
        let p = trimmed_of(&self.product);
        if v.len() > 0 && p.len() > 0 {
            let mut s = string_of(v.as_slice());
            push_char(&mut s, ' ');
            let q = string_of(p.as_slice());
            push_str(&mut s, q.as_str());
            proof {
                reveal_strlit(" ");
                assert(s@ =~= v@ + " "@ + p@);
            }
            s
        } else if p.len() > 0 {
            string_of(p.as_slice())
        } else if v.len() > 0 {
            string_of(v.as_slice())
        } else {
            "USB 저장장치".to_owned()
        }
    }
}

/// Whether an ASCII letter.
pub open spec fn ascii_alpha(c: char) -> bool {
    ('a' <= c && c <= 'z') || ('A' <= c && c <= 'Z')
}

/// The ASCII upper-case form of a letter.
pub open spec fn ascii_upper(c: char) -> char {
    if 'a' <= c && c <= 'z' {
        ((c as u32) - 32) as char
    } else {
        c
    }
}

/// What [`drive_prefix`] gives: `\\.\C:` for a path that starts with a
/// drive letter and a colon.
pub open spec fn drive_prefix_spec(p: Seq<char>) -> Option<Seq<char>> {
    if p.len() >= 2 && ascii_alpha(p[0]) && p[1] == ':' {
        Some("\\\\.\\"@ + seq![ascii_upper(p[0])] + ":"@)
    } else {
        None
    }
}

/// The volume device path (`\\.\C:`) of the drive a path lies on.
pub fn drive_prefix(p: &str) -> (r: Option<String>)
    ensures
        match r {
            Some(s) => drive_prefix_spec(p@) == Some(s@),
            None => drive_prefix_spec(p@) is None,
        },
{
    let cs = chars_of(p);
    if cs.len() < 2 {
        return None;
    }
    let c = cs[0];
    let alpha = ('a' <= c && c <= 'z') || ('A' <= c && c <= 'Z');
    if !alpha || cs[1] != ':' {
        return None;
    }
    let up = if 'a' <= c && c <= 'z' {
        let b: u8 = (c as u32) as u8;
        let u: u8 = b - 32;
        proof {
            assert((u as char) == (((c as u32) - 32) as char));
        }
        u as char
    } else {
        c
    };
    let mut s = String::new();
    push_str(&mut s, "\\\\.\\");
    push_char(&mut s, up);
    push_str(&mut s, ":");
    proof {
        assert(s@ =~= "\\\\.\\"@ + seq![ascii_upper(c)] + ":"@);
    }
    Some(s)
}

/// The protected disks as found, or disk 0 alone when none could be found:
/// a failure to find them must not lift the protection.
pub fn protected_or_disk_zero(found: HashSet<u32>) -> (r: HashSet<u32>)
    ensures
        r@ == if found@.is_empty() {
            set![0u32]
        } else {
            found@
        },
{
    if found.is_empty() {
        let mut z: HashSet<u32> = HashSet::new();
        z.insert(0);
        proof {
            assert(z@ =~= set![0u32]);
        }
        z
    } else {
        found
    }
}

// ---------------------------------------------------------------------------
// Before anything is destroyed

/// Disk 0 is refused before the device is even opened.
pub fn refuse_disk_zero(disk: &DiskInfo) -> (r: Result<(), DeviceError>)
    ensures
        r is Err <==> disk.number == 0,
        r matches Err(e) ==> (e matches DeviceError::IdentityChanged { message } && message@
            == "디스크 0 번은 시스템 디스크입니다"@),
{
    if disk.number == 0 {
        return Err(DeviceError::IdentityChanged { message: "디스크 0 번은 시스템 디스크입니다".to_owned() });
    }
    Ok(())
}

/// The number the device reports must be the one picked. Comparing the
/// picked number with a copy of itself would always pass, and disk numbers
/// are reused.
pub fn check_number(picked: u32, reported: u32) -> (r: Result<(), DeviceError>)
    ensures
        r is Err <==> picked != reported,
        r matches Err(e) ==> (e matches DeviceError::IdentityChanged { message } && message@
            == "디스크 번호가 다릅니다: "@ + dec(picked as nat) + " 번을 골랐는데 장치는 "@ + dec(
            reported as nat,
        ) + " 번이라고 답합니다"@),
{
    if picked != reported {
        let mut m = String::new();
        push_str(&mut m, "디스크 번호가 다릅니다: ");
        push_dec(&mut m, picked as u64);
        push_str(&mut m, " 번을 골랐는데 장치는 ");
        push_dec(&mut m, reported as u64);
        push_str(&mut m, " 번이라고 답합니다");
        return Err(DeviceError::IdentityChanged { message: m });
    }
    Ok(())
}

/// The checks on the opened device, all before anything is destroyed: the
/// device must be on the USB bus, be the one picked, and not be write
/// protected. Checking after the layout was cleared would not prevent a
/// wrong device from being wiped, only report it.
pub fn check_opened(picked: &DiskInfo, observed: &DiskInfo) -> (r: Result<(), DeviceError>)
    ensures
        observed.bus_type != BusType::Usb ==> (r matches Err(e) && e matches DeviceError::IdentityChanged {
            message,
        } && message@ == "USB 가 아닙니다: 연결 방식이 "@ + bus_name(observed.bus_type) + " 입니다"@),
        observed.bus_type == BusType::Usb && confirm_identity_spec(*picked, *observed) is Err ==> (r
            matches Err(e) && e matches DeviceError::IdentityChanged { message } && message@
            == crate::safety::describe_spec(
            confirm_identity_spec(*picked, *observed)->Err_0,
        )),
        observed.bus_type == BusType::Usb && confirm_identity_spec(*picked, *observed) is Ok
            && observed.is_read_only ==> r == Err::<(), DeviceError>(
            DeviceError::WriteDenied { op: "쓰기 금지 매체 확인" },
        ),
        observed.bus_type == BusType::Usb && confirm_identity_spec(*picked, *observed) is Ok
            && !observed.is_read_only ==> r is Ok,
{
    if observed.bus_type != BusType::Usb {
        let mut m = String::new();
        push_str(&mut m, "USB 가 아닙니다: 연결 방식이 ");
        push_str(&mut m, bus_type_name(observed.bus_type));
        push_str(&mut m, " 입니다");
        return Err(DeviceError::IdentityChanged { message: m });
    }
    match confirm_identity(picked, observed) {
        Ok(()) => {},
        Err(m) => {
            return Err(DeviceError::IdentityChanged { message: m.describe() });
        },
    }
    if observed.is_read_only {
        return Err(DeviceError::WriteDenied { op: "쓰기 금지 매체 확인" });
    }
    Ok(())
}

/// The front of the device zeroed before the volumes are locked: 1 MiB, the
/// MBR, the GPT header and its entries, belongs to no volume and can be
/// written while they are mounted; wiping it makes them go away. In whole
/// sectors, and never past the device.
pub fn head_to_clear(size: u64, sector: u32) -> (r: u64)
    requires
        sector > 0,
    ensures
        r as nat == ((if size < 1024 * 1024 {
            size as nat
        } else {
            1024 * 1024
        }) / (sector as nat)) * (sector as nat),
{
    let h: u64 = if size < 1024 * 1024 {
        size
    } else {
        1024 * 1024
    };
    let ss = sector as u64;
    proof {
        assert((h / ss) * ss <= h) by (nonlinear_arith)
            requires
                ss > 0,
        ;
    }
    (h / ss) * ss
}

// ---------------------------------------------------------------------------
// Writing

/// Checks that a request is aligned to whole sectors; otherwise Windows
/// answers Win32 87, whose number does not say that alignment is the cause.
pub fn check_aligned(offset: u64, len: usize, sector: u32, what: &str, prep_notes: &str) -> (r:
    Result<(), DeviceError>)
    requires
        sector > 0,
    ensures
        r is Ok <==> (offset as nat) % (sector as nat) == 0 && (len as nat) % (sector as nat) == 0,
        r matches Err(e) ==> exists|m: String|
            m@ == "정렬 오류: 오프셋 "@ + dec(offset as nat) + ", 길이 "@ + dec(len as nat)
                + ", 섹터 "@ + dec(sector as nat) && #[trigger] write_context(
                DeviceError::Io { code: 87, message: m },
                what@,
                Some(offset),
                prep_notes@,
                e,
            ),
{
    let ss = sector as u64;
    if offset % ss != 0 || (len as u64) % ss != 0 {
        let mut m = String::new();
        push_str(&mut m, "정렬 오류: 오프셋 ");
        push_dec(&mut m, offset);
        push_str(&mut m, ", 길이 ");
        push_dec(&mut m, len as u64);
        push_str(&mut m, ", 섹터 ");
        push_dec(&mut m, ss);
        let ghost mv = m;
        let e = with_write_context(DeviceError::Io { code: 87, message: m }, what, Some(offset), prep_notes);
        proof {
            assert(write_context(DeviceError::Io { code: 87, message: mv }, what@, Some(offset), prep_notes@, e));
        }
        return Err(e);
    }
    Ok(())
}

/// Whether a failed write is tried again, after a pause: a USB controller
/// may stop answering for a moment, and giving up at once would call a sound
/// stick broken. Four tries in all, and none on Win32 87, which is a size
/// problem and is met by shrinking the pieces.
pub fn retry_write(e: &DeviceError, tries: u32) -> (r: bool)
    ensures
        r == (tries < 4 && !(*e matches DeviceError::Io { code, .. } && code == 87)),
{
    if tries >= 4 {
        return false;
    }
    match e {
        DeviceError::Io { code, .. } => *code != 87,
        _ => true,
    }
}

/// The piece size after a write failed for good with `e`. Some drivers cap
/// the size of one transfer and answer Win32 87 past it: alignment being
/// already right, the piece is halved, in whole sectors and never below one.
/// None when the failure is final.
pub fn shrink_after(e: &DeviceError, chunk: usize, sector: usize) -> (r: Option<usize>)
    requires
        sector > 0,
    ensures
        (*e matches DeviceError::Io { code, .. } && code == 87) && chunk > sector ==> (r matches Some(
            k,
        ) && k as int == (if (chunk / 2) / sector > 0 {
            (chunk / 2) / sector
        } else {
            1
        }) * sector),
        !((*e matches DeviceError::Io { code, .. } && code == 87) && chunk > sector) ==> r is None,
{
    let is87 = match e {
        DeviceError::Io { code, .. } => *code == 87,
        _ => false,
    };
    if is87 && chunk > sector {
        let q = (chunk / 2) / sector;
        let k: usize = if q > 0 {
            q
        } else {
            1
        };
        proof {
            assert(k * sector <= chunk) by (nonlinear_arith)
                requires
                    q == (chunk / 2) / sector,
                    k == (if q > 0 {
                        q
                    } else {
                        1
                    }),
                    sector > 0,
                    chunk > sector,
            ;
        }
        return Some(k * sector);
    }
    None
}

/// The range zeroed at the end of the device: the last `bytes` rounded up
/// to whole sectors, never more than the device, starting on a sector.
/// Gives (start, count).
pub fn tail_range(total: u64, sector: u32, bytes: u64) -> (r: (u64, u64))
    requires
        sector > 0,
        total <= MAX_DEVICE_BYTES,
    ensures
        ({
            let ss = sector as nat;
            let len = if padlen(bytes as nat, ss) < total {
                padlen(bytes as nat, ss)
            } else {
                total as nat
            };
            let start = ((total - len) as nat / ss) * ss;
            &&& r.0 == start
            &&& r.1 == ((total - start) as nat / ss) * ss
        }),
{
    let ss = sector as u64;
    proof {
        lemma_padlen_bounds(bytes as nat, ss as nat);
    }
    let len: u64 = if bytes >= total {
        total
    } else {
        proof {
            let x = (bytes + ss - 1) as nat;
            assert((x / (ss as nat)) * (ss as nat) <= x) by (nonlinear_arith)
                requires
                    ss > 0,
            ;
        }
        let p = ((bytes + ss - 1) / ss) * ss;
        proof {
            assert(p == padlen(bytes as nat, ss as nat));
        }
        if p < total {
            p
        } else {
            total
        }
    };
    proof {
        assert(((total - len) as nat / (ss as nat)) * (ss as nat) <= (total - len)) by (nonlinear_arith)
            requires
                ss > 0,
                len <= total,
        ;
    }
    let start = ((total - len) / ss) * ss;
    proof {
        assert(((total - start) as nat / (ss as nat)) * (ss as nat) <= (total - start)) by (nonlinear_arith)
            requires
                ss > 0,
                start <= total,
        ;
    }
    (start, ((total - start) / ss) * ss)
}

} // verus!

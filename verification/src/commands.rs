//! What the front end is given.
//!
//! Domain values are turned into the shape the UI uses here. Safety verdicts
//! go out as stable codes, not sentences: the front end translates them.
use crate::device::{debug_of, debug_text, DeviceError, UsbEnumerator};
use crate::layout::{Layout, Scheme};
use crate::loader::Loader;
use crate::model::{same_disk, BusType, DiskInfo, VolumeInfo};
use crate::progress::{format_bytes, format_bytes_spec};
use crate::safety::{availability, availability_spec, hidden_reason_spec, Availability, Rejection};
use crate::text::{push_char, push_str};
use std::collections::HashSet;
use vstd::prelude::*;

verus! {

broadcast use vstd::std_specs::hash::group_hash_axioms;

/// One disk in the list.
#[derive(Debug, Clone)]
pub struct DiskEntry {
    pub number: u32,
    pub name: String,
    pub size_bytes: u64,
    /// Size for people; made here so the front end does not compute it again.
    pub size_label: String,
    /// Drive letters now mounted: how users recognise their stick.
    pub drive_letters: Vec<String>,
    /// Whether it can be picked.
    pub ready: bool,
    /// When it cannot, the reason's code; the front end translates it.
    pub blocked_reason: Option<String>,
    /// A value that goes with the reason (the minimum size, ...).
    pub blocked_detail: Option<String>,
}

/// The analysis of a source, for the confirmation screen.
#[derive(Debug, Clone)]
pub struct SourcePlan {
    pub bytes: u64,
    /// Size for people.
    pub size_label: String,
    pub partitions: u32,
    pub scheme: String,
}

impl SourcePlan {
    /// The plan shown for a layout.
    pub fn from_layout(l: Layout) -> (r: SourcePlan)
        ensures
            r.bytes == l.bytes,
            r.size_label@ == format_bytes_spec(l.bytes),
            r.partitions == l.partitions,
            r.scheme@ == "MBR"@,
    {
        SourcePlan {
            bytes: l.bytes,
            size_label: format_bytes(l.bytes),
            partitions: l.partitions,
            scheme: match l.scheme {
                Scheme::Mbr => "MBR".to_owned(),
            },
        }
    }
}

/// The stable code of a reason. A sentence could not be switched to
/// another language.
pub open spec fn reason_code_spec(r: Rejection) -> Seq<char> {
    match r {
        Rejection::ReadOnly => "read_only"@,
        Rejection::BelowMinimumCapacity { .. } => "too_small_for_any_image"@,
        Rejection::TooSmall { .. } => "image_too_large"@,
        Rejection::NoMedia => "no_media"@,
        Rejection::SpannedVolume => "spanned_volume"@,
        Rejection::SourceOnTarget => "source_on_target"@,
        Rejection::SameDisk => "same_disk"@,
        // Hidden reasons: they never reach the UI.
        Rejection::NotUsb(_) => "not_usb"@,
        Rejection::DiskZero => "disk_zero"@,
        Rejection::SystemDisk => "system_disk"@,
        Rejection::Protected => "protected"@,
    }
}

/// The value that goes with a reason: the size it is about.
pub open spec fn reason_detail_spec(r: Rejection) -> Option<Seq<char>> {
    match r {
        Rejection::BelowMinimumCapacity { minimum, .. } => Some(format_bytes_spec(minimum)),
        Rejection::TooSmall { need, .. } => Some(format_bytes_spec(need)),
        _ => None,
    }
}

/// The view of an optional string.
pub open spec fn opt_view(s: Option<String>) -> Option<Seq<char>> {
    match s {
        Some(x) => Some(x@),
        None => None,
    }
}

fn reason_code(r: &Rejection) -> (p: (&'static str, Option<String>))
    ensures
        p.0@ == reason_code_spec(*r),
        opt_view(p.1) == reason_detail_spec(*r),
{
    match r {
        Rejection::ReadOnly => ("read_only", None),
        Rejection::BelowMinimumCapacity { minimum, .. } => (
            "too_small_for_any_image",
            Some(format_bytes(*minimum)),
        ),
        Rejection::TooSmall { need, .. } => ("image_too_large", Some(format_bytes(*need))),
        Rejection::NoMedia => ("no_media", None),
        Rejection::SpannedVolume => ("spanned_volume", None),
        Rejection::SourceOnTarget => ("source_on_target", None),
        Rejection::SameDisk => ("same_disk", None),
        Rejection::NotUsb(_) => ("not_usb", None),
        Rejection::DiskZero => ("disk_zero", None),
        Rejection::SystemDisk => ("system_disk", None),
        Rejection::Protected => ("protected", None),
    }
}

/// The drive letters of some volumes, each followed by a colon.
pub open spec fn letters(vols: Seq<VolumeInfo>) -> Seq<Seq<char>>
    decreases vols.len(),
{
    if vols.len() == 0 {
        Seq::empty()
    } else {
        let rest = letters(vols.drop_last());
        match vols.last().drive_letter {
            Some(c) => rest.push(seq![c, ':']),
            None => rest,
        }
    }
}

/// The character sequences held by some strings.
pub open spec fn string_views(v: Seq<String>) -> Seq<Seq<char>> {
    v.map_values(|s: String| s@)
}

/// Whether `e` is the entry shown for disk `d` with availability `a`.
pub open spec fn entry_for(d: DiskInfo, a: Availability, e: DiskEntry) -> bool {
    &&& e.number == d.number
    &&& e.name@ == d.friendly_name@
    &&& e.size_bytes == d.size_bytes
    &&& e.size_label@ == format_bytes_spec(d.size_bytes)
    &&& string_views(e.drive_letters@) == letters(d.volumes@)
    &&& e.ready == (a is Ready)
    &&& match a {
        Availability::Ready => e.blocked_reason is None && e.blocked_detail is None,
        Availability::Disabled(r) => opt_view(e.blocked_reason) == Some(reason_code_spec(r))
            && opt_view(e.blocked_detail) == reason_detail_spec(r),
        Availability::Hidden(r) => opt_view(e.blocked_reason) == Some(reason_code_spec(r))
            && opt_view(e.blocked_detail) == reason_detail_spec(r),
    }
}

fn drive_letters_of(vols: &Vec<VolumeInfo>) -> (r: Vec<String>)
    ensures
        string_views(r@) == letters(vols@),
{
    let mut out: Vec<String> = Vec::new();
    let mut i: usize = 0;
    proof {
        assert(string_views(out@) =~= letters(vols@.take(0)));
    }
    while i < vols.len()
        invariant
            i <= vols@.len(),
            string_views(out@) == letters(vols@.take(i as int)),
        decreases vols@.len() - i,
    {
        proof {
            assert(vols@.take((i + 1) as int).drop_last() =~= vols@.take(i as int));
        }
        match vols[i].drive_letter {
            Some(c) => {
                let mut s = String::new();
                push_char(&mut s, c);
                push_char(&mut s, ':');
                let ghost before = out@;
                out.push(s);
                proof {
                    assert(s@ =~= seq![c, ':']);
                    assert(string_views(out@) =~= string_views(before).push(seq![c, ':']));
                }
            },
            None => {},
        }
        i += 1;
    }
    proof {
        assert(vols@.take(i as int) =~= vols@);
    }
    out
}

fn to_entry(disk: &DiskInfo, availability: Availability) -> (e: DiskEntry)
    ensures
        entry_for(*disk, availability, e),
{
    let (ready, blocked_reason, blocked_detail) = match &availability {
        Availability::Ready => (true, None, None),
        Availability::Disabled(r) => {
            let (code, detail) = reason_code(r);
            (false, Some(code.to_owned()), detail)
        },
        Availability::Hidden(r) => {
            let (code, detail) = reason_code(r);
            (false, Some(code.to_owned()), detail)
        },
    };
    DiskEntry {
        number: disk.number,
        name: disk.friendly_name.clone(),
        size_bytes: disk.size_bytes,
        size_label: format_bytes(disk.size_bytes),
        drive_letters: drive_letters_of(&disk.volumes),
        ready,
        blocked_reason,
        blocked_detail,
    }
}

/// The disks of `disks` that are shown, in order.
pub open spec fn visible(disks: Seq<DiskInfo>, protected: Set<u32>) -> Seq<DiskInfo>
    decreases disks.len(),
{
    if disks.len() == 0 {
        Seq::empty()
    } else if hidden_reason_spec(disks.last(), protected) is Some {
        visible(disks.drop_last(), protected)
    } else {
        visible(disks.drop_last(), protected).push(disks.last())
    }
}

/// Only USB disks reach the list: every disk shown is one of the disks
/// given, is on the USB bus, is not disk 0, carries no system flag and is not
/// protected; and every such disk that nothing hides is shown.
pub proof fn law_only_usb_disks_are_shown(disks: Seq<DiskInfo>, protected: Set<u32>)
    ensures
        visible(disks, protected).len() <= disks.len(),
        forall|i: int|
            0 <= i < visible(disks, protected).len() ==> {
                let d = #[trigger] visible(disks, protected)[i];
                &&& disks.contains(d)
                &&& hidden_reason_spec(d, protected) is None
                &&& d.bus_type == BusType::Usb
                &&& d.number != 0
                &&& !(d.is_system || d.is_boot || d.boot_from_disk || d.is_clustered)
                &&& !protected.contains(d.number)
            },
        forall|d: DiskInfo|
            disks.contains(d) && hidden_reason_spec(d, protected) is None ==> #[trigger] visible(
                disks,
                protected,
            ).contains(d),
    decreases disks.len(),
{
    if disks.len() > 0 {
        let rest = disks.drop_last();
        law_only_usb_disks_are_shown(rest, protected);
        let v0 = visible(rest, protected);
        let v = visible(disks, protected);
        assert forall|i: int| 0 <= i < v.len() implies disks.contains(#[trigger] v[i]) && hidden_reason_spec(v[i], protected) is None by {
            if i < v0.len() {
                assert(v[i] == v0[i]);
                let j = choose|j: int| 0 <= j < rest.len() && rest[j] == v0[i];
                assert(disks[j] == rest[j]);
            } else {
                assert(v[i] == disks.last());
                assert(disks[disks.len() - 1] == disks.last());
            }
        }
        assert forall|d: DiskInfo| disks.contains(d) && hidden_reason_spec(d, protected) is None implies #[trigger] v.contains(d) by {
            let j = choose|j: int| 0 <= j < disks.len() && disks[j] == d;
            if j < disks.len() - 1 {
                assert(rest[j] == d);
                assert(rest.contains(d));
                assert(v0.contains(d));
                let k = choose|k: int| 0 <= k < v0.len() && v0[k] == d;
                assert(v[k] == v0[k]);
            } else {
                assert(v[v.len() - 1] == d);
            }
        }
    }
}

/// Whether `v` is the list shown for `disks`: one entry per shown disk, in order.
pub open spec fn listing(disks: Seq<DiskInfo>, protected: Set<u32>, v: Seq<DiskEntry>) -> bool {
    let shown = visible(disks, protected);
    &&& v.len() == shown.len()
    &&& forall|i: int|
        0 <= i < v.len() ==> #[trigger] entry_for(
            shown[i],
            availability_spec(shown[i], protected),
            v[i],
        )
}

/// The entries shown for a list of disks. What must be hidden is already
/// gone: the front end never carries the duty of filtering, so that a UI bug
/// cannot expose an internal disk.
pub fn entries_for(disks: &Vec<DiskInfo>, protected: &HashSet<u32>) -> (r: Vec<DiskEntry>)
    ensures
        listing(disks@, protected@, r@),
{
    let mut out: Vec<DiskEntry> = Vec::new();
    let mut i: usize = 0;
    while i < disks.len()
        invariant
            i <= disks@.len(),
            listing(disks@.take(i as int), protected@, out@),
        decreases disks@.len() - i,
    {
        proof {
            assert(disks@.take((i + 1) as int).drop_last() =~= disks@.take(i as int));
        }
        let a = availability(&disks[i], protected);
        if a.is_visible() {
            let e = to_entry(&disks[i], a);
            out.push(e);
        }
        i += 1;
    }
    proof {
        assert(disks@.take(i as int) =~= disks@);
    }
    out
}

/// Whether `v` is the list shown for disks equal, field by field, to `listed`.
pub open spec fn shown_for(listed: Seq<DiskInfo>, protected: Set<u32>, v: Seq<DiskEntry>) -> bool {
    exists|disks: Seq<DiskInfo>|
        #![trigger listing(disks, protected, v)]
        disks.len() == listed.len() && (forall|i: int|
            0 <= i < disks.len() ==> #[trigger] same_disk(disks[i], listed[i])) && listing(
            disks,
            protected,
            v,
        )
}

/// What the list shows once the protected numbers are known, for what the
/// enumeration gave: its entries, or the enumeration's error as its debug
/// text.
pub fn list_from(protected: &HashSet<u32>, disks: Result<Vec<DiskInfo>, DeviceError>) -> (r: Result<
    Vec<DiskEntry>,
    String,
>)
    ensures
        disks matches Err(e) ==> (r matches Err(s) && s@ == debug_of(e)),
        disks matches Ok(d) ==> (r matches Ok(v) && listing(d@, protected@, v@)),
{
    match disks {
        Ok(d) => Ok(entries_for(&d, protected)),
        Err(e) => Err(debug_text(&e)),
    }
}

/// The disks to show in the list. A failure of the enumerator comes back as
/// its debug text: the protected numbers are asked first, the disks only
/// once they are known.
pub fn list_disks_with<E: UsbEnumerator>(enumerator: &E) -> (r: Result<Vec<DiskEntry>, String>)
    ensures
        r matches Err(s) ==> exists|e: DeviceError|
            #![trigger debug_of(e)]
            s@ == debug_of(e) && (enumerator.refuses_protected(e) || enumerator.refuses_listing(e)),
        r matches Ok(v) ==> shown_for(enumerator.listed(), enumerator.protected_view(), v@),
        enumerator.always_answers() ==> r is Ok,
{
    let protected = match enumerator.protected_disk_numbers() {
        Ok(p) => p,
        Err(e) => {
            return Err(debug_text(&e));
        },
    };
    let listed = enumerator.list_disks();
    let ghost was = listed;
    let entries = match list_from(&protected, listed) {
        Ok(v) => v,
        Err(m) => {
            return Err(m);
        },
    };
    proof {
        let d = was->Ok_0;
        assert(d@.len() == enumerator.listed().len() && (forall|i: int|
            0 <= i < d@.len() ==> #[trigger] same_disk(d@[i], enumerator.listed()[i]))
            && listing(d@, enumerator.protected_view(), entries@));
        assert(shown_for(enumerator.listed(), enumerator.protected_view(), entries@));
    }
    Ok(entries)
}

/// Whether `a` and `b` hold the same characters.
fn same_text(a: &str, b: &str) -> (r: bool)
    ensures
        r == (a@ == b@),
{
    let x = crate::text::chars_of(a);
    let y = crate::text::chars_of(b);
    if x.len() != y.len() {
        return false;
    }
    let r = crate::text::seq_starts_with(x.as_slice(), y.as_slice());
    proof {
        assert(x@.subrange(0, y@.len() as int) =~= x@);
    }
    r
}

/// The loader the front end names: `MShell` or `Rr`.
pub fn loader_named(name: &str) -> (r: Result<Loader, String>)
    ensures
        name@ == "MShell"@ ==> r == Ok::<Loader, String>(Loader::MShell),
        name@ == "Rr"@ ==> r == Ok::<Loader, String>(Loader::Rr),
        name@ != "MShell"@ && name@ != "Rr"@ ==> (r matches Err(m) && m@ == "알 수 없는 로더: "@
            + name@),
{
    proof {
        reveal_strlit("MShell");
        reveal_strlit("Rr");
        assert("MShell"@.len() != "Rr"@.len());
    }
    if same_text(name, "MShell") {
        return Ok(Loader::MShell);
    }
    if same_text(name, "Rr") {
        return Ok(Loader::Rr);
    }
    let mut m = String::new();
    push_str(&mut m, "알 수 없는 로더: ");
    push_str(&mut m, name);
    Err(m)
}

/// Whether `disks[i]` is the first disk numbered `number`.
pub open spec fn first_numbered(disks: Seq<DiskInfo>, number: u32, i: int) -> bool {
    &&& 0 <= i < disks.len()
    &&& disks[i].number == number
    &&& forall|j: int| 0 <= j < i ==> #[trigger] disks[j].number != number
}

/// What a write job runs on: the protected disks, and the disk numbered
/// `number` as the system lists it now. The front end's copy is not trusted:
/// the device may have changed since the list was shown.
pub fn job_target<E: UsbEnumerator>(enumerator: &E, number: u32) -> (r: Result<
    (HashSet<u32>, DiskInfo),
    String,
>)
    ensures
        r matches Ok((p, d)) ==> p@ == enumerator.protected_view() && exists|i: int|
            first_numbered(enumerator.listed(), number, i) && #[trigger] same_disk(
                d,
                enumerator.listed()[i],
            ),
        r matches Err(m) ==> (exists|e: DeviceError| m@ == debug_of(e)) || (m@
            == "선택한 USB를 찾을 수 없습니다"@ && forall|i: int|
            0 <= i < enumerator.listed().len() ==> #[trigger] enumerator.listed()[i].number
                != number),
{
    let protected = match enumerator.protected_disk_numbers() {
        Ok(p) => p,
        Err(e) => {
            return Err(debug_text(&e));
        },
    };
    let mut disks = match enumerator.list_disks() {
        Ok(d) => d,
        Err(e) => {
            return Err(debug_text(&e));
        },
    };
    let ghost listed = enumerator.listed();
    let mut i: usize = 0;
    while i < disks.len()
        invariant
            i <= disks@.len(),
            listed == enumerator.listed(),
            protected@ == enumerator.protected_view(),
            disks@.len() == listed.len(),
            forall|k: int| 0 <= k < disks@.len() ==> #[trigger] same_disk(disks@[k], listed[k]),
            forall|k: int| 0 <= k < i ==> #[trigger] listed[k].number != number,
        decreases disks@.len() - i,
    {
        if disks[i].number == number {
            proof {
                assert(same_disk(disks@[i as int], listed[i as int]));
            }
            let d = disks.remove(i);
            proof {
                assert(first_numbered(listed, number, i as int));
                assert(same_disk(d, enumerator.listed()[i as int]));
            }
            return Ok((protected, d));
        }
        proof {
            assert(same_disk(disks@[i as int], listed[i as int]));
        }
        i += 1;
    }
    Err("선택한 USB를 찾을 수 없습니다".to_owned())
}

/// Which kind of reason `r` is.
pub open spec fn reason_kind(r: Rejection) -> int {
    match r {
        Rejection::NotUsb(_) => 0,
        Rejection::DiskZero => 1,
        Rejection::SystemDisk => 2,
        Rejection::ReadOnly => 3,
        Rejection::Protected => 4,
        Rejection::NoMedia => 5,
        Rejection::SpannedVolume => 6,
        Rejection::BelowMinimumCapacity { .. } => 7,
        Rejection::TooSmall { .. } => 8,
        Rejection::SourceOnTarget => 9,
        Rejection::SameDisk => 10,
    }
}

/// Codes tell reasons apart: two reasons get the same code exactly when they
/// are of the same kind, so the UI never shows one reason for another (a
/// write-protected stick as one without a medium, say).
pub proof fn law_reason_codes_tell_kinds_apart(a: Rejection, b: Rejection)
    ensures
        (reason_code_spec(a) == reason_code_spec(b)) <==> (reason_kind(a) == reason_kind(b)),
{
    reveal_strlit("read_only");
    reveal_strlit("too_small_for_any_image");
    reveal_strlit("image_too_large");
    reveal_strlit("no_media");
    reveal_strlit("spanned_volume");
    reveal_strlit("source_on_target");
    reveal_strlit("same_disk");
    reveal_strlit("not_usb");
    reveal_strlit("disk_zero");
    reveal_strlit("system_disk");
    reveal_strlit("protected");
    if reason_kind(a) != reason_kind(b) {
        let x = reason_code_spec(a);
        let y = reason_code_spec(b);
        if x.len() == y.len() {
            assert(x[0] != y[0] || x[1] != y[1] || x[2] != y[2]);
        }
    }
}

/// The codes the UI looks up, for the reasons a listed stick can be blocked
/// by: a write-protected stick is `read_only`, one without a medium
/// `no_media`.
pub proof fn law_reason_codes_of_blocked_sticks(r: Rejection)
    ensures
        r is ReadOnly <==> reason_code_spec(r) == "read_only"@,
        r is NoMedia <==> reason_code_spec(r) == "no_media"@,
        r is SpannedVolume <==> reason_code_spec(r) == "spanned_volume"@,
        r is BelowMinimumCapacity <==> reason_code_spec(r) == "too_small_for_any_image"@,
        r is TooSmall <==> reason_code_spec(r) == "image_too_large"@,
        r is SourceOnTarget <==> reason_code_spec(r) == "source_on_target"@,
{
    law_reason_codes_tell_kinds_apart(r, Rejection::ReadOnly);
    law_reason_codes_tell_kinds_apart(r, Rejection::NoMedia);
    law_reason_codes_tell_kinds_apart(r, Rejection::SpannedVolume);
    law_reason_codes_tell_kinds_apart(r, Rejection::BelowMinimumCapacity { have: 0, minimum: 0 });
    law_reason_codes_tell_kinds_apart(r, Rejection::TooSmall { need: 0, have: 0 });
    law_reason_codes_tell_kinds_apart(r, Rejection::SourceOnTarget);
}

} // verus!

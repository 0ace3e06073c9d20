//! Safety interlocks.
//!
//! This program overwrites disks irreversibly. Picking the wrong device destroys
//! the user's data for good, so these rules are the specification, not a
//! feature. They are pure functions and fail closed: when the information is
//! missing or ambiguous the disk is refused.
use crate::model::{BusType, DiskInfo, VolumeInfo};
use crate::text::{dec, push_dec, push_str};
use std::collections::HashSet;
use vstd::prelude::*;

verus! {

broadcast use vstd::std_specs::hash::group_hash_axioms;

/// Smallest USB stick that can hold any loader image (8 GB, decimal).
pub const MIN_USB_BYTES: u64 = 8_000_000_000;

/// How a disk shows up in the list.
///
/// Hiding and disabling differ on purpose: a stick that cannot be used is shown
/// with its reason, otherwise the user thinks it was not detected. Only disks
/// that are dangerous to show (internal disks) are hidden.
#[derive(Debug, Clone, PartialEq, Eq)]
pub enum Availability {
    Ready,
    Disabled(Rejection),
    Hidden(Rejection),
}

impl Availability {
    pub fn is_ready(&self) -> (r: bool)
        ensures
            r == (*self is Ready),
    {
        matches!(self, Availability::Ready)
    }

    pub fn is_visible(&self) -> (r: bool)
        ensures
            r == !(*self is Hidden),
    {
        !matches!(self, Availability::Hidden(_))
    }
}

/// Why a disk is not a target.
#[derive(Debug, Clone, PartialEq, Eq)]
pub enum Rejection {
    /// Not on the USB bus: the first line of defence against internal disks.
    NotUsb(BusType),
    /// Disk number 0, by convention the boot disk.
    DiskZero,
    /// Flagged as system, boot, boot-from or clustered disk.
    SystemDisk,
    ReadOnly,
    /// In the protected set (system drive, Windows folder, running programs, page file).
    Protected,
    /// Size 0: for example a card reader without a card.
    NoMedia,
    /// Holds a spanned or RAID volume.
    SpannedVolume,
    /// Too small for any loader image.
    BelowMinimumCapacity { have: u64, minimum: u64 },
    /// The chosen image is larger than the disk.
    TooSmall { need: u64, have: u64 },
    /// The source image lives on the target disk.
    SourceOnTarget,
    /// Source and target of a clone are the same disk.
    SameDisk,
}

impl Rejection {
    /// Is this a reason the user is shown? Hidden reasons never reach the UI.
    pub fn is_user_facing(&self) -> (r: bool)
        ensures
            r == user_facing(*self),
    {
        matches!(
            self,
            Rejection::NoMedia | Rejection::TooSmall { .. } | Rejection::BelowMinimumCapacity {
                ..
            } | Rejection::SourceOnTarget | Rejection::SpannedVolume | Rejection::ReadOnly
        )
    }
}

pub open spec fn user_facing(r: Rejection) -> bool {
    ||| r is NoMedia
    ||| r is TooSmall
    ||| r is BelowMinimumCapacity
    ||| r is SourceOnTarget
    ||| r is SpannedVolume
    ||| r is ReadOnly
}

pub open spec fn has_spanned_volume(vols: Seq<VolumeInfo>) -> bool {
    exists|i: int| 0 <= i < vols.len() && vols[i].disk_extent_count > 1
}

/// Why the disk must not even be listed, if it must not.
///
/// Flags such as `is_system` exclude only when true: `BootFromDisk` is unset on
/// every disk of a machine with several ESPs, so "unknown means exclude" would
/// empty the list. Bus type, number and size must be positively known.
pub open spec fn hidden_reason_spec(d: DiskInfo, protected: Set<u32>) -> Option<Rejection> {
    if d.bus_type != BusType::Usb {
        Some(Rejection::NotUsb(d.bus_type))
    } else if d.number == 0 {
        Some(Rejection::DiskZero)
    } else if d.is_system || d.is_boot || d.boot_from_disk || d.is_clustered {
        Some(Rejection::SystemDisk)
    } else if protected.contains(d.number) {
        Some(Rejection::Protected)
    } else if d.size_bytes == 0 {
        Some(Rejection::NoMedia)
    } else if has_spanned_volume(d.volumes@) {
        Some(Rejection::SpannedVolume)
    } else {
        None
    }
}

pub open spec fn availability_spec(d: DiskInfo, protected: Set<u32>) -> Availability {
    match hidden_reason_spec(d, protected) {
        Some(r) => Availability::Hidden(r),
        None => if d.is_read_only {
            Availability::Disabled(Rejection::ReadOnly)
        } else if d.size_bytes < MIN_USB_BYTES {
            Availability::Disabled(
                Rejection::BelowMinimumCapacity { have: d.size_bytes, minimum: MIN_USB_BYTES },
            )
        } else {
            Availability::Ready
        },
    }
}

pub open spec fn can_write_spec(
    d: DiskInfo,
    protected: Set<u32>,
    image_size: u64,
    source_image_disk: Option<u32>,
) -> Result<(), Rejection> {
    match availability_spec(d, protected) {
        Availability::Hidden(r) => Err(r),
        Availability::Disabled(r) => Err(r),
        Availability::Ready => if image_size > d.size_bytes {
            Err(Rejection::TooSmall { need: image_size, have: d.size_bytes })
        } else if source_image_disk == Some(d.number) {
            Err(Rejection::SourceOnTarget)
        } else {
            Ok(())
        },
    }
}

pub open spec fn can_clone_spec(
    source: DiskInfo,
    target: DiskInfo,
    protected: Set<u32>,
    bytes: u64,
) -> Result<(), Rejection> {
    if source.number == target.number {
        Err(Rejection::SameDisk)
    } else {
        match hidden_reason_spec(source, protected) {
            Some(r) => Err(r),
            None => can_write_spec(target, protected, bytes, Some(source.number)),
        }
    }
}

fn any_spanned(vols: &Vec<VolumeInfo>) -> (r: bool)
    ensures
        r == has_spanned_volume(vols@),
{
    let mut i: usize = 0;
    while i < vols.len()
        invariant
            i <= vols@.len(),
            forall|k: int| 0 <= k < i ==> vols@[k].disk_extent_count <= 1,
        decreases vols@.len() - i,
    {
        if vols[i].disk_extent_count > 1 {
            return true;
        }
        i += 1;
    }
    false
}

/// The reason to keep the disk off the list, or None when it may be shown.
pub fn hidden_reason(disk: &DiskInfo, protected: &HashSet<u32>) -> (r: Option<Rejection>)
    ensures
        r == hidden_reason_spec(*disk, protected@),
{
    if !matches!(disk.bus_type, BusType::Usb) {
        return Some(Rejection::NotUsb(disk.bus_type));
    }
    if disk.number == 0 {
        return Some(Rejection::DiskZero);
    }
    if disk.is_system || disk.is_boot || disk.boot_from_disk || disk.is_clustered {
        return Some(Rejection::SystemDisk);
    }
    if protected.contains(&disk.number) {
        return Some(Rejection::Protected);
    }
    if disk.size_bytes == 0 {
        return Some(Rejection::NoMedia);
    }
    if any_spanned(&disk.volumes) {
        return Some(Rejection::SpannedVolume);
    }
    None
}

/// The disk's state in the list: hidden, shown but disabled with a reason, or ready.
pub fn availability(disk: &DiskInfo, protected: &HashSet<u32>) -> (r: Availability)
    ensures
        r == availability_spec(*disk, protected@),
{
    if let Some(r) = hidden_reason(disk, protected) {
        return Availability::Hidden(r);
    }
    if disk.is_read_only {
        return Availability::Disabled(Rejection::ReadOnly);
    }
    if disk.size_bytes < MIN_USB_BYTES {
        return Availability::Disabled(
            Rejection::BelowMinimumCapacity { have: disk.size_bytes, minimum: MIN_USB_BYTES },
        );
    }
    Availability::Ready
}

/// May this disk be shown to the user at all?
pub fn is_listable(disk: &DiskInfo, protected: &HashSet<u32>) -> (r: Result<(), Rejection>)
    ensures
        r == match hidden_reason_spec(*disk, protected@) {
            Some(x) => Err(x),
            None => Ok(()),
        },
{
    match hidden_reason(disk, protected) {
        Some(r) => Err(r),
        None => Ok(()),
    }
}

/// May an image of `image_size` bytes actually be written to this disk?
///
/// `source_image_disk` is the disk holding the downloaded image, if known.
pub fn can_write(
    disk: &DiskInfo,
    protected: &HashSet<u32>,
    image_size: u64,
    source_image_disk: Option<u32>,
) -> (r: Result<(), Rejection>)
    ensures
        r == can_write_spec(*disk, protected@, image_size, source_image_disk),
{
    match availability(disk, protected) {
        Availability::Hidden(r) => return Err(r),
        Availability::Disabled(r) => return Err(r),
        Availability::Ready => {},
    }
    if image_size > disk.size_bytes {
        return Err(Rejection::TooSmall { need: image_size, have: disk.size_bytes });
    }
    match source_image_disk {
        Some(n) => if n == disk.number {
            return Err(Rejection::SourceOnTarget);
        },
        None => {},
    }
    Ok(())
}

/// May `source` be cloned onto `target`, copying `bytes` bytes?
///
/// The two must be different disks, the source must be listable, and the
/// target must accept the copy with the source counted as the image's home.
pub fn can_clone(
    source: &DiskInfo,
    target: &DiskInfo,
    protected: &HashSet<u32>,
    bytes: u64,
) -> (r: Result<(), Rejection>)
    ensures
        r == can_clone_spec(*source, *target, protected@, bytes),
{
    if source.number == target.number {
        return Err(Rejection::SameDisk);
    }
    if let Some(r) = hidden_reason(source, protected) {
        return Err(r);
    }
    can_write(target, protected, bytes, Some(source.number))
}

/// Why the device seen right before writing is not the one the user picked.
#[derive(Debug, Clone, PartialEq, Eq)]
pub enum IdentityMismatch {
    Number { expected: u32, actual: u32 },
    BusType(BusType),
    Size { expected: u64, actual: u64 },
    Name { expected: String, actual: String },
}

pub open spec fn confirm_identity_spec(selected: DiskInfo, observed: DiskInfo) -> Result<
    (),
    IdentityMismatch,
> {
    if selected.number != observed.number {
        Err(IdentityMismatch::Number { expected: selected.number, actual: observed.number })
    } else if observed.bus_type != BusType::Usb {
        Err(IdentityMismatch::BusType(observed.bus_type))
    } else if selected.size_bytes != observed.size_bytes {
        Err(IdentityMismatch::Size { expected: selected.size_bytes, actual: observed.size_bytes })
    } else if selected.friendly_name@ != observed.friendly_name@ {
        Err(
            IdentityMismatch::Name {
                expected: selected.friendly_name,
                actual: observed.friendly_name,
            },
        )
    } else {
        Ok(())
    }
}

/// Checks that the device read from the open handle is the device the user
/// chose. Disk numbers are reused, so the number alone proves nothing.
pub fn confirm_identity(selected: &DiskInfo, observed: &DiskInfo) -> (r: Result<
    (),
    IdentityMismatch,
>)
    ensures
        r == confirm_identity_spec(*selected, *observed),
{
    if selected.number != observed.number {
        return Err(
            IdentityMismatch::Number { expected: selected.number, actual: observed.number },
        );
    }
    if !matches!(observed.bus_type, BusType::Usb) {
        return Err(IdentityMismatch::BusType(observed.bus_type));
    }
    if selected.size_bytes != observed.size_bytes {
        return Err(
            IdentityMismatch::Size { expected: selected.size_bytes, actual: observed.size_bytes },
        );
    }
    if selected.friendly_name != observed.friendly_name {
        return Err(
            IdentityMismatch::Name {
                expected: selected.friendly_name.clone(),
                actual: observed.friendly_name.clone(),
            },
        );
    }
    Ok(())
}

pub open spec fn describe_spec(m: IdentityMismatch) -> Seq<char> {
    match m {
        IdentityMismatch::Number { expected, actual } => "디스크 번호가 다릅니다: 목록에서는 "@
            + dec(expected as nat) + "번, 장치는 "@ + dec(actual as nat) + "번"@,
        IdentityMismatch::BusType(b) => "USB 가 아닙니다: 연결 방식이 "@ + crate::model::bus_name(
            b,
        ) + " 입니다"@,
        IdentityMismatch::Size { expected, actual } => "용량이 다릅니다: 목록에서는 "@ + dec(
            expected as nat,
        ) + " 바이트, 장치는 "@ + dec(actual as nat) + " 바이트"@,
        IdentityMismatch::Name { expected, actual } => "이름이 다릅니다: 목록에서는 \""@
            + expected@ + "\", 장치는 \""@ + actual@ + "\""@,
    }
}

impl IdentityMismatch {
    /// One line telling what diverged and both values, so that a swapped stick
    /// and a stick whose size changed (a fake-capacity stick) can be told apart.
    pub fn describe(&self) -> (r: String)
        ensures
            r@ == describe_spec(*self),
    {
        let mut s = String::new();
        match self {
            IdentityMismatch::Number { expected, actual } => {
                push_str(&mut s, "디스크 번호가 다릅니다: 목록에서는 ");
                push_dec(&mut s, *expected as u64);
                push_str(&mut s, "번, 장치는 ");
                push_dec(&mut s, *actual as u64);
                push_str(&mut s, "번");
            },
            IdentityMismatch::BusType(b) => {
                push_str(&mut s, "USB 가 아닙니다: 연결 방식이 ");
                push_str(&mut s, crate::model::bus_type_name(*b));
                push_str(&mut s, " 입니다");
            },
            IdentityMismatch::Size { expected, actual } => {
                push_str(&mut s, "용량이 다릅니다: 목록에서는 ");
                push_dec(&mut s, *expected);
                push_str(&mut s, " 바이트, 장치는 ");
                push_dec(&mut s, *actual);
                push_str(&mut s, " 바이트");
            },
            IdentityMismatch::Name { expected, actual } => {
                push_str(&mut s, "이름이 다릅니다: 목록에서는 \"");
                push_str(&mut s, expected.as_str());
                push_str(&mut s, "\", 장치는 \"");
                push_str(&mut s, actual.as_str());
                push_str(&mut s, "\"");
            },
        }
        proof {
            assert(s@ =~= describe_spec(*self));
        }
        s
    }
}

// ---------------------------------------------------------------------------
// Laws
// ---------------------------------------------------------------------------

/// A disk that is not on the USB bus is never shown, never ready and never
/// writable, whatever its other properties.
pub proof fn law_non_usb_never_reaches_the_user(
    d: DiskInfo,
    protected: Set<u32>,
    image_size: u64,
    source: Option<u32>,
)
    requires
        d.bus_type != BusType::Usb,
    ensures
        availability_spec(d, protected) == Availability::Hidden(Rejection::NotUsb(d.bus_type)),
        can_write_spec(d, protected, image_size, source) == Err::<(), Rejection>(
            Rejection::NotUsb(d.bus_type),
        ),
{
}

/// Disk 0, system-flagged and protected disks are never listable.
pub proof fn law_disk_zero_system_and_protected_are_hidden(d: DiskInfo, protected: Set<u32>)
    requires
        d.number == 0 || d.is_system || d.is_boot || d.boot_from_disk || d.is_clustered
            || protected.contains(d.number),
    ensures
        hidden_reason_spec(d, protected) is Some,
        availability_spec(d, protected) is Hidden,
{
}

/// Whatever `can_write` accepts is a ready disk in the list, on the USB bus,
/// not disk 0, unprotected, at least the minimum size and large enough for the
/// image, and not the disk holding the image.
pub proof fn law_writable_implies_ready_and_safe(
    d: DiskInfo,
    protected: Set<u32>,
    image_size: u64,
    source: Option<u32>,
)
    requires
        can_write_spec(d, protected, image_size, source) is Ok,
    ensures
        availability_spec(d, protected) == Availability::Ready,
        hidden_reason_spec(d, protected) is None,
        d.bus_type == BusType::Usb,
        d.number != 0,
        !protected.contains(d.number),
        !d.is_read_only,
        d.size_bytes >= MIN_USB_BYTES,
        image_size <= d.size_bytes,
        source != Some(d.number),
{
}

/// A shown disk is exactly a disk with no hiding reason, and a ready disk is shown.
pub proof fn law_visibility_matches_hidden_reason(d: DiskInfo, protected: Set<u32>)
    ensures
        !(availability_spec(d, protected) is Hidden) <==> hidden_reason_spec(d, protected) is None,
        availability_spec(d, protected) is Ready ==> !(availability_spec(d, protected) is Hidden),
{
}

/// Every hidden reason is not user-facing, every disabling reason is.
pub proof fn law_hidden_reasons_are_not_user_facing(d: DiskInfo, protected: Set<u32>)
    ensures
        match availability_spec(d, protected) {
            Availability::Hidden(r) => r is NoMedia || r is SpannedVolume || !user_facing(r),
            Availability::Disabled(r) => user_facing(r),
            Availability::Ready => true,
        },
{
}

/// A clone is only allowed between two different disks, with a listable
/// source and a target that `can_write` accepts.
pub proof fn law_clone_needs_distinct_listable_source_and_writable_target(
    source: DiskInfo,
    target: DiskInfo,
    protected: Set<u32>,
    bytes: u64,
)
    requires
        can_clone_spec(source, target, protected, bytes) is Ok,
    ensures
        source.number != target.number,
        hidden_reason_spec(source, protected) is None,
        can_write_spec(target, protected, bytes, Some(source.number)) is Ok,
{
}

/// A device always confirms as itself when it is on the USB bus.
pub proof fn law_identity_is_reflexive_for_usb(d: DiskInfo)
    requires
        d.bus_type == BusType::Usb,
    ensures
        confirm_identity_spec(d, d) is Ok,
{
}

/// Confirmation fails whenever the observed device is not on the USB bus.
pub proof fn law_identity_refuses_non_usb(selected: DiskInfo, observed: DiskInfo)
    requires
        observed.bus_type != BusType::Usb,
    ensures
        confirm_identity_spec(selected, observed) is Err,
{
}

} // verus!

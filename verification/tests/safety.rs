use std::collections::HashSet;
use xpenology_usb::model::{BusType, DiskInfo, VolumeInfo};
use xpenology_usb::safety::{
    availability, can_clone, can_write, confirm_identity, is_listable, Availability,
    IdentityMismatch, Rejection, MIN_USB_BYTES,
};

fn usb_disk(number: u32) -> DiskInfo {
    DiskInfo {
        number,
        friendly_name: "SanDisk Ultra".into(),
        size_bytes: 32 * 1024 * 1024 * 1024,
        bus_type: BusType::Usb,
        is_system: false,
        is_boot: false,
        boot_from_disk: false,
        is_clustered: false,
        is_read_only: false,
        serial: Some("ABC123".into()),
        volumes: vec![],
    }
}

fn vol(extents: u32) -> VolumeInfo {
    VolumeInfo {
        guid_path: r"\\?\Volume{00000000-0000-0000-0000-000000000000}\".into(),
        drive_letter: Some('E'),
        file_system: Some("NTFS".into()),
        size_bytes: 32 * 1024 * 1024 * 1024,
        disk_extent_count: extents,
    }
}

fn none() -> HashSet<u32> {
    HashSet::new()
}

#[test]
fn plain_usb_stick_is_listable() {
    assert_eq!(is_listable(&usb_disk(2), &none()), Ok(()));
}

#[test]
fn every_non_usb_bus_is_rejected() {
    let buses = [
        BusType::Unknown,
        BusType::Scsi,
        BusType::Atapi,
        BusType::Ata,
        BusType::Ieee1394,
        BusType::Ssa,
        BusType::FibreChannel,
        BusType::Raid,
        BusType::IScsi,
        BusType::Sas,
        BusType::Sata,
        BusType::Sd,
        BusType::Mmc,
        BusType::Virtual,
        BusType::FileBackedVirtual,
        BusType::StorageSpaces,
        BusType::Nvme,
        BusType::Other,
    ];
    for bus in buses {
        let mut d = usb_disk(3);
        d.bus_type = bus;
        assert_eq!(
            is_listable(&d, &none()),
            Err(Rejection::NotUsb(bus)),
            "bus {bus:?} reached the list"
        );
    }
}

#[test]
fn nvme_system_drive_never_listed() {
    let mut d = usb_disk(0);
    d.bus_type = BusType::Nvme;
    d.is_system = true;
    d.friendly_name = "Samsung SSD 990 PRO".into();
    assert!(is_listable(&d, &none()).is_err());
}

#[test]
fn disk_zero_rejected_even_if_usb() {
    assert_eq!(is_listable(&usb_disk(0), &none()), Err(Rejection::DiskZero));
}

#[test]
fn system_flags_reject() {
    for set in [
        |d: &mut DiskInfo| d.is_system = true,
        |d: &mut DiskInfo| d.is_boot = true,
        |d: &mut DiskInfo| d.boot_from_disk = true,
        |d: &mut DiskInfo| d.is_clustered = true,
    ] {
        let mut d = usb_disk(2);
        set(&mut d);
        assert_eq!(is_listable(&d, &none()), Err(Rejection::SystemDisk));
    }
}

#[test]
fn protected_set_overrides_clean_usb_disk() {
    let d = usb_disk(2);
    let protected: HashSet<u32> = [2].into_iter().collect();
    assert_eq!(is_listable(&d, &protected), Err(Rejection::Protected));
}

#[test]
fn read_only_disk_is_shown_but_disabled() {
    let mut d = usb_disk(2);
    d.is_read_only = true;
    assert_eq!(is_listable(&d, &none()), Ok(()));
    assert_eq!(
        availability(&d, &none()),
        Availability::Disabled(Rejection::ReadOnly)
    );
    assert!(availability(&d, &none()).is_visible());
    assert!(!availability(&d, &none()).is_ready());
}

#[test]
fn undersized_disk_is_shown_but_disabled() {
    let mut d = usb_disk(2);
    d.size_bytes = 4 * 1000 * 1000 * 1000;
    assert_eq!(
        availability(&d, &none()),
        Availability::Disabled(Rejection::BelowMinimumCapacity {
            have: 4_000_000_000,
            minimum: MIN_USB_BYTES
        })
    );
    assert!(availability(&d, &none()).is_visible());
}

#[test]
fn eight_gb_disk_is_ready() {
    let mut d = usb_disk(2);
    d.size_bytes = MIN_USB_BYTES;
    assert_eq!(availability(&d, &none()), Availability::Ready);
}

#[test]
fn internal_disk_is_hidden_not_disabled() {
    let mut d = usb_disk(2);
    d.bus_type = BusType::Nvme;
    let a = availability(&d, &none());
    assert!(!a.is_visible(), "an internal disk must not be listed");
    assert!(matches!(a, Availability::Hidden(_)));
}

#[test]
fn undersized_disk_cannot_be_written() {
    let mut d = usb_disk(2);
    d.size_bytes = 4 * 1000 * 1000 * 1000;
    assert!(can_write(&d, &none(), 1024, None).is_err());
}

#[test]
fn read_only_disk_cannot_be_written() {
    let mut d = usb_disk(2);
    d.is_read_only = true;
    assert_eq!(can_write(&d, &none(), 1024, None), Err(Rejection::ReadOnly));
}

#[test]
fn missing_negative_evidence_does_not_hide_the_disk() {
    let d = usb_disk(2);
    assert_eq!(availability(&d, &none()), Availability::Ready);
}

#[test]
fn empty_card_reader_rejected() {
    let mut d = usb_disk(2);
    d.size_bytes = 0;
    assert_eq!(is_listable(&d, &none()), Err(Rejection::NoMedia));
}

#[test]
fn spanned_volume_rejected() {
    let mut d = usb_disk(2);
    d.volumes = vec![vol(1), vol(3)];
    assert_eq!(is_listable(&d, &none()), Err(Rejection::SpannedVolume));
}

#[test]
fn single_extent_volumes_are_fine() {
    let mut d = usb_disk(2);
    d.volumes = vec![vol(1), vol(1)];
    assert_eq!(is_listable(&d, &none()), Ok(()));
}

#[test]
fn image_larger_than_disk_rejected() {
    let d = usb_disk(2);
    let too_big = d.size_bytes + 1;
    assert_eq!(
        can_write(&d, &none(), too_big, None),
        Err(Rejection::TooSmall {
            need: too_big,
            have: d.size_bytes
        })
    );
}

#[test]
fn image_exactly_disk_size_allowed() {
    let d = usb_disk(2);
    assert_eq!(can_write(&d, &none(), d.size_bytes, None), Ok(()));
}

#[test]
fn source_image_on_target_rejected() {
    let d = usb_disk(2);
    assert_eq!(
        can_write(&d, &none(), 1024, Some(2)),
        Err(Rejection::SourceOnTarget)
    );
}

#[test]
fn source_image_elsewhere_is_fine() {
    let d = usb_disk(2);
    assert_eq!(can_write(&d, &none(), 1024, Some(0)), Ok(()));
}

#[test]
fn can_write_still_applies_listable_rules() {
    let mut d = usb_disk(2);
    d.bus_type = BusType::Nvme;
    assert_eq!(
        can_write(&d, &none(), 1024, None),
        Err(Rejection::NotUsb(BusType::Nvme))
    );
}

#[test]
fn identity_confirmed_when_same_device() {
    let d = usb_disk(2);
    assert_eq!(confirm_identity(&d, &d.clone()), Ok(()));
}

#[test]
fn identity_rejects_swapped_device_at_same_number() {
    let selected = usb_disk(2);
    let mut observed = usb_disk(2);
    observed.friendly_name = "Samsung BAR".into();
    observed.size_bytes = 64 * 1024 * 1024 * 1024;
    assert!(confirm_identity(&selected, &observed).is_err());
}

#[test]
fn identity_rejects_size_change() {
    let selected = usb_disk(2);
    let mut observed = usb_disk(2);
    observed.size_bytes += 1;
    assert_eq!(
        confirm_identity(&selected, &observed),
        Err(IdentityMismatch::Size {
            expected: selected.size_bytes,
            actual: selected.size_bytes + 1
        })
    );
}

#[test]
fn identity_rejects_non_usb_observed() {
    let selected = usb_disk(2);
    let mut observed = usb_disk(2);
    observed.bus_type = BusType::Nvme;
    assert_eq!(
        confirm_identity(&selected, &observed),
        Err(IdentityMismatch::BusType(BusType::Nvme))
    );
}

#[test]
fn identity_rejects_number_change() {
    let selected = usb_disk(2);
    let observed = usb_disk(3);
    assert_eq!(
        confirm_identity(&selected, &observed),
        Err(IdentityMismatch::Number {
            expected: 2,
            actual: 3
        })
    );
}

#[test]
fn cloning_needs_two_different_disks() {
    let d = usb_disk(2);
    assert_eq!(
        can_clone(&d, &d.clone(), &none(), 1024),
        Err(Rejection::SameDisk)
    );
    assert_eq!(can_clone(&usb_disk(3), &d, &none(), 1024), Ok(()));
}

#[test]
fn a_mismatch_description_names_both_values() {
    let selected = usb_disk(2);
    let mut observed = usb_disk(2);
    observed.size_bytes += 1;
    let m = confirm_identity(&selected, &observed).unwrap_err();
    let text = m.describe();
    assert!(text.contains("용량이 다릅니다"), "{text}");
    assert!(text.contains(&selected.size_bytes.to_string()), "{text}");
    assert!(text.contains(&(selected.size_bytes + 1).to_string()), "{text}");
}

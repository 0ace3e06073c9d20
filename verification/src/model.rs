//! Domain types: disks, volumes and the bus a disk is attached through.
use crate::text::{dec, push_dec, push_str};
use vstd::prelude::*;

verus! {

/// Windows `STORAGE_BUS_TYPE`, as the kernel reports it.
///
/// Only this value decides whether a disk is a USB disk. The removable flag is
/// not used: USB SSDs report removable=false and empty card readers report true.
#[derive(Debug, Clone, Copy, PartialEq, Eq, Structural)]
pub enum BusType {
    Unknown,
    Scsi,
    Atapi,
    Ata,
    Ieee1394,
    Ssa,
    FibreChannel,
    Usb,
    Raid,
    IScsi,
    Sas,
    Sata,
    Sd,
    Mmc,
    Virtual,
    FileBackedVirtual,
    StorageSpaces,
    Nvme,
    Other,
}

/// The bus type the kernel means by a raw `STORAGE_BUS_TYPE` value.
pub open spec fn bus_type_of(v: u16) -> BusType {
    if v == 0 {
        BusType::Unknown
    } else if v == 1 {
        BusType::Scsi
    } else if v == 2 {
        BusType::Atapi
    } else if v == 3 {
        BusType::Ata
    } else if v == 4 {
        BusType::Ieee1394
    } else if v == 5 {
        BusType::Ssa
    } else if v == 6 {
        BusType::FibreChannel
    } else if v == 7 {
        BusType::Usb
    } else if v == 8 {
        BusType::Raid
    } else if v == 9 {
        BusType::IScsi
    } else if v == 10 {
        BusType::Sas
    } else if v == 11 {
        BusType::Sata
    } else if v == 12 {
        BusType::Sd
    } else if v == 13 {
        BusType::Mmc
    } else if v == 14 {
        BusType::Virtual
    } else if v == 15 {
        BusType::FileBackedVirtual
    } else if v == 16 {
        BusType::StorageSpaces
    } else if v == 17 {
        BusType::Nvme
    } else {
        BusType::Other
    }
}

impl From<u16> for BusType {
    fn from(v: u16) -> (r: Self)
        ensures
            r == bus_type_of(v),
    {
        match v {
            0 => BusType::Unknown,
            1 => BusType::Scsi,
            2 => BusType::Atapi,
            3 => BusType::Ata,
            4 => BusType::Ieee1394,
            5 => BusType::Ssa,
            6 => BusType::FibreChannel,
            7 => BusType::Usb,
            8 => BusType::Raid,
            9 => BusType::IScsi,
            10 => BusType::Sas,
            11 => BusType::Sata,
            12 => BusType::Sd,
            13 => BusType::Mmc,
            14 => BusType::Virtual,
            15 => BusType::FileBackedVirtual,
            16 => BusType::StorageSpaces,
            17 => BusType::Nvme,
            _ => BusType::Other,
        }
    }
}

impl vstd::std_specs::convert::FromSpecImpl<u16> for BusType {
    open spec fn obeys_from_spec() -> bool {
        true
    }

    open spec fn from_spec(v: u16) -> Self {
        bus_type_of(v)
    }
}

/// The variant name of a bus type, as `{:?}` prints it.
pub open spec fn bus_name(b: BusType) -> Seq<char> {
    match b {
        BusType::Unknown => "Unknown"@,
        BusType::Scsi => "Scsi"@,
        BusType::Atapi => "Atapi"@,
        BusType::Ata => "Ata"@,
        BusType::Ieee1394 => "Ieee1394"@,
        BusType::Ssa => "Ssa"@,
        BusType::FibreChannel => "FibreChannel"@,
        BusType::Usb => "Usb"@,
        BusType::Raid => "Raid"@,
        BusType::IScsi => "IScsi"@,
        BusType::Sas => "Sas"@,
        BusType::Sata => "Sata"@,
        BusType::Sd => "Sd"@,
        BusType::Mmc => "Mmc"@,
        BusType::Virtual => "Virtual"@,
        BusType::FileBackedVirtual => "FileBackedVirtual"@,
        BusType::StorageSpaces => "StorageSpaces"@,
        BusType::Nvme => "Nvme"@,
        BusType::Other => "Other"@,
    }
}

pub fn bus_type_name(b: BusType) -> (r: &'static str)
    ensures
        r@ == bus_name(b),
{
    match b {
        BusType::Unknown => "Unknown",
        BusType::Scsi => "Scsi",
        BusType::Atapi => "Atapi",
        BusType::Ata => "Ata",
        BusType::Ieee1394 => "Ieee1394",
        BusType::Ssa => "Ssa",
        BusType::FibreChannel => "FibreChannel",
        BusType::Usb => "Usb",
        BusType::Raid => "Raid",
        BusType::IScsi => "IScsi",
        BusType::Sas => "Sas",
        BusType::Sata => "Sata",
        BusType::Sd => "Sd",
        BusType::Mmc => "Mmc",
        BusType::Virtual => "Virtual",
        BusType::FileBackedVirtual => "FileBackedVirtual",
        BusType::StorageSpaces => "StorageSpaces",
        BusType::Nvme => "Nvme",
        BusType::Other => "Other",
    }
}

/// One volume on a disk.
///
/// Volumes without a drive letter (ESP, MSR, Linux partitions) are listed too:
/// a mounted volume blocks raw writes whether or not it has a letter.
#[derive(Debug, Clone, PartialEq, Eq)]
pub struct VolumeInfo {
    /// Volume name of the form `\\?\Volume{GUID}\`.
    pub guid_path: String,
    pub drive_letter: Option<char>,
    pub file_system: Option<String>,
    pub size_bytes: u64,
    /// Number of disk extents the volume spans; two or more means a spanned or
    /// RAID volume.
    pub disk_extent_count: u32,
}

/// One physical disk.
#[derive(Debug, Clone, PartialEq, Eq)]
pub struct DiskInfo {
    /// The N of `\\.\PhysicalDriveN`. Not stable: re-plugging may reuse it, so it
    /// is re-checked on the opened handle right before writing.
    pub number: u32,
    pub friendly_name: String,
    pub size_bytes: u64,
    pub bus_type: BusType,
    pub is_system: bool,
    pub is_boot: bool,
    pub boot_from_disk: bool,
    pub is_clustered: bool,
    pub is_read_only: bool,
    /// Serial reported by the USB bridge; unreliable, never used alone as a key.
    pub serial: Option<String>,
    pub volumes: Vec<VolumeInfo>,
}

pub fn copy_opt_string(s: &Option<String>) -> (r: Option<String>)
    ensures
        r == *s,
{
    match s {
        Some(x) => Some(x.clone()),
        None => None,
    }
}

impl VolumeInfo {
    /// An exact copy.
    pub fn duplicate(&self) -> (r: Self)
        ensures
            r == *self,
    {
        VolumeInfo {
            guid_path: self.guid_path.clone(),
            drive_letter: self.drive_letter,
            file_system: copy_opt_string(&self.file_system),
            size_bytes: self.size_bytes,
            disk_extent_count: self.disk_extent_count,
        }
    }
}

pub fn copy_volumes(v: &Vec<VolumeInfo>) -> (r: Vec<VolumeInfo>)
    ensures
        r@ == v@,
{
    let mut r: Vec<VolumeInfo> = Vec::new();
    let mut i: usize = 0;
    while i < v.len()
        invariant
            i <= v@.len(),
            r@ == v@.take(i as int),
        decreases v@.len() - i,
    {
        r.push(v[i].duplicate());
        i += 1;
        proof {
            assert(r@ =~= v@.take(i as int));
        }
    }
    proof {
        assert(r@ =~= v@);
    }
    r
}

/// The key that decides whether two listings show the same device.
pub open spec fn identity_key_spec(d: DiskInfo) -> Seq<char> {
    bus_name(d.bus_type) + "|"@ + dec(d.size_bytes as nat) + "|"@ + d.friendly_name@ + "|"@
        + match d.serial {
        Some(s) => s@,
        None => Seq::empty(),
    }
}

/// Field-by-field equality, the volume list compared by its contents.
pub open spec fn same_disk(a: DiskInfo, b: DiskInfo) -> bool {
    &&& a.number == b.number
    &&& a.friendly_name == b.friendly_name
    &&& a.size_bytes == b.size_bytes
    &&& a.bus_type == b.bus_type
    &&& a.is_system == b.is_system
    &&& a.is_boot == b.is_boot
    &&& a.boot_from_disk == b.boot_from_disk
    &&& a.is_clustered == b.is_clustered
    &&& a.is_read_only == b.is_read_only
    &&& a.serial == b.serial
    &&& a.volumes@ == b.volumes@
}

impl DiskInfo {
    /// An exact copy.
    pub fn duplicate(&self) -> (r: Self)
        ensures
            same_disk(r, *self),
    {
        DiskInfo {
            number: self.number,
            friendly_name: self.friendly_name.clone(),
            size_bytes: self.size_bytes,
            bus_type: self.bus_type,
            is_system: self.is_system,
            is_boot: self.is_boot,
            boot_from_disk: self.boot_from_disk,
            is_clustered: self.is_clustered,
            is_read_only: self.is_read_only,
            serial: copy_opt_string(&self.serial),
            volumes: copy_volumes(&self.volumes),
        }
    }

    /// Composite key for telling whether a refreshed listing shows the same
    /// device: `bus|size|name|serial`. The serial alone cannot identify a stick.
    pub fn identity_key(&self) -> (r: String)
        ensures
            r@ == identity_key_spec(*self),
    {
        let mut s = String::new();
        push_str(&mut s, bus_type_name(self.bus_type));
        push_str(&mut s, "|");
        push_dec(&mut s, self.size_bytes);
        push_str(&mut s, "|");
        push_str(&mut s, self.friendly_name.as_str());
        push_str(&mut s, "|");
        match &self.serial {
            Some(x) => push_str(&mut s, x.as_str()),
            None => {},
        }
        proof {
            assert(s@ =~= identity_key_spec(*self));
        }
        s
    }
}

/// The kernel's `STORAGE_BUS_TYPE` numbering: each bus type has exactly one
/// raw value, so only 7 is USB, and every value past the known ones is
/// `Other`. An internal SATA (11) or NVMe (17) disk never reads as USB.
pub proof fn law_bus_type_values(v: u16)
    ensures
        (bus_type_of(v) == BusType::Unknown) <==> (v == 0),
        (bus_type_of(v) == BusType::Scsi) <==> (v == 1),
        (bus_type_of(v) == BusType::Atapi) <==> (v == 2),
        (bus_type_of(v) == BusType::Ata) <==> (v == 3),
        (bus_type_of(v) == BusType::Ieee1394) <==> (v == 4),
        (bus_type_of(v) == BusType::Ssa) <==> (v == 5),
        (bus_type_of(v) == BusType::FibreChannel) <==> (v == 6),
        (bus_type_of(v) == BusType::Usb) <==> (v == 7),
        (bus_type_of(v) == BusType::Raid) <==> (v == 8),
        (bus_type_of(v) == BusType::IScsi) <==> (v == 9),
        (bus_type_of(v) == BusType::Sas) <==> (v == 10),
        (bus_type_of(v) == BusType::Sata) <==> (v == 11),
        (bus_type_of(v) == BusType::Sd) <==> (v == 12),
        (bus_type_of(v) == BusType::Mmc) <==> (v == 13),
        (bus_type_of(v) == BusType::Virtual) <==> (v == 14),
        (bus_type_of(v) == BusType::FileBackedVirtual) <==> (v == 15),
        (bus_type_of(v) == BusType::StorageSpaces) <==> (v == 16),
        (bus_type_of(v) == BusType::Nvme) <==> (v == 17),
        (bus_type_of(v) == BusType::Other) <==> (v > 17),
{
}

} // verus!

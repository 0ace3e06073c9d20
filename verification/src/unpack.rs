//! Opening a downloaded archive as the image stream.
//!
//! m-shell publishes a gzip file, RR a zip archive holding the image. The
//! decoding itself is `flate2`'s and `zip`'s; what is decided here is the
//! format, the archive entry to write and the size the image will have.
use crate::device::{ByteSource, MemorySource};
use crate::text::{chars_of, contains, ends_with, lower, lower_chars, push_str, seq_contains, seq_ends_with, seq_starts_with, starts_with};
use std::io::Cursor;
use std::io::Read;
use vstd::prelude::*;

verus! {

#[verifier::external_type_specification]
#[verifier::external_body]
#[verifier::reject_recursive_types(T)]
pub struct ExCursor<T>(Cursor<T>);

#[verifier::external_type_specification]
#[verifier::external_body]
#[verifier::reject_recursive_types(R)]
pub struct ExMultiGzDecoder<R>(flate2::read::MultiGzDecoder<R>);

#[verifier::external_type_specification]
#[verifier::external_body]
#[verifier::reject_recursive_types(R)]
pub struct ExZipArchive<R>(zip::ZipArchive<R>);

#[verifier::external_type_specification]
#[verifier::external_body]
pub struct ExZipError(zip::result::ZipError);

/// The bytes `flate2::read::MultiGzDecoder` yields from `data`, through
/// every gzip member, until it reports the end or fails. They depend on the
/// bytes alone.
pub uninterp spec fn gunzip_all(data: Seq<u8>) -> Seq<u8>;

/// The bytes a gzip decoder was opened on.
pub uninterp spec fn gz_source(d: flate2::read::MultiGzDecoder<Cursor<Vec<u8>>>) -> Seq<u8>;

/// How many bytes a gzip decoder has handed out so far.
pub uninterp spec fn gz_handed(d: flate2::read::MultiGzDecoder<Cursor<Vec<u8>>>) -> nat;

/// Whether a gzip decoder has reported its end: from then on every read
/// gives 0.
pub uninterp spec fn gz_done(d: flate2::read::MultiGzDecoder<Cursor<Vec<u8>>>) -> bool;

/// `flate2::read::MultiGzDecoder::new` over a `Cursor` on the bytes: a
/// decoder that goes on through every gzip member, not only the first. It
/// has handed out nothing yet.
#[verifier::external_body]
fn gz_open(data: Vec<u8>) -> (r: flate2::read::MultiGzDecoder<Cursor<Vec<u8>>>)
    ensures
        gz_source(r) == data@,
        gz_handed(r) == 0,
        !gz_done(r),
{
    flate2::read::MultiGzDecoder::new(Cursor::new(data))
}

/// `Read::read` of the gzip decoder into `buf[at..]`. As `Read` documents,
/// only that range is written, the count fits in it, and a failure hands
/// out nothing. A success hands out the next bytes of the decoded stream; a
/// 0 with room left means the decoder reached its end, after which it gives
/// 0 for good (flate2's `GzState::End`, which a failure reaches too); once
/// there it has handed out all it yields.
#[verifier::external_body]
fn gz_read(
    dec: &mut flate2::read::MultiGzDecoder<Cursor<Vec<u8>>>,
    buf: &mut [u8],
    at: usize,
) -> (r: Result<usize, String>)
    requires
        at <= old(buf)@.len(),
    ensures
        final(buf)@.len() == old(buf)@.len(),
        final(buf)@.take(at as int) == old(buf)@.take(at as int),
        r matches Ok(n) ==> at + n <= old(buf)@.len(),
        gz_source(*final(dec)) == gz_source(*old(dec)),
        r matches Ok(n) ==> gz_handed(*old(dec)) + n <= gunzip_all(gz_source(*old(dec))).len()
            && gz_handed(*final(dec)) == gz_handed(*old(dec)) + n && final(buf)@.subrange(
            at as int,
            at + n,
        ) == gunzip_all(gz_source(*old(dec))).subrange(
            gz_handed(*old(dec)) as int,
            gz_handed(*old(dec)) + n,
        ),
        r is Err ==> gz_handed(*final(dec)) == gz_handed(*old(dec)),
        gz_done(*old(dec)) ==> gz_done(*final(dec)),
        gz_done(*final(dec)) ==> gz_handed(*final(dec)) == gunzip_all(gz_source(*old(dec))).len(),
        r == Ok::<usize, String>(0) && at < old(buf)@.len() ==> gz_done(*final(dec))
            && gz_handed(*old(dec)) == gunzip_all(gz_source(*old(dec))).len(),
        r == Ok::<usize, String>(0) || !gz_done(*old(dec)),
{
    match dec.read(&mut buf[at..]) {
        Ok(n) => Ok(n),
        Err(e) => Err(e.to_string()),
    }
}

/// The bytes an archive was opened from; its other wrappers keep them.
pub uninterp spec fn archive_bytes(a: zip::ZipArchive<Cursor<Vec<u8>>>) -> Seq<u8>;

/// Whether `zip::ZipArchive::new` reads `data` as an archive.
pub uninterp spec fn zip_reads(data: Seq<u8>) -> bool;

/// What `ZipArchive::len` gives for an archive of `data`.
pub uninterp spec fn zip_len(data: Seq<u8>) -> nat;

/// Entry `i` of an archive of `data` as `ZipArchive::by_index_raw` reads it:
/// name, uncompressed size and whether it is a directory; None when it
/// cannot be read.
pub uninterp spec fn zip_entry_at(data: Seq<u8>, i: usize) -> Option<(Seq<char>, u64, bool)>;

/// The decompressed bytes of entry `i` of an archive of `data`, as
/// `ZipArchive::by_index` with `Read::read_to_end` gives them; None when that
/// fails.
pub uninterp spec fn zip_extracted(data: Seq<u8>, i: usize) -> Option<Seq<u8>>;

/// `zip::ZipArchive::new` over a `Cursor` on the bytes: reads the archive's
/// central directory. What it reads is a function of the bytes alone.
#[verifier::external_body]
fn zip_open(data: Vec<u8>) -> (r: Result<zip::ZipArchive<Cursor<Vec<u8>>>, zip::result::ZipError>)
    ensures
        r is Ok <==> zip_reads(data@),
        r matches Ok(a) ==> archive_bytes(a) == data@,
{
    zip::ZipArchive::new(Cursor::new(data))
}

/// The text of a zip error, as its `Display` writes it.
#[verifier::external_body]
fn zip_error_text(e: &zip::result::ZipError) -> String {
    e.to_string()
}

/// `ZipArchive::len`: how many entries the archive holds.
#[verifier::external_body]
fn zip_count(a: &zip::ZipArchive<Cursor<Vec<u8>>>) -> (r: usize)
    ensures
        r == zip_len(archive_bytes(*a)),
{
    a.len()
}

/// The name, size and kind of an entry, as plain values.
pub open spec fn entry_view(e: Option<ZipEntry>) -> Option<(Seq<char>, u64, bool)> {
    match e {
        Some(x) => Some((x.name@, x.size, x.is_dir)),
        None => None,
    }
}

/// One entry as `ZipArchive::by_index_raw` reads it without decompressing:
/// its name, its uncompressed size and whether it is a directory. None when
/// the entry cannot be read.
#[verifier::external_body]
fn zip_entry(a: &mut zip::ZipArchive<Cursor<Vec<u8>>>, i: usize) -> (r: Option<ZipEntry>)
    ensures
        archive_bytes(*final(a)) == archive_bytes(*old(a)),
        entry_view(r) == zip_entry_at(archive_bytes(*old(a)), i),
{
    match a.by_index_raw(i) {
        Ok(f) => Some(ZipEntry { name: f.name().to_string(), size: f.size(), is_dir: f.is_dir() }),
        Err(_) => None,
    }
}

/// `ZipArchive::by_index`, then `Read::read_to_end`: decompresses entry `i`
/// onto the end of `out`. `read_to_end` only appends; on success what it
/// appends is the entry's bytes.
#[verifier::external_body]
fn zip_extract(a: &mut zip::ZipArchive<Cursor<Vec<u8>>>, i: usize, out: &mut Vec<u8>) -> (r: Result<
    (),
    String,
>)
    ensures
        archive_bytes(*final(a)) == archive_bytes(*old(a)),
        final(out)@.len() >= old(out)@.len(),
        final(out)@.take(old(out)@.len() as int) == old(out)@,
        r is Ok <==> zip_extracted(archive_bytes(*old(a)), i) is Some,
        r is Ok ==> final(out)@ == old(out)@ + zip_extracted(archive_bytes(*old(a)), i)->Some_0,
{
    let mut f = match a.by_index(i) {
        Ok(f) => f,
        Err(e) => return Err(e.to_string()),
    };
    match f.read_to_end(out) {
        Ok(_) => Ok(()),
        Err(e) => Err(e.to_string()),
    }
}

/// `Vec::try_reserve_exact`: room for `n` more bytes, or false when the
/// allocator refuses. The contents stay as they were.
#[verifier::external_body]
fn try_reserve(v: &mut Vec<u8>, n: usize) -> (r: bool)
    ensures
        final(v)@ == old(v)@,
{
    v.try_reserve_exact(n).is_ok()
}

/// An entry of a zip archive.
#[derive(Debug, Clone)]
pub struct ZipEntry {
    pub name: String,
    /// Size once decompressed.
    pub size: u64,
    pub is_dir: bool,
}

/// Whether an archive entry is an image to write: a file named `*.img`
/// outside the `__MACOSX/` folder that macOS adds to archives it makes.
pub open spec fn is_image_entry(e: ZipEntry) -> bool {
    let n = lower(e.name@);
    !e.is_dir && !starts_with(n, "__macosx/"@) && ends_with(n, ".img"@)
}

/// Whether an entry, seen as name, size and kind, is an image to write.
pub open spec fn image_view(v: (Seq<char>, u64, bool)) -> bool {
    let n = lower(v.0);
    !v.2 && !starts_with(n, "__macosx/"@) && ends_with(n, ".img"@)
}

/// Whether `es` are the entries of an archive of `data`, in order.
pub open spec fn listed_as(es: Seq<Option<ZipEntry>>, data: Seq<u8>) -> bool {
    &&& es.len() == zip_len(data)
    &&& forall|i: int| 0 <= i < es.len() ==> #[trigger] entry_view(es[i]) == zip_entry_at(data, i as usize)
}

/// Whether no entry of an archive of `data` is an image to write.
pub open spec fn no_image(data: Seq<u8>) -> bool {
    forall|i: int|
        0 <= i < zip_len(data) ==> !(#[trigger] zip_entry_at(data, i as usize) matches Some(v)
            && image_view(v))
}

/// Whether entry `k` of `es` is the one to write: an image, and no other
/// image is larger or, equally large, later. Picking the first image would
/// take a 4 KB `._rr.img` shell or a small bundled grub image, and that would
/// be written and pass the read-back check.
pub open spec fn picked_entry(es: Seq<Option<ZipEntry>>, k: int) -> bool {
    &&& 0 <= k < es.len()
    &&& es[k] is Some && is_image_entry(es[k]->Some_0)
    &&& forall|j: int|
        0 <= j < es.len() && j != k && #[trigger] es[j] is Some && is_image_entry(es[j]->Some_0)
            ==> es[j]->Some_0.size < es[k]->Some_0.size || (es[j]->Some_0.size
            == es[k]->Some_0.size && j < k)
}

fn is_image(e: &ZipEntry) -> (r: bool)
    ensures
        r == is_image_entry(*e),
{
    if e.is_dir {
        return false;
    }
    let n = lower_chars(e.name.as_str());
    let mac = chars_of("__macosx/");
    let img = chars_of(".img");
    !seq_starts_with(n.as_slice(), mac.as_slice()) && seq_ends_with(n.as_slice(), img.as_slice())
}

/// The entry to write: the largest image, the last of equally large ones;
/// None when the archive holds no image.
pub fn pick_image(es: &Vec<Option<ZipEntry>>) -> (r: Option<usize>)
    ensures
        r matches Some(k) ==> picked_entry(es@, k as int),
        r is None <==> forall|j: int|
            0 <= j < es@.len() ==> !(#[trigger] es@[j] is Some && is_image_entry(es@[j]->Some_0)),
{
    let mut best: Option<usize> = None;
    let mut i: usize = 0;
    while i < es.len()
        invariant
            i <= es@.len(),
            best matches Some(k) ==> k < i && es@[k as int] is Some && is_image_entry(
                es@[k as int]->Some_0,
            ) && forall|j: int|
                0 <= j < i && j != k && #[trigger] es@[j] is Some && is_image_entry(es@[j]->Some_0)
                    ==> es@[j]->Some_0.size < es@[k as int]->Some_0.size || (es@[j]->Some_0.size
                    == es@[k as int]->Some_0.size && j < k),
            best is None ==> forall|j: int|
                0 <= j < i ==> !(#[trigger] es@[j] is Some && is_image_entry(es@[j]->Some_0)),
        decreases es@.len() - i,
    {
        match &es[i] {
            Some(e) => {
                if is_image(e) {
                    let better = match best {
                        None => true,
                        Some(k) => match &es[k] {
                            Some(b) => e.size >= b.size,
                            None => true,
                        },
                    };
                    if better {
                        best = Some(i);
                    }
                }
            },
            None => {},
        }
        i += 1;
    }
    best
}

/// 4 GiB: the wrap of the gzip size field.
pub const FOUR_GIB: u64 = 4 * 1024 * 1024 * 1024;

/// The little-endian number held in four bytes.
pub open spec fn le_u32(b: Seq<u8>) -> nat {
    b[0] as nat + 256 * (b[1] as nat) + 65536 * (b[2] as nat) + 16777216 * (b[3] as nat)
}

/// What [`gzip_expanded_size`] gives: the gzip trailer's size field (the
/// last four bytes), 4 GiB more for the `-5gb` variants, None when the file
/// is too short or the field is 0.
pub open spec fn gzip_size_spec(data: Seq<u8>, lower_name: Seq<char>) -> Option<u64> {
    if data.len() < 4 {
        None
    } else {
        let v = le_u32(data.skip(data.len() - 4));
        if v == 0 {
            None
        } else if contains(lower_name, "-5gb"@) {
            Some((v + FOUR_GIB) as u64)
        } else {
            Some(v as u64)
        }
    }
}

/// The size of a gzip file once decompressed, for the progress bar.
///
/// gzip keeps the original size in its last four bytes, modulo 2^32: an
/// image past 4 GiB reads smaller than it is. The standard m-shell image
/// (about 3.03 GB) fits; the `-5GB` variant picked by default (about
/// 4.98 GB) reads 4 GiB short, and is recognised by its name. The value only
/// drives the progress bar: past it the bar falls back to no number.
pub fn gzip_expanded_size(data: &[u8], lower_name: &str) -> (r: Option<u64>)
    ensures
        r == gzip_size_spec(data@, lower_name@),
{
    let n = data.len();
    if n < 4 {
        return None;
    }
    let v: u64 = data[n - 4] as u64 + 256 * (data[n - 3] as u64) + 65536 * (data[n - 2] as u64)
        + 16777216 * (data[n - 1] as u64);
    proof {
        let t = data@.skip(n - 4);
        assert(t[0] == data@[n - 4] && t[1] == data@[n - 3] && t[2] == data@[n - 2] && t[3]
            == data@[n - 1]);
    }
    if v == 0 {
        return None;
    }
    let five = chars_of("-5gb");
    let name = chars_of(lower_name);
    if seq_contains(name.as_slice(), five.as_slice()) {
        return Some(v + FOUR_GIB);
    }
    Some(v)
}

/// The decompressed image of a download.
pub enum Unpacked {
    /// Decoded from gzip as it is read.
    Gz(flate2::read::MultiGzDecoder<Cursor<Vec<u8>>>),
    /// Taken out of a zip archive whole.
    Whole(MemorySource),
}

impl ByteSource for Unpacked {
    /// Both kinds describe what they hand out.
    closed spec fn faithful(&self) -> bool {
        match self {
            Unpacked::Gz(_) => true,
            Unpacked::Whole(m) => m.faithful(),
        }
    }

    closed spec fn produced(&self) -> Seq<u8> {
        match self {
            Unpacked::Gz(d) => gunzip_all(gz_source(*d)).take(gz_handed(*d) as int),
            Unpacked::Whole(m) => m.produced(),
        }
    }

    closed spec fn ended(&self) -> bool {
        match self {
            Unpacked::Gz(d) => gz_done(*d),
            Unpacked::Whole(m) => m.ended(),
        }
    }

    /// Reading memory never fails; decoding may.
    closed spec fn never_fails(&self) -> bool {
        match self {
            Unpacked::Gz(_) => false,
            Unpacked::Whole(m) => m.never_fails(),
        }
    }

    /// The decoded stream of the download, or the image taken out whole.
    closed spec fn origin(&self) -> Seq<u8> {
        match self {
            Unpacked::Gz(d) => gunzip_all(gz_source(*d)),
            Unpacked::Whole(m) => m.origin(),
        }
    }

    closed spec fn inv(&self) -> bool {
        match self {
            Unpacked::Gz(d) => gz_handed(*d) <= gunzip_all(gz_source(*d)).len() && (gz_done(*d)
                ==> gz_handed(*d) == gunzip_all(gz_source(*d)).len()),
            Unpacked::Whole(m) => m.inv(),
        }
    }

    proof fn lemma_ended_gives_origin(&self) {
        match self {
            Unpacked::Gz(d) => {
                assert(gunzip_all(gz_source(*d)).take(gunzip_all(gz_source(*d)).len() as int)
                    =~= gunzip_all(gz_source(*d)));
            },
            Unpacked::Whole(m) => {
                m.lemma_ended_gives_origin();
            },
        }
    }

    proof fn lemma_produced_is_front(&self) {
        match self {
            Unpacked::Gz(_) => {},
            Unpacked::Whole(m) => {
                m.lemma_produced_is_front();
            },
        }
    }

    /// An image held whole is read from memory and cannot fail; the decoder
    /// hands out the next decoded bytes, or fails as `flate2` does.
    fn read_into(&mut self, buf: &mut [u8], at: usize) -> (r: Result<usize, String>)
        ensures
            *old(self) is Gz <==> *final(self) is Gz,
            *old(self) is Whole ==> r is Ok,
            *old(self) matches Unpacked::Whole(m) ==> (*final(self) matches Unpacked::Whole(m2)
                && m2.data_spec() == m.data_spec() && (r matches Ok(n) ==> n == m.next_count(
                old(buf)@.len() - at,
            ) && m2.pos_spec() == m.pos_spec() + n && (n > 0 ==> final(buf)@.subrange(
                at as int,
                at + n,
            ) == m.data_spec().subrange(m.pos_spec() as int, m.pos_spec() + n)))),
            *old(self) is Gz ==> final(self).origin() == old(self).origin() && (r matches Ok(n)
                ==> final(self).produced() == old(self).produced() + final(buf)@.subrange(
                at as int,
                at + n,
            )),
    {
        match self {
            Unpacked::Gz(d) => {
                let ghost all = gunzip_all(gz_source(*d));
                let ghost h0 = gz_handed(*d);
                let r = gz_read(d, buf, at);
                proof {
                    if let Ok(n) = r {
                        assert(all.take(h0 + n) =~= all.take(h0 as int) + all.subrange(
                            h0 as int,
                            h0 + n,
                        ));
                    }
                    if r == Ok::<usize, String>(0) && at < buf@.len() {
                        assert(all.take(h0 as int) =~= all);
                    }
                }
                r
            },
            Unpacked::Whole(m) => m.read_into(buf, at),
        }
    }
}

/// Opens the decompressed image of a download named `name`: a gzip file is
/// decoded as it is read, the image of a zip archive is taken out whole.
/// Gives the decompressed size when it is known, for the progress bar.
pub fn open_image(data: Vec<u8>, name: &str) -> (r: Result<(Unpacked, Option<u64>), String>)
    ensures
        r matches Ok((s, _)) ==> s.inv() && s.faithful() && s.produced().len() == 0,
        ends_with(lower(name@), ".gz"@) ==> (r matches Ok((s, _)) && s.origin() == gunzip_all(data@)),
        ends_with(lower(name@), ".gz"@) ==> (r matches Ok((s, size)) && s is Gz && size
            == gzip_size_spec(data@, lower(name@))),
        !ends_with(lower(name@), ".gz"@) && ends_with(lower(name@), ".zip"@) ==> (r matches Ok(
            (s, size),
        ) ==> s is Whole && size is Some),
        !ends_with(lower(name@), ".gz"@) && ends_with(lower(name@), ".zip"@) && !zip_reads(data@)
            ==> r is Err,
        !ends_with(lower(name@), ".gz"@) && ends_with(lower(name@), ".zip"@) && zip_reads(data@)
            && no_image(data@) ==> (r matches Err(m) && m@ == "압축 파일 안에 .img 가 없습니다"@),
        !ends_with(lower(name@), ".gz"@) && ends_with(lower(name@), ".zip"@) ==> (r matches Ok(
            (s, size),
        ) ==> exists|es: Seq<Option<ZipEntry>>, k: int|
            listed_as(es, data@) && #[trigger] picked_entry(es, k) && zip_extracted(
                data@,
                k as usize,
            ) is Some && s is Whole && s->Whole_0.data_spec() == zip_extracted(
                data@,
                k as usize,
            )->Some_0 && s->Whole_0.pos_spec() == 0 && size == Some(es[k]->Some_0.size)),
        !ends_with(lower(name@), ".gz"@) && !ends_with(lower(name@), ".zip"@) ==> (r matches Err(m)
            && m@ == "알 수 없는 압축 형식입니다: "@ + name@),
{
    let lower_name = lower_chars(name);
    let gz = chars_of(".gz");
    if seq_ends_with(lower_name.as_slice(), gz.as_slice()) {
        let mut lname = String::new();
        let mut k: usize = 0;
        while k < lower_name.len()
            invariant
                k <= lower_name@.len(),
                lname@ == lower_name@.take(k as int),
            decreases lower_name@.len() - k,
        {
            crate::text::push_char(&mut lname, lower_name[k]);
            k += 1;
            proof {
                assert(lname@ =~= lower_name@.take(k as int));
            }
        }
        proof {
            assert(lname@ =~= lower_name@);
        }
        let size = gzip_expanded_size(data.as_slice(), lname.as_str());
        let dec = gz_open(data);
        return Ok((Unpacked::Gz(dec), size));
    }
    let zip_ext = chars_of(".zip");
    if seq_ends_with(lower_name.as_slice(), zip_ext.as_slice()) {
        let ghost d = data@;
        let mut archive = match zip_open(data) {
            Ok(a) => a,
            Err(e) => {
                return Err(zip_error_text(&e));
            },
        };
        let count = zip_count(&archive);
        let mut entries: Vec<Option<ZipEntry>> = Vec::new();
        let mut i: usize = 0;
        while i < count
            invariant
                i <= count,
                count == zip_len(d),
                archive_bytes(archive) == d,
                entries@.len() == i,
                forall|j: int| 0 <= j < i ==> #[trigger] entry_view(entries@[j]) == zip_entry_at(d, j as usize),
            decreases count - i,
        {
            let e = zip_entry(&mut archive, i);
            entries.push(e);
            i += 1;
        }
        proof {
            assert(listed_as(entries@, d));
            assert forall|j: int| 0 <= j < entries@.len() implies (#[trigger] entries@[j] is Some
                && is_image_entry(entries@[j]->Some_0)) == (zip_entry_at(d, j as usize) matches Some(v)
                && image_view(v)) by {
                assert(entry_view(entries@[j]) == zip_entry_at(d, j as usize));
            }
        }
        let idx = match pick_image(&entries) {
            Some(k) => k,
            None => {
                return Err("압축 파일 안에 .img 가 없습니다".to_owned());
            },
        };
        let size = match &entries[idx] {
            Some(e) => e.size,
            None => 0,
        };
        // The size comes from the archive and is not checked yet: asking the
        // allocator for it outright would end the process on an absurd value.
        let want: usize = if size <= usize::MAX as u64 {
            size as usize
        } else {
            usize::MAX
        };
        let mut out: Vec<u8> = Vec::new();
        if !try_reserve(&mut out, want) {
            let mut m = String::new();
            push_str(&mut m, "이미지를 담을 메모리가 모자랍니다 (");
            crate::text::push_dec(&mut m, size);
            push_str(&mut m, " 바이트가 필요합니다)");
            return Err(m);
        }
        match zip_extract(&mut archive, idx, &mut out) {
            Ok(()) => {},
            Err(e) => {
                return Err(e);
            },
        }
        let whole = MemorySource::new(out);
        proof {
            assert(whole.data_spec() =~= zip_extracted(d, idx)->Some_0);
            assert(listed_as(entries@, d) && picked_entry(entries@, idx as int));
        }
        return Ok((Unpacked::Whole(whole), Some(size)));
    }
    let mut m = String::new();
    push_str(&mut m, "알 수 없는 압축 형식입니다: ");
    push_str(&mut m, name);
    Err(m)
}

} // verus!

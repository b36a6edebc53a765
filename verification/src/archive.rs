//! The Bitwig Studio multisample archive: one 16-bit stereo WAV file per
//! sample zone and the `multisample.xml` index, stored uncompressed in a ZIP
//! archive built in memory with the `zip` crate.

use vstd::prelude::*;
use vstd::string::*;
use vstd::utf8::encode_utf8;
use std::io::{Cursor, Write};
use zip::ZipWriter;
use zip::CompressionMethod;
use zip::result::ZipError;
use zip::write::SimpleFileOptions;
use crate::export::{multisample_xml, multisample_xml_of, sample_file_name, sample_file_name_of, sample_file_names_distinct,
    SampleZone};
use crate::wav::{simple_wav, simple_wav_fits, simple_wav_length, write_simple_wav};

verus! {

/// An archive being written into memory by `zip::ZipWriter`. The writer is
/// opaque to proofs; `archive_entries` names what it holds.
#[verifier::external_body]
pub struct Archive {
    writer: ZipWriter<Cursor<Vec<u8>>>,
}

#[verifier::external_type_specification]
#[verifier::external_body]
pub struct ExZipError(zip::result::ZipError);

#[verifier::external_type_specification]
#[verifier::external_body]
pub struct ExIoError(std::io::Error);

/// The files an archive being written holds so far: name and contents, in
/// the order they were started.
pub uninterp spec fn archive_entries(w: Archive) -> Seq<(Seq<char>, Seq<u8>)>;

/// A file of the archive has been started and is being written (the
/// writer's last file takes what is written).
pub uninterp spec fn archive_writing(w: Archive) -> bool;

/// No operation on the archive has failed so far.
pub uninterp spec fn archive_intact(w: Archive) -> bool;

/// The bytes of a finished archive holding `entries` stored uncompressed,
/// as `zip::ZipWriter` lays it out with its default options when no
/// operation on it has failed. With the crate's `time` feature off (as this
/// crate builds it) every entry carries the fixed default timestamp, so the
/// bytes depend on the entries alone.
pub uninterp spec fn stored_zip(entries: Seq<(Seq<char>, Seq<u8>)>) -> Seq<u8>;

/// `ZipWriter::new` over an empty in-memory buffer. Trusted: the new archive
/// holds no file, has none started and is intact.
#[verifier::external_body]
fn new_archive() -> (w: Archive)
    ensures
        archive_entries(w) == Seq::<(Seq<char>, Seq<u8>)>::empty(),
        !archive_writing(w),
        archive_intact(w),
{
    Archive { writer: ZipWriter::new(Cursor::new(Vec::new())) }
}

/// `ZipWriter::start_file` with the stored (uncompressed) method and
/// otherwise default options. Trusted: on success the archive holds one more
/// file, named `name` and empty so far, that is being written. It succeeds
/// whenever no file of the archive has that name: the crate finishes the
/// file being written (whose size its writes keep within 32 bits) and
/// refuses only a duplicate name. A failure leaves the archive no longer
/// intact; what else it leaves is unstated. The crate panics on a name of
/// more than 65535 bytes, which `requires` rules out (a character takes at
/// most four bytes).
#[verifier::external_body]
fn start_stored_file(w: &mut Archive, name: &str) -> (r: Result<(), ZipError>)
    requires
        name@.len() <= 16383,
    ensures
        r is Ok ==> {
            &&& archive_entries(*final(w)) == archive_entries(*old(w)).push((name@, Seq::<u8>::empty()))
            &&& archive_writing(*final(w))
            &&& archive_intact(*final(w)) == archive_intact(*old(w))
        },
        r is Err ==> !archive_intact(*final(w)),
        (forall|k: int| 0 <= k < archive_entries(*old(w)).len() ==> #[trigger] archive_entries(*old(w))[k].0 != name@)
            ==> r is Ok,
{
    w.writer.start_file(name, SimpleFileOptions::default().compression_method(CompressionMethod::Stored))
}

/// `Write::write_all` on the archive. Trusted: writing nothing succeeds and
/// changes nothing (std's `write_all` returns at once). Otherwise, on success
/// a file was being written and `data` is appended to the contents of the
/// last one; it succeeds whenever a file is being written and its contents
/// stay within 32 bits (the crate refuses more without its large-file
/// option). A failure leaves the archive no longer intact; what else it
/// leaves is unstated.
#[verifier::external_body]
fn write_to_file(w: &mut Archive, data: &[u8]) -> (r: Result<(), std::io::Error>)
    ensures
        data@.len() == 0 ==> r is Ok && *final(w) == *old(w),
        data@.len() > 0 && r is Ok ==> {
            let old_entries = archive_entries(*old(w));
            let last = old_entries.len() - 1;
            &&& archive_writing(*old(w))
            &&& old_entries.len() > 0
            &&& archive_entries(*final(w)) == old_entries.update(
                last,
                (old_entries[last].0, old_entries[last].1 + data@),
            )
            &&& archive_writing(*final(w))
            &&& archive_intact(*final(w)) == archive_intact(*old(w))
        },
        r is Err ==> !archive_intact(*final(w)),
        archive_writing(*old(w)) && archive_entries(*old(w)).last().1.len() + data@.len() <= u32::MAX ==> r is Ok,
{
    w.writer.write_all(data)
}

/// `ZipWriter::finish`, then the buffer it wrote into. Trusted: an intact
/// archive finishes (the in-memory buffer never fails, and the file being
/// written is within 32 bits), and its bytes are `stored_zip` of the files it
/// holds.
#[verifier::external_body]
fn finish_archive(w: Archive) -> (r: Result<Vec<u8>, ZipError>)
    ensures
        r is Ok || !archive_intact(w),
        r matches Ok(bytes) ==> (archive_intact(w) ==> bytes@ == stored_zip(archive_entries(w))),
{
    Ok(w.writer.finish()?.into_inner())
}

/// A sample zone with its audio: the zone (position among the exported
/// slices, length in frames, note) and its 16-bit interleaved stereo samples.
pub struct ZoneAudio {
    pub zone: SampleZone,
    pub pcm: Vec<i16>,
}

/// A zone is written when it has frames and samples.
pub open spec fn zone_written(z: ZoneAudio) -> bool {
    z.zone.frames > 0 && z.pcm@.len() > 0
}

/// The zones that are written, in order, with their sample files.
pub open spec fn written_zones(zs: Seq<ZoneAudio>, sample_rate: u32) -> (Seq<SampleZone>, Seq<(Seq<char>, Seq<u8>)>)
    decreases zs.len(),
{
    if zs.len() == 0 {
        (Seq::empty(), Seq::empty())
    } else {
        let rest = written_zones(zs.drop_last(), sample_rate);
        let z = zs.last();
        if zone_written(z) {
            (rest.0.push(z.zone), rest.1.push((sample_file_name_of(z.zone.pos as nat), simple_wav(z.pcm@, sample_rate))))
        } else {
            rest
        }
    }
}

/// The files of the archive: the written zones' WAV files, then the index.
pub open spec fn archive_files(stem: Option<Seq<char>>, zs: Seq<ZoneAudio>, sample_rate: u32) -> Seq<
    (Seq<char>, Seq<u8>),
> {
    let w = written_zones(zs, sample_rate);
    w.1.push(("multisample.xml"@, encode_utf8(multisample_xml_of(stem, w.0))))
}

/// Every file of the archive stays within the 32-bit sizes of a ZIP archive
/// without its large-file extension.
pub open spec fn archive_fits(stem: Option<Seq<char>>, zs: Seq<ZoneAudio>, sample_rate: u32) -> bool {
    &&& forall|k: int| 0 <= k < zs.len() && zone_written(#[trigger] zs[k]) ==> 44 + 2 * zs[k].pcm@.len() <= u32::MAX
    &&& encode_utf8(multisample_xml_of(stem, written_zones(zs, sample_rate).0)).len() <= u32::MAX
}

/// The message of a failure of the archive writer, after the step's prefix.
pub open spec fn archive_failure(e: Seq<char>) -> bool {
    ||| "Zip file add error: "@.is_prefix_of(e)
    ||| "Zip write error: "@.is_prefix_of(e)
    ||| "Zip XML add error: "@.is_prefix_of(e)
    ||| "Zip XML write error: "@.is_prefix_of(e)
    ||| "Zip finish error: "@.is_prefix_of(e)
}

fn failure(prefix: &str, detail: String) -> (s: String)
    ensures
        s@ == prefix@ + detail@,
{
    let mut s = String::from_str(prefix);
    s.append(detail.as_str());
    s
}

proof fn lemma_written_names<'a>(zs: Seq<ZoneAudio>, sample_rate: u32)
    ensures
        written_zones(zs, sample_rate).0.len() == written_zones(zs, sample_rate).1.len(),
        forall|k: int|
            0 <= k < written_zones(zs, sample_rate).1.len() ==> exists|j: int|
                0 <= j < zs.len() && #[trigger] written_zones(zs, sample_rate).1[k].0 == sample_file_name_of(
                    zs[j].zone.pos as nat,
                ) && written_zones(zs, sample_rate).0[k] == zs[j].zone,
    decreases zs.len(),
{
    if zs.len() > 0 {
        lemma_written_names(zs.drop_last(), sample_rate);
        let rest = written_zones(zs.drop_last(), sample_rate);
        let w = written_zones(zs, sample_rate);
        assert forall|k: int| 0 <= k < w.1.len() implies exists|j: int|
            0 <= j < zs.len() && #[trigger] w.1[k].0 == sample_file_name_of(zs[j].zone.pos as nat) && w.0[k]
                == zs[j].zone by {
            if k < rest.1.len() {
                let j = choose|j: int|
                    0 <= j < zs.drop_last().len() && #[trigger] rest.1[k].0 == sample_file_name_of(
                        zs.drop_last()[j].zone.pos as nat,
                    ) && rest.0[k] == zs.drop_last()[j].zone;
                assert(zs.drop_last()[j] == zs[j]);
                assert(w.1[k] == rest.1[k]);
                assert(w.0[k] == rest.0[k]);
            } else {
                assert(w.1[k].0 == sample_file_name_of(zs[zs.len() - 1].zone.pos as nat));
            }
        }
    }
}

/// The multisample archive for the zones (see `archive_files`), or the
/// archive writer's failure prefixed with the step that failed. The archive
/// is built in memory: it is always built when its files stay within 32-bit
/// sizes.
pub fn multisample_archive(stem: Option<&str>, zones: &Vec<ZoneAudio>, sample_rate: u32) -> (r: Result<
    Vec<u8>,
    String,
>)
    requires
        forall|k: int| 0 <= k < zones@.len() ==> #[trigger] zones@[k].zone.pos < usize::MAX,
        forall|i: int, j: int|
            0 <= i < j < zones@.len() ==> #[trigger] zones@[i].zone.pos != #[trigger] zones@[j].zone.pos,
        forall|k: int| 0 <= k < zones@.len() ==> simple_wav_fits(#[trigger] zones@[k].pcm@.len(), sample_rate),
    ensures
        r matches Ok(bytes) ==> bytes@ == stored_zip(
            archive_files(
                match stem {
                    Some(n) => Some(n@),
                    None => None,
                },
                zones@,
                sample_rate,
            ),
        ),
        r matches Err(e) ==> archive_failure(e@),
        archive_fits(
            match stem {
                Some(n) => Some(n@),
                None => None,
            },
            zones@,
            sample_rate,
        ) ==> r is Ok,
{
    let ghost stem_view = match stem {
        Some(n) => Some(n@),
        None => None,
    };
    proof {
        reveal_strlit("Zip file add error: ");
        reveal_strlit("Zip write error: ");
        reveal_strlit("Zip XML add error: ");
        reveal_strlit("Zip XML write error: ");
        reveal_strlit("Zip finish error: ");
        reveal_strlit("multisample.xml");
    }
    let mut w = new_archive();
    let mut shapes: Vec<SampleZone> = Vec::new();
    let mut i: usize = 0;
    while i < zones.len()
        invariant
            0 <= i <= zones@.len(),
            forall|k: int| 0 <= k < zones@.len() ==> #[trigger] zones@[k].zone.pos < usize::MAX,
            forall|a: int, b: int|
                0 <= a < b < zones@.len() ==> #[trigger] zones@[a].zone.pos != #[trigger] zones@[b].zone.pos,
            forall|k: int| 0 <= k < zones@.len() ==> simple_wav_fits(#[trigger] zones@[k].pcm@.len(), sample_rate),
            archive_fits(stem_view, zones@, sample_rate) ==> forall|k: int|
                0 <= k < zones@.len() && zone_written(#[trigger] zones@[k]) ==> 44 + 2 * zones@[k].pcm@.len()
                    <= u32::MAX,
            shapes@ == written_zones(zones@.take(i as int), sample_rate).0,
            archive_entries(w) == written_zones(zones@.take(i as int), sample_rate).1,
            archive_intact(w),
            forall|k: int| 0 <= k < shapes@.len() ==> #[trigger] shapes@[k].pos < usize::MAX,
        decreases zones.len() - i,
    {
        let z = &zones[i];
        assert(zones@.take(i + 1).drop_last() == zones@.take(i as int));
        assert(zones@.take(i + 1).last() == zones@[i as int]);
        if z.zone.frames > 0 && z.pcm.len() > 0 {
            let mut wav: Vec<u8> = Vec::new();
            let _ = write_simple_wav(&mut wav, z.pcm.as_slice(), sample_rate);
            proof {
                simple_wav_length(z.pcm@, sample_rate);
                sample_file_names_distinct(z.zone.pos as nat, z.zone.pos as nat);
            }
            let name = sample_file_name(z.zone.pos);
            let ghost before = archive_entries(w);
            proof {
                lemma_written_names(zones@.take(i as int), sample_rate);
                assert forall|k: int| 0 <= k < before.len() implies #[trigger] before[k].0 != name@ by {
                    let j = choose|j: int|
                        0 <= j < zones@.take(i as int).len() && #[trigger] before[k].0 == sample_file_name_of(
                            zones@.take(i as int)[j].zone.pos as nat,
                        ) && written_zones(zones@.take(i as int), sample_rate).0[k] == zones@.take(
                            i as int,
                        )[j].zone;
                    assert(zones@.take(i as int)[j] == zones@[j]);
                    assert(zones@[j].zone.pos != zones@[i as int].zone.pos);
                    sample_file_names_distinct(zones@[j].zone.pos as nat, z.zone.pos as nat);
                }
            }
            match start_stored_file(&mut w, name.as_str()) {
                Ok(()) => {},
                Err(e) => {
                    return Err(failure("Zip file add error: ", e.to_string()));
                },
            }
            match write_to_file(&mut w, wav.as_slice()) {
                Ok(()) => {},
                Err(e) => {
                    return Err(failure("Zip write error: ", e.to_string()));
                },
            }
            assert(archive_entries(w) =~= before.push((name@, wav@)));
            shapes.push(z.zone);
        }
        i = i + 1;
    }
    assert(zones@.take(zones.len() as int) == zones@);
    let xml = multisample_xml(stem, &shapes);
    let ghost zone_files = archive_entries(w);
    let index_name = "multisample.xml";
    proof {
        lemma_written_names(zones@, sample_rate);
        assert forall|k: int| 0 <= k < zone_files.len() implies #[trigger] zone_files[k].0 != index_name@ by {
            let j = choose|j: int|
                0 <= j < zones@.len() && #[trigger] zone_files[k].0 == sample_file_name_of(zones@[j].zone.pos as nat)
                    && written_zones(zones@, sample_rate).0[k] == zones@[j].zone;
            sample_file_names_distinct(zones@[j].zone.pos as nat, zones@[j].zone.pos as nat);
        }
    }
    match start_stored_file(&mut w, index_name) {
        Ok(()) => {},
        Err(e) => {
            return Err(failure("Zip XML add error: ", e.to_string()));
        },
    }
    let xml_bytes = xml.as_str().as_bytes();
    match write_to_file(&mut w, xml_bytes) {
        Ok(()) => {},
        Err(e) => {
            return Err(failure("Zip XML write error: ", e.to_string()));
        },
    }
    assert(xml_bytes@ == encode_utf8(xml@));
    if xml_bytes.len() > 0 {
        assert(archive_entries(w) =~= zone_files.push((index_name@, xml_bytes@)));
    } else {
        assert(xml_bytes@ =~= Seq::<u8>::empty());
        assert(archive_entries(w) =~= zone_files.push((index_name@, xml_bytes@)));
    }
    match finish_archive(w) {
        Ok(bytes) => Ok(bytes),
        Err(e) => Err(failure("Zip finish error: ", e.to_string())),
    }
}

} // verus!

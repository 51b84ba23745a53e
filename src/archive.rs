//! The archive container: a zip file holding `export.json` and the blobs.
use vstd::prelude::*;
use std::io::Cursor;
use std::io::Write;
use crate::error::PortError;
use crate::export::ExportFile;
use crate::import::{entries_view, ArchiveEntry};

verus! {

#[verifier::external_type_specification]
#[verifier::external_body]
#[verifier::reject_recursive_types(T)]
pub struct ExCursor<T>(std::io::Cursor<T>);

#[verifier::external_type_specification]
#[verifier::external_body]
pub struct ExIoError(std::io::Error);

/// A zip archive being written into memory. It holds a `zip::ZipWriter`,
/// which Verus cannot declare (its `Write + Seek` bound); `zip_written`
/// names what it holds.
#[verifier::external_body]
pub struct ArchiveWriter {
    inner: zip::ZipWriter<Cursor<Vec<u8>>>,
}

#[verifier::external_type_specification]
#[verifier::external_body]
#[verifier::reject_recursive_types(R)]
pub struct ExZipArchive<R>(zip::ZipArchive<R>);

#[verifier::external_type_specification]
#[verifier::external_body]
pub struct ExZipError(zip::result::ZipError);

/// The entries a zip writer holds so far: name and content, in the order
/// they were started.
pub uninterp spec fn zip_written(w: ArchiveWriter) -> Seq<(Seq<char>, Seq<u8>)>;

/// Every call made on the writer so far has succeeded: no entry was
/// refused or aborted, so the buffer holds nothing but the entries.
pub uninterp spec fn zip_clean(w: ArchiveWriter) -> bool;

/// The writer has an entry open for its content to be written.
pub uninterp spec fn zip_entry_open(w: ArchiveWriter) -> bool;

/// The bytes of a zip archive holding these entries, written in one run of
/// successful calls with the default file options, then finished. Without
/// zip's `time` feature every entry is stamped 1980-01-01, so the bytes
/// depend on the entries alone.
pub uninterp spec fn zip_bytes(entries: Seq<(Seq<char>, Seq<u8>)>) -> Seq<u8>;

/// The entries of an opened zip archive: name and content, in the order of
/// its central directory.
pub uninterp spec fn zip_contents(a: zip::ZipArchive<Cursor<Vec<u8>>>) -> Seq<(Seq<char>, Seq<u8>)>;

/// The bytes an opened zip archive reads from.
pub uninterp spec fn zip_source(a: zip::ZipArchive<Cursor<Vec<u8>>>) -> Seq<u8>;

/// The entries that the zip reader finds in these bytes.
pub uninterp spec fn zip_entries_in(bytes: Seq<u8>) -> Seq<(Seq<char>, Seq<u8>)>;

/// `zip::ZipArchive::new` accepts these bytes, and `by_index` followed by
/// `read_to_end` succeeds on each of their entries.
pub uninterp spec fn zip_readable(bytes: Seq<u8>) -> bool;

/// Room an entry takes, counted generously: four bytes per name character,
/// its content, and a fixed allowance for headers and compression.
pub open spec fn entry_room(e: (Seq<char>, Seq<u8>)) -> int {
    4 * e.0.len() as int + e.1.len() as int + 256
}

pub open spec fn total_room(es: Seq<(Seq<char>, Seq<u8>)>) -> int
    decreases es.len(),
{
    if es.len() == 0 {
        0
    } else {
        total_room(es.drop_last()) + entry_room(es.last())
    }
}

/// Entries small and few enough that no size, offset or count of the
/// archive comes near the 32-bit and 16-bit limits past which zip needs its
/// large-file extension.
pub open spec fn zip_fits(es: Seq<(Seq<char>, Seq<u8>)>) -> bool {
    es.len() < 65535 && total_room(es) <= 0x4000_0000
}

pub open spec fn has_name(es: Seq<(Seq<char>, Seq<u8>)>, name: Seq<char>) -> bool {
    exists|i: int| 0 <= i < es.len() && (#[trigger] es[i]).0 == name
}

/// No two entries share a name.
pub open spec fn names_distinct(es: Seq<(Seq<char>, Seq<u8>)>) -> bool {
    forall|a: int, b: int| 0 <= a < b < es.len() ==> (#[trigger] es[a]).0 != (#[trigger] es[b]).0
}

/// Relies on `zip::ZipWriter::new`: a writer over an empty buffer holds no
/// entry.
#[verifier::external_body]
fn zip_writer_new() -> (w: ArchiveWriter)
    ensures
        zip_written(w) == Seq::<(Seq<char>, Seq<u8>)>::empty(),
        zip_clean(w),
        !zip_entry_open(w),
{
    ArchiveWriter { inner: zip::ZipWriter::new(Cursor::new(Vec::new())) }
}

/// Relies on `zip::ZipWriter::start_file`: on a clean writer, success opens
/// a new, empty entry of that name after the earlier ones. It refuses only
/// a name already written (`insert_file_data`); finishing the previous
/// entry into memory fails only past the 32-bit sizes that `zip_fits`
/// excludes. A name longer than 65535 bytes makes it panic, so the name is
/// bounded.
#[verifier::external_body]
fn zip_start_file(w: &mut ArchiveWriter, name: &str) -> (r: Result<(), zip::result::ZipError>)
    requires
        name@.len() <= 16383,
    ensures
        zip_clean(*old(w)) && !has_name(zip_written(*old(w)), name@)
            && zip_fits(zip_written(*old(w)).push((name@, Seq::<u8>::empty()))) ==> r is Ok,
        zip_clean(*old(w)) && r is Ok ==> zip_clean(*final(w)) && zip_entry_open(*final(w))
            && zip_written(*final(w)) == zip_written(*old(w)).push((name@, Seq::<u8>::empty())),
{
    w.inner.start_file(name, zip::write::SimpleFileOptions::default())
}

/// Relies on `std::io::Write::write_all` of `zip::ZipWriter`: on a clean
/// writer with an entry open, success appends the bytes to that entry, the
/// last one started. It then fails only when the entry passes `u32::MAX`
/// bytes without the large-file option.
#[verifier::external_body]
fn zip_write_all(w: &mut ArchiveWriter, data: &[u8]) -> (r: Result<(), std::io::Error>)
    requires
        zip_written(*old(w)).len() > 0,
    ensures
        zip_clean(*old(w)) && zip_entry_open(*old(w)) && zip_fits(zip_written(*old(w)).drop_last().push(
            (zip_written(*old(w)).last().0, zip_written(*old(w)).last().1 + data@),
        )) ==> r is Ok,
        zip_clean(*old(w)) && zip_entry_open(*old(w)) && r is Ok ==> zip_clean(*final(w)) && zip_entry_open(*final(w))
            && zip_written(*final(w)) == zip_written(*old(w)).drop_last().push(
            (zip_written(*old(w)).last().0, zip_written(*old(w)).last().1 + data@),
        ),
{
    w.inner.write_all(data)
}

/// Relies on `zip::ZipWriter::finish`, then `Cursor::into_inner`: the bytes
/// of the finished archive. On a clean writer it succeeds in memory within
/// `zip_fits`, no aborted data lies past the footer, and the zip reader
/// finds in the bytes the entries written, in order: names are stored as
/// written (UTF-8 flagged when not ASCII) and contents are checked against
/// their CRC-32.
#[verifier::external_body]
fn zip_finish(w: ArchiveWriter) -> (r: Result<Vec<u8>, zip::result::ZipError>)
    ensures
        zip_clean(w) && zip_fits(zip_written(w)) && names_distinct(zip_written(w)) ==> r is Ok,
        zip_clean(w) ==> (r matches Ok(b) ==> b@ == zip_bytes(zip_written(w)) && zip_readable(b@)
            && zip_entries_in(b@) == zip_written(w)),
{
    w.inner.finish().map(|c| c.into_inner())
}

/// Relies on `zip::ZipArchive::new`: on success the archive lists the
/// entries found in the bytes it reads from.
#[verifier::external_body]
fn zip_open(bytes: Vec<u8>) -> (r: Result<zip::ZipArchive<Cursor<Vec<u8>>>, zip::result::ZipError>)
    ensures
        zip_readable(bytes@) ==> r is Ok,
        r matches Ok(a) ==> zip_contents(a) == zip_entries_in(bytes@) && zip_source(a) == bytes@,
{
    zip::ZipArchive::new(Cursor::new(bytes))
}

/// Relies on `zip::ZipArchive::len`: the number of entries.
#[verifier::external_body]
fn zip_len(a: &zip::ZipArchive<Cursor<Vec<u8>>>) -> (r: usize)
    ensures
        r == zip_contents(*a).len(),
{
    a.len()
}

/// Relies on `zip::ZipArchive::by_index`, read to its end: the name and the
/// content of the entry at `index`.
#[verifier::external_body]
fn zip_read_entry(a: &mut zip::ZipArchive<Cursor<Vec<u8>>>, index: usize) -> (r: Result<(String, Vec<u8>), zip::result::ZipError>)
    requires
        index < zip_contents(*old(a)).len(),
    ensures
        zip_contents(*final(a)) == zip_contents(*old(a)),
        zip_source(*final(a)) == zip_source(*old(a)),
        zip_readable(zip_source(*old(a))) ==> r is Ok,
        r matches Ok(e) ==> e.0@ == zip_contents(*old(a))[index as int].0 && e.1@ == zip_contents(*old(a))[index as int].1,
{
    let mut f = a.by_index(index)?;
    let name = f.name().to_string();
    let mut data = Vec::new();
    std::io::Read::read_to_end(&mut f, &mut data)?;
    Ok((name, data))
}

/// Relies on the `Display` of `zip::result::ZipError`.
#[verifier::external_body]
fn zip_error_text(e: &zip::result::ZipError) -> String {
    e.to_string()
}

/// Relies on the `Display` of `std::io::Error`.
#[verifier::external_body]
fn io_error_text(e: &std::io::Error) -> String {
    e.to_string()
}

proof fn lemma_room_prefix(es: Seq<(Seq<char>, Seq<u8>)>, j: int)
    requires
        0 <= j <= es.len(),
    ensures
        total_room(es.take(j)) <= total_room(es),
    decreases es.len(),
{
    if j < es.len() {
        assert(es.drop_last().take(j) =~= es.take(j));
        lemma_room_prefix(es.drop_last(), j);
    } else {
        assert(es.take(j) =~= es);
    }
}

/// Starting entry `j` of `layout` after the ones before it, then writing
/// its content, stays within what `layout` itself needs.
proof fn lemma_entry_step(layout: Seq<(Seq<char>, Seq<u8>)>, j: int)
    requires
        0 <= j < layout.len(),
        names_distinct(layout),
        zip_fits(layout),
    ensures
        !has_name(layout.take(j), layout[j].0),
        zip_fits(layout.take(j).push((layout[j].0, Seq::<u8>::empty()))),
        zip_fits(layout.take(j + 1)),
        layout.take(j).push((layout[j].0, Seq::<u8>::empty() + layout[j].1)) == layout.take(j + 1),
{
    let before = layout.take(j);
    let x = layout[j];
    if has_name(before, x.0) {
        let k = choose|k: int| 0 <= k < before.len() && (#[trigger] before[k]).0 == x.0;
        assert(layout[k] == before[k]);
    }
    lemma_room_prefix(layout, j + 1);
    assert(layout.take(j + 1).drop_last() =~= before);
    assert(layout.take(j + 1).last() == x);
    let started = before.push((x.0, Seq::<u8>::empty()));
    assert(started.drop_last() =~= before);
    assert(total_room(started) <= total_room(layout.take(j + 1)));
    assert(Seq::<u8>::empty() + x.1 =~= x.1);
    assert(before.push((x.0, Seq::<u8>::empty() + x.1)) =~= layout.take(j + 1));
}

proof fn lemma_entry_step_shape(layout: Seq<(Seq<char>, Seq<u8>)>, j: int)
    requires
        0 <= j < layout.len(),
    ensures
        layout.take(j).push((layout[j].0, Seq::<u8>::empty() + layout[j].1)) == layout.take(j + 1),
{
    assert(Seq::<u8>::empty() + layout[j].1 =~= layout[j].1);
    assert(layout.take(j).push((layout[j].0, Seq::<u8>::empty() + layout[j].1)) =~= layout.take(j + 1));
}

/// The name of the metadata entry.
pub open spec fn metadata_name() -> Seq<char> {
    "export.json"@
}

/// The entries of an archive: the metadata document first, then one entry
/// per blob.
pub open spec fn archive_layout(metadata: Seq<u8>, files: Seq<ExportFile>, blobs: Seq<Vec<u8>>) -> Seq<(Seq<char>, Seq<u8>)> {
    seq![(metadata_name(), metadata)] + Seq::new(files.len(), |k: int| (files[k].zip_path@, blobs[k]@))
}

/// Packs the metadata document and the blob of each export entry into one
/// zip archive. It succeeds when the entry names are distinct and the
/// archive stays within `zip_fits`; the zip reader then finds exactly these
/// entries in the bytes.
pub fn build_deck_zip(metadata: &[u8], files: &Vec<ExportFile>, blobs: &Vec<Vec<u8>>) -> (r: Result<Vec<u8>, PortError>)
    requires
        files@.len() == blobs@.len(),
        forall|k: int| 0 <= k < files@.len() ==> (#[trigger] files@[k]).zip_path@.len() <= 16383,
    ensures
        names_distinct(archive_layout(metadata@, files@, blobs@)) && zip_fits(archive_layout(metadata@, files@, blobs@))
            ==> r is Ok,
        r matches Ok(b) ==> b@ == zip_bytes(archive_layout(metadata@, files@, blobs@))
            && zip_readable(b@) && zip_entries_in(b@) == archive_layout(metadata@, files@, blobs@),
        r is Err ==> r matches Err(PortError::Io { .. }),
{
    let ghost layout = archive_layout(metadata@, files@, blobs@);
    let ghost ok = names_distinct(layout) && zip_fits(layout);
    proof {
        reveal_strlit("export.json");
        assert(layout[0].0 == metadata_name());
        assert(layout.take(0) =~= Seq::<(Seq<char>, Seq<u8>)>::empty());
        if ok {
            lemma_entry_step(layout, 0);
        }
    }
    let mut w = zip_writer_new();
    match zip_start_file(&mut w, "export.json") {
        Ok(()) => {},
        Err(e) => {
            return Err(PortError::Io { detail: zip_error_text(&e) });
        },
    }
    assert(zip_written(w).drop_last() =~= layout.take(0));
    assert(zip_written(w).last() == (layout[0].0, Seq::<u8>::empty()));
    assert(layout.take(1) =~= seq![(metadata_name(), metadata@)]);
    assert(Seq::<u8>::empty() + metadata@ =~= metadata@);
    match zip_write_all(&mut w, metadata) {
        Ok(()) => {},
        Err(e) => {
            return Err(PortError::Io { detail: io_error_text(&e) });
        },
    }
    assert(zip_written(w) =~= layout.take(1));
    let mut i: usize = 0;
    while i < files.len()
        invariant
            i <= files@.len() == blobs@.len(),
            forall|k: int| 0 <= k < files@.len() ==> (#[trigger] files@[k]).zip_path@.len() <= 16383,
            layout == archive_layout(metadata@, files@, blobs@),
            ok == (names_distinct(layout) && zip_fits(layout)),
            zip_written(w) == layout.take(i + 1),
            zip_clean(w),
        decreases files.len() - i,
    {
        proof {
            assert(layout[i + 1] == (files@[i as int].zip_path@, blobs@[i as int]@));
            if ok {
                lemma_entry_step(layout, i + 1);
            }
        }
        match zip_start_file(&mut w, files[i].zip_path.as_str()) {
            Ok(()) => {},
            Err(e) => {
                return Err(PortError::Io { detail: zip_error_text(&e) });
            },
        }
        assert(zip_written(w).drop_last() =~= layout.take(i + 1));
        assert(zip_written(w).last() == (layout[i + 1].0, Seq::<u8>::empty()));
        match zip_write_all(&mut w, blobs[i].as_slice()) {
            Ok(()) => {},
            Err(e) => {
                return Err(PortError::Io { detail: io_error_text(&e) });
            },
        }
        proof {
            lemma_entry_step_shape(layout, i as int + 1);
        }
        i += 1;
    }
    assert(layout.take(files.len() + 1) =~= layout);
    match zip_finish(w) {
        Ok(b) => Ok(b),
        Err(e) => Err(PortError::Io { detail: zip_error_text(&e) }),
    }
}

/// All entries of a zip archive, in order.
pub fn read_archive(bytes: Vec<u8>) -> (r: Result<Vec<ArchiveEntry>, PortError>)
    ensures
        zip_readable(bytes@) ==> r is Ok,
        r matches Ok(es) ==> entries_view(es@) == zip_entries_in(bytes@),
        r is Err ==> r matches Err(PortError::Io { .. }),
{
    let ghost found = zip_entries_in(bytes@);
    let ghost source = bytes@;
    let mut a = match zip_open(bytes) {
        Ok(a) => a,
        Err(e) => {
            return Err(PortError::Io { detail: zip_error_text(&e) });
        },
    };
    let n = zip_len(&a);
    let mut out: Vec<ArchiveEntry> = Vec::new();
    let mut i: usize = 0;
    while i < n
        invariant
            i <= n == zip_contents(a).len(),
            zip_contents(a) == found,
            zip_source(a) == source,
            source == bytes@,
            entries_view(out@) == found.take(i as int),
            out@.len() == i,
        decreases n - i,
    {
        match zip_read_entry(&mut a, i) {
            Ok(e) => {
                let (name, data) = e;
                out.push(ArchiveEntry { name, data });
            },
            Err(e) => {
                return Err(PortError::Io { detail: zip_error_text(&e) });
            },
        }
        i += 1;
        assert(entries_view(out@) =~= found.take(i as int));
    }
    assert(found.take(n as int) =~= found);
    Ok(out)
}

/// Whether `name` is the metadata entry's name.
fn is_metadata_name(name: &String) -> (r: bool)
    ensures
        r == (name@ == metadata_name()),
{
    let m = String::from_str("export.json");
    *name == m
}

/// The content of the archive's metadata entry; its absence is a validation
/// error.
pub fn metadata_entry(entries: &Vec<ArchiveEntry>) -> (r: Result<&Vec<u8>, PortError>)
    ensures
        r matches Ok(d) ==> exists|i: int| 0 <= i < entries@.len() && (#[trigger] entries@[i]).name@ == metadata_name()
            && entries@[i].data == *d,
        r is Err <==> forall|i: int| 0 <= i < entries@.len() ==> (#[trigger] entries@[i]).name@ != metadata_name(),
        r is Err ==> r matches Err(PortError::MalformedMetadata { .. }),
{
    let mut i: usize = 0;
    while i < entries.len()
        invariant
            i <= entries@.len(),
            forall|k: int| 0 <= k < i ==> (#[trigger] entries@[k]).name@ != metadata_name(),
        decreases entries.len() - i,
    {
        if is_metadata_name(&entries[i].name) {
            return Ok(&entries[i].data);
        }
        i += 1;
    }
    Err(PortError::MalformedMetadata { detail: String::from_str("the archive holds no export.json") })
}

} // verus!

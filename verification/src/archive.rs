//! The archive boundary: reading a zip-based container out of bytes into a
//! plain entry list, and packing an entry list back into bytes. The zip
//! library is trusted only for the per-entry calls below; the loops around
//! them are verified.

use vstd::prelude::*;

verus! {

/// One entry of the container: its path inside the archive and its bytes.
#[derive(Debug)]
pub struct ArchiveEntry {
    pub name: String,
    pub data: Vec<u8>,
}

#[verifier::ext_equal]
pub struct EntryV {
    pub name: Seq<char>,
    pub data: Seq<u8>,
}

impl View for ArchiveEntry {
    type V = EntryV;

    open spec fn view(&self) -> EntryV {
        EntryV { name: self.name@, data: self.data@ }
    }
}

impl Clone for ArchiveEntry {
    /// An entry clones to an equal entry.
    fn clone(&self) -> (r: Self)
        ensures
            r@ == self@,
    {
        ArchiveEntry { name: self.name.clone(), data: self.data.clone() }
    }
}

pub open spec fn entries_view(v: Seq<ArchiveEntry>) -> Seq<EntryV> {
    Seq::new(v.len(), |i: int| v[i]@)
}

// ---------------------------------------------------------------------------
// Trusted boundary.
// ---------------------------------------------------------------------------

/// Declares the zip library's reader type so values of it can be held and
/// handed between the trusted calls below; it stays opaque.
#[verifier::external_type_specification]
#[verifier::external_body]
#[verifier::reject_recursive_types(R)]
pub struct ExZipArchive<R>(zip::ZipArchive<R>);

/// Declares the in-memory reader the archive is opened over.
#[verifier::external_type_specification]
#[verifier::external_body]
#[verifier::reject_recursive_types(T)]
pub struct ExCursor<T>(std::io::Cursor<T>);

/// An in-memory archive writer. The writer type of the zip library carries
/// trait bounds Verus refuses in a type declaration, so it lives behind an
/// opaque struct; `writer_entries` names what it holds.
#[verifier::external_body]
pub struct PackWriter {
    inner: zip::ZipWriter<std::io::Cursor<Vec<u8>>>,
}

/// The names in the container's central directory, in index order; nothing
/// when the container cannot be opened and indexed. A function of the bytes
/// alone.
pub uninterp spec fn zip_dir(bytes: Seq<u8>) -> Option<Seq<Seq<char>>>;

/// The fully decompressed data of entry `i`; nothing when reading that
/// entry fails. A function of the bytes and the index alone.
pub uninterp spec fn zip_entry_data(bytes: Seq<u8>, i: int) -> Option<Seq<u8>>;

/// The bytes an open archive was opened from.
pub uninterp spec fn archive_src(a: zip::ZipArchive<std::io::Cursor<Vec<u8>>>) -> Seq<u8>;

/// The entries written to an open in-memory writer so far.
pub uninterp spec fn writer_entries(w: PackWriter) -> Seq<EntryV>;

/// The archive bytes that packing a list of entries produces, with the
/// library's constant default entry options. A function of the entries
/// alone.
pub uninterp spec fn zip_encode(entries: Seq<EntryV>) -> Seq<u8>;

/// What full extraction of a container yields: all entries, in directory
/// order; nothing when opening or any entry read fails.
pub open spec fn zip_entries(bytes: Seq<u8>) -> Option<Seq<EntryV>> {
    match zip_dir(bytes) {
        None => None,
        Some(names) => {
            if forall|i: int| 0 <= i < names.len() ==> zip_entry_data(bytes, i) is Some {
                Some(
                    Seq::new(
                        names.len(),
                        |i: int| EntryV { name: names[i], data: zip_entry_data(bytes, i)->0 },
                    ),
                )
            } else {
                None
            }
        },
    }
}

/// Relies on zip::ZipArchive::new: it reads the central directory and fails
/// exactly when the container cannot be opened and indexed.
#[verifier::external_body]
fn open_archive(bytes: Vec<u8>) -> (r: Result<
    zip::ZipArchive<std::io::Cursor<Vec<u8>>>,
    String,
>)
    ensures
        r matches Ok(a) ==> archive_src(a) == bytes@ && zip_dir(bytes@) is Some,
        r is Err ==> zip_dir(bytes@) is None,
{
    match zip::ZipArchive::new(std::io::Cursor::new(bytes)) {
        Ok(a) => Ok(a),
        Err(e) => Err(format!("{}", e)),
    }
}

/// Relies on zip::ZipArchive::len: the number of entries in the directory.
#[verifier::external_body]
fn archive_len(a: &zip::ZipArchive<std::io::Cursor<Vec<u8>>>) -> (r: usize)
    requires
        zip_dir(archive_src(*a)) is Some,
    ensures
        r == zip_dir(archive_src(*a))->0.len(),
{
    a.len()
}

/// Relies on zip::ZipArchive::by_index and Read::read_to_end: the raw name
/// and fully decompressed data of entry `i`.
#[verifier::external_body]
fn read_entry(a: &mut zip::ZipArchive<std::io::Cursor<Vec<u8>>>, i: usize) -> (r: Result<
    ArchiveEntry,
    String,
>)
    requires
        zip_dir(archive_src(*old(a))) is Some,
        i < zip_dir(archive_src(*old(a)))->0.len(),
    ensures
        archive_src(*final(a)) == archive_src(*old(a)),
        r matches Ok(e) ==> e.name@ == zip_dir(archive_src(*old(a)))->0[i as int]
            && zip_entry_data(archive_src(*old(a)), i as int) == Some(e.data@),
        r is Err ==> zip_entry_data(archive_src(*old(a)), i as int) is None,
{
    match a.by_index(i) {
        Ok(mut f) => {
            let name = f.name().to_string();
            let mut data = Vec::new();
            match std::io::Read::read_to_end(&mut f, &mut data) {
                Ok(_) => Ok(ArchiveEntry { name, data }),
                Err(e) => Err(format!("{}", e)),
            }
        },
        Err(e) => Err(format!("{}", e)),
    }
}

/// Relies on zip::ZipWriter::new on an in-memory buffer.
#[verifier::external_body]
fn new_writer() -> (r: PackWriter)
    ensures
        writer_entries(r) == Seq::<EntryV>::empty(),
{
    PackWriter { inner: zip::ZipWriter::new(std::io::Cursor::new(Vec::new())) }
}

/// Relies on zip::ZipWriter::start_file with the default options and
/// Write::write_all: on success exactly one entry with this name and data
/// has been appended.
#[verifier::external_body]
fn write_entry(w: &mut PackWriter, name: &str, data: &Vec<u8>) -> (r: Result<(), String>)
    ensures
        r is Ok ==> writer_entries(*final(w)) == writer_entries(*old(w)).push(
            EntryV { name: name@, data: data@ },
        ),
{
    match w.inner.start_file(name, zip::write::SimpleFileOptions::default()) {
        Ok(()) => match std::io::Write::write_all(&mut w.inner, data.as_slice()) {
            Ok(()) => Ok(()),
            Err(e) => Err(format!("{}", e)),
        },
        Err(e) => Err(format!("{}", e)),
    }
}

/// Relies on zip::ZipWriter::finish: the finished archive holds exactly the
/// entries written, and with the constant default options its bytes are a
/// function of those entries alone.
#[verifier::external_body]
fn finish_writer(w: PackWriter) -> (r: Result<Vec<u8>, String>)
    ensures
        r matches Ok(b) ==> b@ == zip_encode(writer_entries(w)),
{
    match w.inner.finish() {
        Ok(c) => Ok(c.into_inner()),
        Err(e) => Err(format!("{}", e)),
    }
}

// ---------------------------------------------------------------------------
// Verified extraction and packing.
// ---------------------------------------------------------------------------

/// Expand a container into its entry list, names and bytes, in directory
/// order. Succeeds exactly when the container opens and every entry reads.
pub fn read_archive(bytes: &Vec<u8>) -> (r: Result<Vec<ArchiveEntry>, String>)
    ensures
        r matches Ok(es) ==> zip_entries(bytes@) == Some(entries_view(es@)),
        r is Err ==> zip_entries(bytes@) is None,
{
    let mut a = match open_archive(bytes.clone()) {
        Ok(a) => a,
        Err(e) => {
            return Err(e);
        },
    };
    let ghost names = zip_dir(bytes@)->0;
    let n = archive_len(&a);
    let mut out: Vec<ArchiveEntry> = Vec::new();
    let mut i: usize = 0;
    while i < n
        invariant
            0 <= i <= n,
            archive_src(a) == bytes@,
            zip_dir(bytes@) == Some(names),
            n == names.len(),
            out@.len() == i,
            forall|j: int| 0 <= j < i ==> #[trigger] zip_entry_data(bytes@, j) is Some,
            forall|j: int|
                0 <= j < i ==> (#[trigger] out@[j])@ == (EntryV {
                    name: names[j],
                    data: zip_entry_data(bytes@, j)->0,
                }),
        decreases n - i,
    {
        match read_entry(&mut a, i) {
            Ok(e) => {
                let ghost old_out = out@;
                let ghost ev = e@;
                out.push(e);
                proof {
                    assert(out@.len() == i + 1);
                    assert(out@[i as int]@ == ev);
                    assert(out@[i as int]@ =~= EntryV {
                        name: names[i as int],
                        data: zip_entry_data(bytes@, i as int)->0,
                    });
                }
            },
            Err(msg) => {
                proof {
                    assert(zip_entry_data(bytes@, i as int) is None);
                    assert(zip_entries(bytes@) is None);
                }
                return Err(msg);
            },
        }
        i += 1;
    }
    proof {
        assert(forall|j: int| 0 <= j < names.len() ==> #[trigger] zip_entry_data(bytes@, j)
            is Some);
        let es = zip_entries(bytes@)->0;
        assert(es =~= entries_view(out@));
    }
    Ok(out)
}

/// Pack an entry list into container bytes, in order, with the default
/// entry options.
pub fn write_archive(entries: &Vec<ArchiveEntry>) -> (r: Result<Vec<u8>, String>)
    ensures
        r matches Ok(b) ==> b@ == zip_encode(entries_view(entries@)),
{
    let mut w = new_writer();
    let n = entries.len();
    proof {
        assert(entries_view(entries@).take(0) =~= Seq::<EntryV>::empty());
    }
    let mut i: usize = 0;
    while i < n
        invariant
            0 <= i <= n,
            n == entries@.len(),
            writer_entries(w) == entries_view(entries@).take(i as int),
        decreases n - i,
    {
        let e = &entries[i];
        match write_entry(&mut w, e.name.as_str(), &e.data) {
            Ok(()) => {},
            Err(msg) => {
                return Err(msg);
            },
        }
        proof {
            assert(entries_view(entries@).take(i + 1) =~= entries_view(entries@).take(
                i as int,
            ).push(entries@[i as int]@));
            assert(writer_entries(w) =~= entries_view(entries@).take(i + 1));
        }
        i += 1;
    }
    proof {
        assert(entries_view(entries@).take(n as int) =~= entries_view(entries@));
    }
    finish_writer(w)
}

} // verus!

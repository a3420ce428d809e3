//! Reading a template archive.
//!
//! The archive bytes are decoded by the `zip` crate behind three trusted
//! items; everything after decoding — path safety, extraction planning,
//! relocation — is verified code on plain byte values.  Decoding an
//! in-memory archive is deterministic in the bytes alone, so both what
//! the archive holds and whether decoding succeeds are named as functions
//! of the bytes, and [`read_archive`] succeeds exactly on decodable
//! bytes.

use vstd::prelude::*;

use crate::error::ScaffoldError;

verus! {

#[verifier::external_type_specification]
#[verifier::external_body]
#[verifier::reject_recursive_types(R)]
pub struct ExZipArchive<R>(zip::ZipArchive<R>);

#[verifier::external_type_specification]
#[verifier::external_body]
#[verifier::reject_recursive_types(T)]
pub struct ExCursor<T>(std::io::Cursor<T>);

/// What an opened archive holds: for each entry in central-directory
/// order, its declared raw name and its decompressed bytes (empty for a
/// directory entry).
pub uninterp spec fn archive_contents(a: zip::ZipArchive<std::io::Cursor<Vec<u8>>>) -> Seq<
    (Seq<u8>, Seq<u8>),
>;

/// Whether reading the archive's entry at the given index succeeds: a
/// truncated or corrupt entry body fails to decompress, every other entry
/// reads the same way every time.
pub uninterp spec fn entry_ok(a: zip::ZipArchive<std::io::Cursor<Vec<u8>>>, i: int) -> bool;

/// The entry list that decoding the given archive bytes yields: decoding
/// is a function of the bytes alone.
pub uninterp spec fn zip_payload(bytes: Seq<u8>) -> Seq<(Seq<u8>, Seq<u8>)>;

/// Whether the given bytes open as an archive: the central directory
/// decodes, a function of the bytes alone.
pub uninterp spec fn zip_opens(bytes: Seq<u8>) -> bool;

/// Whether the entry at the given index of the given archive bytes reads
/// back, a function of the bytes alone.
pub uninterp spec fn zip_entry_ok(bytes: Seq<u8>, i: int) -> bool;

/// Whether the given bytes decode completely: they open as an archive and
/// every entry reads back.
pub open spec fn zip_decodes(bytes: Seq<u8>) -> bool {
    zip_opens(bytes) && forall|i: int|
        0 <= i < zip_payload(bytes).len() ==> #[trigger] zip_entry_ok(bytes, i)
}

/// Relies on `zip::ZipArchive::new` over an in-memory cursor: it reads the
/// archive's central directory under the fixed default configuration, so
/// both success and the entry list of the opened archive are functions of
/// the bytes alone — and so is each entry's readability, since reading
/// re-seeks from the shared metadata over the same bytes.
#[verifier::external_body]
fn archive_open(bytes: Vec<u8>) -> (r: Result<
    zip::ZipArchive<std::io::Cursor<Vec<u8>>>,
    ScaffoldError,
>)
    ensures
        r is Ok <==> zip_opens(bytes@),
        r is Ok ==> archive_contents(r->Ok_0) == zip_payload(bytes@),
        r is Ok ==> forall|i: int| #[trigger] entry_ok(r->Ok_0, i) == zip_entry_ok(bytes@, i),
        r is Err ==> r->Err_0 == ScaffoldError::ArchiveError,
{
    match zip::ZipArchive::new(std::io::Cursor::new(bytes)) {
        Ok(a) => Ok(a),
        Err(_) => Err(ScaffoldError::ArchiveError),
    }
}

/// Relies on `zip::ZipArchive::len`: the number of entries the archive's
/// central directory lists.
#[verifier::external_body]
fn archive_len(a: &zip::ZipArchive<std::io::Cursor<Vec<u8>>>) -> (n: usize)
    ensures
        n == archive_contents(*a).len(),
{
    a.len()
}

/// Relies on `zip::ZipArchive::by_index`, on `ZipFile::name_raw` and on
/// the `Read` impl of the returned entry, which only convert the entry to
/// plain values: the declared raw name bytes and the decompressed bytes.
/// Reading moves the underlying cursor but re-seeks from the shared
/// metadata, so the entry list and every entry's readability are left as
/// they were; reading succeeds exactly where the entry decompresses.
#[verifier::external_body]
fn archive_entry(a: &mut zip::ZipArchive<std::io::Cursor<Vec<u8>>>, i: usize) -> (r: Result<
    (Vec<u8>, Vec<u8>),
    ScaffoldError,
>)
    requires
        i < archive_contents(*old(a)).len(),
    ensures
        archive_contents(*final(a)) == archive_contents(*old(a)),
        forall|j: int| #[trigger] entry_ok(*final(a), j) == entry_ok(*old(a), j),
        r is Ok <==> entry_ok(*old(a), i as int),
        r is Ok ==> r->Ok_0.0@ == archive_contents(*old(a))[i as int].0 && r->Ok_0.1@
            == archive_contents(*old(a))[i as int].1,
        r is Err ==> r->Err_0 == ScaffoldError::ArchiveError,
{
    let mut file = match a.by_index(i) {
        Ok(f) => f,
        Err(_) => return Err(ScaffoldError::ArchiveError),
    };
    let name = file.name_raw().to_vec();
    let mut data = Vec::new();
    match std::io::Read::read_to_end(&mut file, &mut data) {
        Ok(_) => Ok((name, data)),
        Err(_) => Err(ScaffoldError::ArchiveError),
    }
}

/// One decoded archive entry: its declared path and its decompressed
/// bytes.
#[derive(Debug)]
pub struct ArchiveEntry {
    /// The declared `/`-separated path, exactly as the archive wrote it.
    pub name: Vec<u8>,
    /// The decompressed bytes; empty for a directory entry.
    pub data: Vec<u8>,
}

/// The view of a decoded entry list.
pub open spec fn entries_view(es: Seq<ArchiveEntry>) -> Seq<(Seq<u8>, Seq<u8>)> {
    Seq::new(es.len(), |i: int| (es[i].name@, es[i].data@))
}

/// Decodes an archive into its entry list: succeeds exactly on bytes that
/// decode completely, and then the list is exactly the archive's payload,
/// in order; on any other bytes the archive error is returned.
#[verifier::loop_isolation(false)]
pub fn read_archive(bytes: Vec<u8>) -> (r: Result<Vec<ArchiveEntry>, ScaffoldError>)
    ensures
        r is Ok <==> zip_decodes(bytes@),
        r is Ok ==> entries_view(r->Ok_0@) == zip_payload(bytes@),
        r is Err ==> r->Err_0 == ScaffoldError::ArchiveError,
{
    let ghost bv = bytes@;
    let ghost payload = zip_payload(bytes@);
    let mut a = match archive_open(bytes) {
        Ok(a) => a,
        Err(e) => {
            assert(!zip_decodes(bv));
            return Err(e);
        },
    };
    let n = archive_len(&a);
    let mut out: Vec<ArchiveEntry> = Vec::new();
    let mut i: usize = 0;
    while i < n
        invariant
            zip_opens(bv),
            archive_contents(a) == payload,
            payload == zip_payload(bv),
            forall|j: int| #[trigger] entry_ok(a, j) == zip_entry_ok(bv, j),
            n == payload.len(),
            0 <= i <= n,
            out@.len() == i,
            forall|q: int| 0 <= q < i ==> #[trigger] zip_entry_ok(bv, q),
            forall|q: int|
                0 <= q < i ==> ((#[trigger] out@[q]).name@, out@[q].data@) == payload[q],
        decreases n - i,
    {
        match archive_entry(&mut a, i) {
            Ok(pair) => {
                out.push(ArchiveEntry { name: pair.0, data: pair.1 });
                i = i + 1;
            },
            Err(e) => {
                proof {
                    assert(!zip_entry_ok(bv, i as int));
                    assert(!zip_decodes(bv));
                }
                return Err(e);
            },
        }
    }
    proof {
        assert(zip_decodes(bv));
        assert(entries_view(out@) =~= payload);
    }
    Ok(out)
}

} // verus!

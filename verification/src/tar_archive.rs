use crate::blob::Blob;
use vstd::prelude::*;

verus! {

/// An in-memory tar archive being written. The outside builder type
/// cannot be declared to the verifier (its generic is bound by an outside
/// trait), so the whole struct is opaque; what it holds is tracked by
/// [`tar_builder_entries`], which the wrappers below specify.
#[verifier::external_body]
pub struct TarBuilder {
    inner: tar::Builder<Vec<u8>>,
}

/// The regular-file entries an archive builder holds so far: for each,
/// its path, its mode, and its contents, in the order they were appended.
pub uninterp spec fn tar_builder_entries(b: TarBuilder) -> Seq<(Seq<u8>, u32, Seq<u8>)>;

/// What serializing the given entries as a tar archive returns. The
/// builder writes zeroed GNU headers (no timestamps, owners or groups),
/// so the bytes are a function of the entries alone.
pub uninterp spec fn tar_bytes_of(entries: Seq<(Seq<u8>, u32, Seq<u8>)>) -> Seq<u8>;

/// What listing a tar archive's entries returns: each entry's path bytes,
/// contents, and whether it is a regular file, in archive order; `None`
/// when the bytes are not a readable archive.
pub uninterp spec fn tar_entries_of(data: Seq<u8>) -> Option<Seq<(Seq<u8>, Seq<u8>, bool)>>;

/// Relies on tar::Builder::new: a fresh archive that collects its bytes in
/// memory and holds no entry yet.
#[verifier::external_body]
pub(crate) fn tar_builder_new() -> (r: TarBuilder)
    ensures
        tar_builder_entries(r) == Seq::<(Seq<u8>, u32, Seq<u8>)>::empty(),
{
    TarBuilder { inner: tar::Builder::new(Vec::new()) }
}

/// Relies on tar::Builder::append_data and tar::Header: writes one regular
/// file entry with the given path, mode and contents. On success the
/// builder holds exactly the previous entries plus this one.
#[verifier::external_body]
pub(crate) fn tar_append(b: &mut TarBuilder, path: &Vec<u8>, mode: u32, data: &Vec<u8>) -> (r:
    bool)
    ensures
        r ==> tar_builder_entries(*final(b)) == tar_builder_entries(*old(b)).push(
            (path@, mode, data@),
        ),
{
    let name = match std::str::from_utf8(path.as_slice()) {
        Ok(s) => s,
        Err(_) => return false,
    };
    let mut header = tar::Header::new_gnu();
    header.set_size(data.len() as u64);
    header.set_mode(mode);
    b.inner.append_data(&mut header, name, data.as_slice()).is_ok()
}

/// Relies on tar::Builder::into_inner: finishes the archive and hands the
/// bytes back. Finishing only writes the two terminating zero blocks, and
/// writing into a `Vec` cannot fail, so the bytes are always returned and
/// serialize exactly the entries the builder holds.
#[verifier::external_body]
pub(crate) fn tar_finish(b: TarBuilder) -> (r: Blob)
    ensures
        r@ == tar_bytes_of(tar_builder_entries(b)),
{
    Blob::new(b.inner.into_inner().unwrap())
}

/// Relies on tar::Archive::entries: lists each entry's path bytes,
/// contents, and whether it is a regular file; `None` when the archive or
/// one of its entries does not parse.
#[verifier::external_body]
pub(crate) fn tar_list(data: &Blob) -> (r: Option<Vec<(Vec<u8>, Vec<u8>, bool)>>)
    ensures
        r is Some <==> tar_entries_of(data@) is Some,
        r is Some ==> r->0@.map_values(|e: (Vec<u8>, Vec<u8>, bool)| (e.0@, e.1@, e.2))
            == tar_entries_of(data@)->0,
{
    let mut archive = tar::Archive::new(data.as_slice());
    let mut out: Vec<(Vec<u8>, Vec<u8>, bool)> = Vec::new();
    for entry in archive.entries().ok()? {
        let mut e = entry.ok()?;
        let regular = e.header().entry_type() == tar::EntryType::Regular;
        let path = e.path().ok()?.to_string_lossy().into_owned().into_bytes();
        let mut buf = Vec::new();
        std::io::Read::read_to_end(&mut e, &mut buf).ok()?;
        out.push((path, buf, regular));
    }
    Some(out)
}

} // verus!

use crate::blob::Blob;
use crate::compression::{
    brotli_of, compress_brotli, compress_gzip, decompress_brotli, decompress_gzip, gunzip_of,
    gzip_of, unbrotli_of, Compression,
};
use crate::tar_archive::tar_list;
use vstd::prelude::*;

verus! {

/// One file of a tar archive, with up to three precompressed variants of
/// its contents: plain, gzip, brotli.
#[derive(Debug)]
pub struct FileEntry {
    pub mime: String,
    pub un: Option<Blob>,
    pub gz: Option<Blob>,
    pub br: Option<Blob>,
}

impl FileEntry {
    /// A fresh entry with no contents yet.
    pub fn new(mime: String) -> (r: FileEntry)
        ensures
            r.mime@ == mime@,
            r.un is None && r.gz is None && r.br is None,
    {
        FileEntry { mime, un: None, gz: None, br: None }
    }
}

/// The ghost shape of one file entry.
pub struct TarEntryModel {
    pub mime: Seq<char>,
    pub un: Option<Seq<u8>>,
    pub gz: Option<Seq<u8>>,
    pub br: Option<Seq<u8>>,
}

/// The ghost shape of an exec entry.
pub open spec fn spec_entry_model(e: FileEntry) -> TarEntryModel {
    TarEntryModel {
        mime: e.mime@,
        un: match e.un {
            Some(b) => Some(b@),
            None => None,
        },
        gz: match e.gz {
            Some(b) => Some(b@),
            None => None,
        },
        br: match e.br {
            Some(b) => Some(b@),
            None => None,
        },
    }
}

/// The map a lookup list denotes; a later pair for the same name wins.
pub open spec fn spec_assoc_map(s: Seq<(Vec<u8>, FileEntry)>) -> Map<Seq<u8>, TarEntryModel>
    decreases s.len(),
{
    if s.len() == 0 {
        Map::empty()
    } else {
        spec_assoc_map(s.drop_last()).insert(s.last().0@, spec_entry_model(s.last().1))
    }
}

/// The compression a tar path declares by its suffix: `.br` or `.gz`.
pub open spec fn spec_path_compression(path: Seq<u8>) -> Compression {
    if path.len() >= 3 && path[path.len() - 3] == 0x2e && path[path.len() - 2] == 0x62 && path[
        path.len() - 1
    ] == 0x72 {
        Compression::Brotli
    } else if path.len() >= 3 && path[path.len() - 3] == 0x2e && path[path.len() - 2] == 0x67
        && path[path.len() - 1] == 0x7a {
        Compression::Gzip
    } else {
        Compression::Uncompressed
    }
}

/// The path with its compression suffix removed.
pub open spec fn spec_strip_compression(path: Seq<u8>) -> Seq<u8> {
    if spec_path_compression(path) == Compression::Uncompressed {
        path
    } else {
        path.subrange(0, path.len() - 3)
    }
}

/// The position after the last slash: the file name starts there.
pub open spec fn spec_basename_start(path: Seq<u8>) -> int
    decreases path.len(),
{
    if path.len() == 0 {
        0
    } else if path.last() == 0x2f {
        path.len() as int
    } else {
        spec_basename_start(path.drop_last())
    }
}

/// A name with leading dots and slashes removed.
pub open spec fn spec_normalize(name: Seq<u8>) -> Seq<u8>
    decreases name.len(),
{
    if name.len() > 0 && (name[0] == 0x2e || name[0] == 0x2f) {
        spec_normalize(name.skip(1))
    } else {
        name
    }
}

/// The bytes of the special file name `index.html`.
pub open spec fn spec_index_html() -> Seq<u8> {
    seq![0x69u8, 0x6e, 0x64, 0x65, 0x78, 0x2e, 0x68, 0x74, 0x6d, 0x6c]
}

/// What one archive entry contributes to the lookup: under `name`, with
/// `mime`, into the slot of `comp`. A name seen before keeps its first
/// mime.
pub open spec fn spec_add_file(
    m: Map<Seq<u8>, TarEntryModel>,
    name: Seq<u8>,
    mime: Seq<char>,
    comp: Compression,
    blob: Seq<u8>,
) -> Map<Seq<u8>, TarEntryModel> {
    let cur = if m.contains_key(name) {
        m[name]
    } else {
        TarEntryModel { mime, un: None, gz: None, br: None }
    };
    let upd = match comp {
        Compression::Uncompressed => TarEntryModel { un: Some(blob), ..cur },
        Compression::Gzip => TarEntryModel { gz: Some(blob), ..cur },
        Compression::Brotli => TarEntryModel { br: Some(blob), ..cur },
    };
    m.insert(name, upd)
}

/// What one listed archive entry does to the lookup: nothing for
/// non-regular entries; a regular file is stored under its normalized
/// name, in the slot of its suffix compression, and an `index.html` is
/// also served under its directory's name.
pub open spec fn spec_process_entry(
    m: Map<Seq<u8>, TarEntryModel>,
    entry: (Seq<u8>, Seq<u8>, bool),
) -> Map<Seq<u8>, TarEntryModel> {
    if !entry.2 {
        m
    } else {
        let comp = spec_path_compression(entry.0);
        let stripped = spec_strip_compression(entry.0);
        let base = spec_basename_start(stripped);
        let filename = stripped.skip(base);
        let mime = spec_guess_mime(filename);
        let name = spec_normalize(stripped);
        let m1 = spec_add_file(m, name, mime, comp, entry.1);
        if filename == spec_index_html() {
            let dir = if base > 0 {
                stripped.subrange(0, base - 1)
            } else {
                Seq::<u8>::empty()
            };
            spec_add_file(m1, spec_normalize(dir), mime, comp, entry.1)
        } else {
            m1
        }
    }
}

/// The lookup an archive's entry list builds, in order.
pub open spec fn spec_build_lookup(entries: Seq<(Seq<u8>, Seq<u8>, bool)>) -> Map<
    Seq<u8>,
    TarEntryModel,
>
    decreases entries.len(),
{
    if entries.len() == 0 {
        Map::empty()
    } else {
        spec_process_entry(spec_build_lookup(entries.drop_last()), entries.last())
    }
}

/// The plain shape of a listed entry vector.
pub open spec fn spec_entry_views(entries: Seq<(Vec<u8>, Vec<u8>, bool)>) -> Seq<
    (Seq<u8>, Seq<u8>, bool),
> {
    entries.map_values(|e: (Vec<u8>, Vec<u8>, bool)| (e.0@, e.1@, e.2))
}

/// What a negotiation decides: the served bytes, their encoding, and the
/// mime type, for one looked-up name and the accepted encodings; `None`
/// when the name is absent, no variant can be produced, or a stored
/// variant does not decompress.
pub open spec fn spec_get_data(
    m: Map<Seq<u8>, TarEntryModel>,
    key: Seq<u8>,
    accept_gzip: bool,
    accept_brotli: bool,
) -> Option<(Seq<u8>, Compression, Seq<char>)> {
    if !m.contains_key(key) {
        None
    } else {
        let e = m[key];
        if accept_brotli && e.br is Some {
            Some((e.br->0, Compression::Brotli, e.mime))
        } else if accept_brotli && e.un is Some {
            Some((brotli_of(e.un->0), Compression::Brotli, e.mime))
        } else if accept_brotli && e.gz is Some {
            match gunzip_of(e.gz->0) {
                Some(u) => Some((brotli_of(u), Compression::Brotli, e.mime)),
                None => None,
            }
        } else if accept_gzip && e.gz is Some {
            Some((e.gz->0, Compression::Gzip, e.mime))
        } else if accept_gzip && e.un is Some {
            Some((gzip_of(e.un->0), Compression::Gzip, e.mime))
        } else if accept_gzip && e.br is Some {
            match unbrotli_of(e.br->0) {
                Some(u) => Some((gzip_of(u), Compression::Gzip, e.mime)),
                None => None,
            }
        } else if e.un is Some {
            Some((e.un->0, Compression::Uncompressed, e.mime))
        } else if e.br is Some {
            match unbrotli_of(e.br->0) {
                Some(u) => Some((u, Compression::Uncompressed, e.mime)),
                None => None,
            }
        } else if e.gz is Some {
            match gunzip_of(e.gz->0) {
                Some(u) => Some((u, Compression::Uncompressed, e.mime)),
                None => None,
            }
        } else {
            None
        }
    }
}

/// One served answer: the bytes, the encoding they carry, and their mime
/// type.
#[derive(Debug)]
pub struct SourceResponse {
    pub blob: Blob,
    pub compression: Compression,
    pub mime: String,
}

/// A static source that serves the files of a tar archive, each in the
/// compressions the archive carries, with precomputed lookups.
#[derive(Debug)]
pub struct TarFile {
    pub name: String,
    pub lookup: Vec<(Vec<u8>, FileEntry)>,
}

impl View for TarFile {
    type V = Map<Seq<u8>, TarEntryModel>;

    closed spec fn view(&self) -> Map<Seq<u8>, TarEntryModel> {
        spec_assoc_map(self.lookup@)
    }
}

/// In a lookup list, the last pair for a name decides what the map holds.
proof fn lemma_assoc_map_lookup(s: Seq<(Vec<u8>, FileEntry)>, i: int)
    requires
        0 <= i < s.len(),
        forall|j: int| i < j < s.len() ==> (#[trigger] s[j]).0@ != s[i].0@,
    ensures
        spec_assoc_map(s).contains_key(s[i].0@),
        spec_assoc_map(s)[s[i].0@] == spec_entry_model(s[i].1),
    decreases s.len(),
{
    if i == s.len() - 1 {
    } else {
        assert(s.drop_last()[i] == s[i]);
        assert forall|j: int| i < j < s.drop_last().len() implies (#[trigger] s.drop_last()[j]).0@
            != s.drop_last()[i].0@ by {
            assert(s.drop_last()[j] == s[j]);
        }
        lemma_assoc_map_lookup(s.drop_last(), i);
        assert(s.last() == s[s.len() - 1]);
    }
}

/// A name no pair carries is absent from the map.
proof fn lemma_assoc_map_absent(s: Seq<(Vec<u8>, FileEntry)>, key: Seq<u8>)
    requires
        forall|j: int| 0 <= j < s.len() ==> (#[trigger] s[j]).0@ != key,
    ensures
        !spec_assoc_map(s).contains_key(key),
    decreases s.len(),
{
    if s.len() > 0 {
        assert forall|j: int| 0 <= j < s.drop_last().len() implies (#[trigger] s.drop_last()[j]).0@
            != key by {
            assert(s.drop_last()[j] == s[j]);
        }
        lemma_assoc_map_absent(s.drop_last(), key);
        assert(s.last() == s[s.len() - 1]);
    }
}

/// Clones an optional blob.
fn clone_opt_blob(o: &Option<Blob>) -> (r: Option<Blob>)
    ensures
        r is Some <==> o is Some,
        r is Some ==> r->0@ == o->0@,
{
    match o {
        Some(b) => Some(b.clone()),
        None => None,
    }
}

/// Finds the last pair of `lookup` whose name is `key`.
fn find_entry(lookup: &Vec<(Vec<u8>, FileEntry)>, key: &Vec<u8>) -> (r: Option<usize>)
    ensures
        match r {
            Some(i) => i < lookup@.len() && lookup@[i as int].0@ == key@ && forall|j: int|
                i < j < lookup@.len() ==> (#[trigger] lookup@[j]).0@ != key@,
            None => forall|j: int| 0 <= j < lookup@.len() ==> (#[trigger] lookup@[j]).0@ != key@,
        },
{
    let mut found: Option<usize> = None;
    let mut i: usize = 0;
    while i < lookup.len()
        invariant
            i <= lookup@.len(),
            match found {
                Some(f) => f < i && lookup@[f as int].0@ == key@ && forall|j: int|
                    f < j < i ==> (#[trigger] lookup@[j]).0@ != key@,
                None => forall|j: int| 0 <= j < i ==> (#[trigger] lookup@[j]).0@ != key@,
            },
        decreases lookup@.len() - i,
    {
        if crate::byteops::bytes_equal(&lookup[i].0, key) {
            found = Some(i);
        }
        i = i + 1;
    }
    found
}

/// Adds one variant of one file to the lookup.
fn add_file(
    lookup: &mut Vec<(Vec<u8>, FileEntry)>,
    name: Vec<u8>,
    mime: &'static str,
    comp: Compression,
    blob: Blob,
)
    ensures
        spec_assoc_map(final(lookup)@) == spec_add_file(
            spec_assoc_map(old(lookup)@),
            name@,
            mime@,
            comp,
            blob@,
        ),
{
    let cur: FileEntry = match find_entry(lookup, &name) {
        Some(i) => {
            proof {
                lemma_assoc_map_lookup(lookup@, i as int);
            }
            let e = &lookup[i].1;
            FileEntry {
                mime: e.mime.clone(),
                un: clone_opt_blob(&e.un),
                gz: clone_opt_blob(&e.gz),
                br: clone_opt_blob(&e.br),
            }
        },
        None => {
            proof {
                lemma_assoc_map_absent(lookup@, name@);
            }
            FileEntry::new(mime.to_owned())
        },
    };
    let upd = match comp {
        Compression::Uncompressed => FileEntry { un: Some(blob), ..cur },
        Compression::Gzip => FileEntry { gz: Some(blob), ..cur },
        Compression::Brotli => FileEntry { br: Some(blob), ..cur },
    };
    let ghost before = lookup@;
    lookup.push((name, upd));
    proof {
        assert(lookup@.drop_last() =~= before);
        assert(lookup@.last() == (lookup@[lookup@.len() - 1]));
    }
}

/// Skips the leading dots and slashes of a name.
fn normalize(name: &Vec<u8>) -> (r: Vec<u8>)
    ensures
        r@ == spec_normalize(name@),
{
    let n = name.len();
    proof {
        assert(name@.skip(0) =~= name@);
    }
    let mut start: usize = 0;
    while start < n && (name[start] == 0x2e || name[start] == 0x2f)
        invariant
            start <= n,
            n == name@.len(),
            spec_normalize(name@) == spec_normalize(name@.skip(start as int)),
        decreases n - start,
    {
        proof {
            assert(name@.skip(start as int)[0] == name@[start as int]);
            assert(name@.skip(start as int).skip(1) =~= name@.skip(start as int + 1));
        }
        start = start + 1;
    }
    proof {
        if start < n {
            assert(name@.skip(start as int)[0] == name@[start as int]);
        }
        assert(spec_normalize(name@.skip(start as int)) == name@.skip(start as int));
    }
    let out = crate::byteops::copy_range(name, start, n - start);
    proof {
        assert(out@ =~= name@.skip(start as int));
    }
    out
}

/// Finds where the file name of a path begins.
fn basename_start(path: &Vec<u8>) -> (r: usize)
    ensures
        r == spec_basename_start(path@),
        r <= path@.len(),
{
    let n = path.len();
    let mut pos: usize = 0;
    let mut i: usize = 0;
    while i < n
        invariant
            i <= n,
            n == path@.len(),
            pos <= i,
            pos == spec_basename_start(path@.take(i as int)),
        decreases n - i,
    {
        proof {
            assert(path@.take(i + 1).drop_last() =~= path@.take(i as int));
            assert(path@.take(i + 1).last() == path@[i as int]);
        }
        if path[i] == 0x2f {
            pos = i + 1;
        }
        i = i + 1;
    }
    proof {
        assert(path@.take(n as int) =~= path@);
    }
    pos
}

/// The position after the last dot; `-1` when the name has no dot.
pub open spec fn spec_last_dot(name: Seq<u8>) -> int
    decreases name.len(),
{
    if name.len() == 0 {
        -1
    } else if name.last() == 0x2e {
        name.len() - 1
    } else {
        spec_last_dot(name.drop_last())
    }
}

/// The mime type of a file-name extension.
pub open spec fn spec_mime_of_ext(ext: Seq<u8>) -> Seq<char> {
    if ext.len() == 4 && ext[0] == 0x68 && ext[1] == 0x74 && ext[2] == 0x6d && ext[3] == 0x6c {
        "text/html"@
    } else if ext.len() == 3 && ext[0] == 0x63 && ext[1] == 0x73 && ext[2] == 0x73 {
        "text/css"@
    } else if ext.len() == 2 && ext[0] == 0x6a && ext[1] == 0x73 {
        "text/javascript"@
    } else if ext.len() == 4 && ext[0] == 0x6a && ext[1] == 0x73 && ext[2] == 0x6f && ext[3] == 0x6e {
        "application/json"@
    } else if ext.len() == 7 && ext[0] == 0x67 && ext[1] == 0x65 && ext[2] == 0x6f && ext[3] == 0x6a && ext[4] == 0x73 && ext[5] == 0x6f && ext[6] == 0x6e {
        "application/json"@
    } else if ext.len() == 8 && ext[0] == 0x74 && ext[1] == 0x6f && ext[2] == 0x70 && ext[3] == 0x6f && ext[4] == 0x6a && ext[5] == 0x73 && ext[6] == 0x6f && ext[7] == 0x6e {
        "application/json"@
    } else if ext.len() == 3 && ext[0] == 0x70 && ext[1] == 0x6e && ext[2] == 0x67 {
        "image/png"@
    } else if ext.len() == 3 && ext[0] == 0x6a && ext[1] == 0x70 && ext[2] == 0x67 {
        "image/jpeg"@
    } else if ext.len() == 4 && ext[0] == 0x6a && ext[1] == 0x70 && ext[2] == 0x65 && ext[3] == 0x67 {
        "image/jpeg"@
    } else if ext.len() == 4 && ext[0] == 0x77 && ext[1] == 0x65 && ext[2] == 0x62 && ext[3] == 0x70 {
        "image/webp"@
    } else if ext.len() == 4 && ext[0] == 0x61 && ext[1] == 0x76 && ext[2] == 0x69 && ext[3] == 0x66 {
        "image/avif"@
    } else if ext.len() == 3 && ext[0] == 0x73 && ext[1] == 0x76 && ext[2] == 0x67 {
        "image/svg+xml"@
    } else if ext.len() == 3 && ext[0] == 0x70 && ext[1] == 0x62 && ext[2] == 0x66 {
        "application/x-protobuf"@
    } else {
        "application/octet-stream"@
    }
}

/// The guessed mime type of a file name: the mime of its extension, or
/// the generic byte-stream type when it has none.
pub open spec fn spec_guess_mime(filename: Seq<u8>) -> Seq<char> {
    if spec_last_dot(filename) < 0 {
        "application/octet-stream"@
    } else {
        spec_mime_of_ext(filename.skip(spec_last_dot(filename) + 1))
    }
}

/// The mime of an extension, executable.
fn mime_of_ext(ext: &Vec<u8>) -> (r: &'static str)
    ensures
        r@ == spec_mime_of_ext(ext@),
{
    let n = ext.len();
    if n == 4 && ext[0] == 0x68 && ext[1] == 0x74 && ext[2] == 0x6d && ext[3] == 0x6c {
        "text/html"
    } else if n == 3 && ext[0] == 0x63 && ext[1] == 0x73 && ext[2] == 0x73 {
        "text/css"
    } else if n == 2 && ext[0] == 0x6a && ext[1] == 0x73 {
        "text/javascript"
    } else if n == 4 && ext[0] == 0x6a && ext[1] == 0x73 && ext[2] == 0x6f && ext[3] == 0x6e {
        "application/json"
    } else if n == 7 && ext[0] == 0x67 && ext[1] == 0x65 && ext[2] == 0x6f && ext[3] == 0x6a && ext[4] == 0x73 && ext[5] == 0x6f && ext[6] == 0x6e {
        "application/json"
    } else if n == 8 && ext[0] == 0x74 && ext[1] == 0x6f && ext[2] == 0x70 && ext[3] == 0x6f && ext[4] == 0x6a && ext[5] == 0x73 && ext[6] == 0x6f && ext[7] == 0x6e {
        "application/json"
    } else if n == 3 && ext[0] == 0x70 && ext[1] == 0x6e && ext[2] == 0x67 {
        "image/png"
    } else if n == 3 && ext[0] == 0x6a && ext[1] == 0x70 && ext[2] == 0x67 {
        "image/jpeg"
    } else if n == 4 && ext[0] == 0x6a && ext[1] == 0x70 && ext[2] == 0x65 && ext[3] == 0x67 {
        "image/jpeg"
    } else if n == 4 && ext[0] == 0x77 && ext[1] == 0x65 && ext[2] == 0x62 && ext[3] == 0x70 {
        "image/webp"
    } else if n == 4 && ext[0] == 0x61 && ext[1] == 0x76 && ext[2] == 0x69 && ext[3] == 0x66 {
        "image/avif"
    } else if n == 3 && ext[0] == 0x73 && ext[1] == 0x76 && ext[2] == 0x67 {
        "image/svg+xml"
    } else if n == 3 && ext[0] == 0x70 && ext[1] == 0x62 && ext[2] == 0x66 {
        "application/x-protobuf"
    } else {
        "application/octet-stream"
    }
}

/// Finds the position after the last dot.
fn find_last_dot(name: &Vec<u8>) -> (r: Option<usize>)
    ensures
        match r {
            Some(d) => d == spec_last_dot(name@) && d < name@.len(),
            None => spec_last_dot(name@) < 0,
        },
{
    let n = name.len();
    let mut dot: Option<usize> = None;
    let mut i: usize = 0;
    while i < n
        invariant
            i <= n,
            n == name@.len(),
            match dot {
                Some(d) => d == spec_last_dot(name@.take(i as int)) && d < i,
                None => spec_last_dot(name@.take(i as int)) < 0,
            },
        decreases n - i,
    {
        proof {
            assert(name@.take(i + 1).drop_last() =~= name@.take(i as int));
            assert(name@.take(i + 1).last() == name@[i as int]);
        }
        if name[i] == 0x2e {
            dot = Some(i);
        }
        i = i + 1;
    }
    proof {
        assert(name@.take(n as int) =~= name@);
    }
    dot
}

/// The guessed mime type, executable.
pub fn guess_mime(filename: &Vec<u8>) -> (r: &'static str)
    ensures
        r@ == spec_guess_mime(filename@),
{
    match find_last_dot(filename) {
        None => "application/octet-stream",
        Some(d) => {
            let n = filename.len();
            let ext = crate::byteops::copy_range(filename, d + 1, n - d - 1);
            proof {
                assert(ext@ =~= filename@.skip(spec_last_dot(filename@) + 1));
            }
            mime_of_ext(&ext)
        },
    }
}


impl TarFile {
    /// Builds the lookup from an archive's entry list: regular files only,
    /// compression variants folded into one entry per name, `index.html`
    /// also served under its directory.
    #[verifier::loop_isolation(false)]
    #[verifier::rlimit(100)]
    #[verifier::spinoff_prover]
    pub fn from_entries(name: String, entries: &Vec<(Vec<u8>, Vec<u8>, bool)>) -> (r: TarFile)
        ensures
            r.name@ == name@,
            r@ == spec_build_lookup(spec_entry_views(entries@)),
    {
        let mut lookup: Vec<(Vec<u8>, FileEntry)> = Vec::new();
        let mut i: usize = 0;
        while i < entries.len()
            invariant
                i <= entries@.len(),
                spec_assoc_map(lookup@) == spec_build_lookup(spec_entry_views(entries@).take(i as int)),
            decreases entries@.len() - i,
        {
            proof {
                let views = spec_entry_views(entries@);
                assert(views.take(i + 1).drop_last() =~= views.take(i as int));
                assert(views.take(i + 1).last() == views[i as int]);
                assert(views[i as int] == (entries@[i as int].0@, entries@[i as int].1@, entries@[i as int].2));
            }
            let regular = entries[i].2;
            if regular {
                let path = &entries[i].0;
                let n = path.len();
                let comp = if n >= 3 && path[n - 3] == 0x2e && path[n - 2] == 0x62 && path[n - 1]
                    == 0x72 {
                    Compression::Brotli
                } else if n >= 3 && path[n - 3] == 0x2e && path[n - 2] == 0x67 && path[n - 1]
                    == 0x7a {
                    Compression::Gzip
                } else {
                    Compression::Uncompressed
                };
                let stripped = match comp {
                    Compression::Uncompressed => crate::byteops::clone_bytes(path),
                    _ => crate::byteops::copy_range(path, 0, n - 3),
                };
                proof {
                    assert(comp == spec_path_compression(path@));
                    assert(stripped@ =~= spec_strip_compression(path@));
                }
                let base = basename_start(&stripped);
                let sn = stripped.len();
                let filename = crate::byteops::copy_range(&stripped, base, sn - base);
                proof {
                    assert(filename@ =~= stripped@.skip(base as int));
                }
                let mime = guess_mime(&filename);
                let norm = normalize(&stripped);
                let data = Blob::new(crate::byteops::clone_bytes(&entries[i].1));
                add_file(&mut lookup, norm, mime, comp, data);
                let is_index = filename.len() == 10 && filename[0] == 0x69 && filename[1]
                    == 0x6e && filename[2] == 0x64 && filename[3] == 0x65 && filename[4] == 0x78
                    && filename[5] == 0x2e && filename[6] == 0x68 && filename[7] == 0x74
                    && filename[8] == 0x6d && filename[9] == 0x6c;
                proof {
                    if is_index {
                        assert(filename@ =~= spec_index_html());
                    } else {
                        assert(filename@ != spec_index_html());
                    }
                }
                if is_index {
                    let dir = if base > 0 {
                        crate::byteops::copy_range(&stripped, 0, base - 1)
                    } else {
                        Vec::new()
                    };
                    proof {
                        if base > 0 {
                            assert(dir@ =~= stripped@.subrange(0, base - 1));
                        } else {
                            assert(dir@ =~= Seq::<u8>::empty());
                        }
                    }
                    let dir_norm = normalize(&dir);
                    let data2 = Blob::new(crate::byteops::clone_bytes(&entries[i].1));
                    add_file(&mut lookup, dir_norm, mime, comp, data2);
                }
            }
            i = i + 1;
        }
        proof {
            let views = spec_entry_views(entries@);
            assert(views.take(views.len() as int) =~= views);
        }
        TarFile { name, lookup }
    }

    /// Builds the lookup from the bytes of a tar archive: exactly the
    /// lookup of the archive's listed entries; `None` exactly when the
    /// bytes are not a readable tar archive.
    pub fn from_blob(name: String, data: &Blob) -> (r: Option<TarFile>)
        ensures
            r is Some <==> crate::tar_archive::tar_entries_of(data@) is Some,
            r is Some ==> r->0.name@ == name@ && r->0@ == spec_build_lookup(
                crate::tar_archive::tar_entries_of(data@)->0,
            ),
    {
        match tar_list(data) {
            Some(entries) => {
                proof {
                    assert(spec_entry_views(entries@) == crate::tar_archive::tar_entries_of(
                        data@,
                    )->0);
                }
                Some(TarFile::from_entries(name, &entries))
            },
            None => None,
        }
    }

    /// The name this source was opened under.
    pub fn get_name(&self) -> (r: String)
        ensures
            r@ == self.name@,
    {
        self.name.clone()
    }

    /// A fixed description of the source kind.
    pub fn get_info_as_json(&self) -> (r: String)
        ensures
            r@ == "{\"type\":\"tar\"}"@,
    {
        "{\"type\":\"tar\"}".to_owned()
    }

    /// Serves one path: joins the segments, looks the name up, and picks
    /// the best variant for the accepted encodings, converting between
    /// compressions where needed.
    pub fn get_data(&self, path: &Vec<Vec<u8>>, accept_gzip: bool, accept_brotli: bool) -> (r:
        Option<SourceResponse>)
        ensures
            match spec_get_data(self@, spec_join_path(path@), accept_gzip, accept_brotli) {
                Some(t) => r is Some && r->0.blob@ == t.0 && r->0.compression == t.1
                    && r->0.mime@ == t.2,
                None => r is None,
            },
    {
        let key = join_path(path);
        let i = match find_entry(&self.lookup, &key) {
            Some(i) => {
                proof {
                    lemma_assoc_map_lookup(self.lookup@, i as int);
                }
                i
            },
            None => {
                proof {
                    lemma_assoc_map_absent(self.lookup@, key@);
                }
                return None;
            },
        };
        let e = &self.lookup[i].1;
        if accept_brotli {
            if let Some(b) = &e.br {
                return Some(
                    SourceResponse {
                        blob: b.clone(),
                        compression: Compression::Brotli,
                        mime: e.mime.clone(),
                    },
                );
            }
            if let Some(b) = &e.un {
                return Some(
                    SourceResponse {
                        blob: compress_brotli(b),
                        compression: Compression::Brotli,
                        mime: e.mime.clone(),
                    },
                );
            }
            if let Some(b) = &e.gz {
                return match decompress_gzip(b) {
                    Some(u) => Some(
                        SourceResponse {
                            blob: compress_brotli(&u),
                            compression: Compression::Brotli,
                            mime: e.mime.clone(),
                        },
                    ),
                    None => None,
                };
            }
        }
        if accept_gzip {
            if let Some(b) = &e.gz {
                return Some(
                    SourceResponse {
                        blob: b.clone(),
                        compression: Compression::Gzip,
                        mime: e.mime.clone(),
                    },
                );
            }
            if let Some(b) = &e.un {
                return Some(
                    SourceResponse {
                        blob: compress_gzip(b),
                        compression: Compression::Gzip,
                        mime: e.mime.clone(),
                    },
                );
            }
            if let Some(b) = &e.br {
                return match decompress_brotli(b) {
                    Some(u) => Some(
                        SourceResponse {
                            blob: compress_gzip(&u),
                            compression: Compression::Gzip,
                            mime: e.mime.clone(),
                        },
                    ),
                    None => None,
                };
            }
        }
        if let Some(b) = &e.un {
            return Some(
                SourceResponse {
                    blob: b.clone(),
                    compression: Compression::Uncompressed,
                    mime: e.mime.clone(),
                },
            );
        }
        if let Some(b) = &e.br {
            return match decompress_brotli(b) {
                Some(u) => Some(
                    SourceResponse {
                        blob: u,
                        compression: Compression::Uncompressed,
                        mime: e.mime.clone(),
                    },
                ),
                None => None,
            };
        }
        if let Some(b) = &e.gz {
            return match decompress_gzip(b) {
                Some(u) => Some(
                    SourceResponse {
                        blob: u,
                        compression: Compression::Uncompressed,
                        mime: e.mime.clone(),
                    },
                ),
                None => None,
            };
        }
        None
    }
}

/// Path segments joined with slashes.
pub open spec fn spec_join_path(segments: Seq<Vec<u8>>) -> Seq<u8>
    decreases segments.len(),
{
    if segments.len() == 0 {
        Seq::<u8>::empty()
    } else if segments.len() == 1 {
        segments[0]@
    } else {
        spec_join_path(segments.drop_last()) + seq![0x2fu8] + segments.last()@
    }
}

/// Joins path segments with slashes, executable.
pub fn join_path(segments: &Vec<Vec<u8>>) -> (r: Vec<u8>)
    ensures
        r@ == spec_join_path(segments@),
{
    let mut r: Vec<u8> = Vec::new();
    let mut i: usize = 0;
    while i < segments.len()
        invariant
            i <= segments@.len(),
            r@ == spec_join_path(segments@.take(i as int)),
        decreases segments@.len() - i,
    {
        proof {
            assert(segments@.take(i + 1).drop_last() =~= segments@.take(i as int));
            assert(segments@.take(i + 1).last() == segments@[i as int]);
        }
        if i > 0 {
            r.push(0x2f);
        }
        let seg = &segments[i];
        let mut j: usize = 0;
        let ghost mid = r@;
        while j < seg.len()
            invariant
                j <= seg@.len(),
                r@ =~= mid + seg@.take(j as int),
            decreases seg@.len() - j,
        {
            r.push(seg[j]);
            j = j + 1;
            proof {
                assert(r@ =~= mid + seg@.take(j as int));
            }
        }
        proof {
            assert(seg@.take(seg@.len() as int) =~= seg@);
            assert(r@ =~= spec_join_path(segments@.take(i + 1)));
        }
        i = i + 1;
    }
    proof {
        assert(segments@.take(segments@.len() as int) =~= segments@);
    }
    r
}

} // verus!

use vstd::prelude::*;

use crate::errors::ServerError;
use crate::kvlist::kv_view;
use crate::kvlist::map_put;
use crate::kvlist::spec_put;
use crate::textutil::first_index_of;
use crate::textutil::lemma_first_index_of_props;
use crate::textutil::str_ends_with;
use crate::textutil::str_find_char;
use crate::textutil::str_substring;
use crate::textutil::str_to_string;
use std::io::Read;
use vstd::string::StrSliceExecFns;
use vstd::string::StringExecFns;

verus! {

/// How an archive's bytes are wrapped: a bare tar stream, or the usual
/// gzip-compressed tar.
#[derive(PartialEq, Eq, Structural, Debug)]
pub enum TarballType {
    Tar,
    TarGzip,
}

impl TarballType {
    /// The customary file label for the wrapping.
    pub fn label(&self) -> (r: String)
        ensures
            *self is Tar ==> r@ == "tar"@,
            *self is TarGzip ==> r@ == "tgz"@,
    {
        match self {
            TarballType::Tar => String::from_str("tar"),
            TarballType::TarGzip => String::from_str("tgz"),
        }
    }
}

/// One entry of a tar archive: its path, its bytes, and whether it is a
/// regular file.
pub struct ArchiveEntry {
    pub path: String,
    pub data: Vec<u8>,
    pub file: bool,
}

impl View for ArchiveEntry {
    type V = (Seq<char>, Seq<u8>, bool);

    open spec fn view(&self) -> (Seq<char>, Seq<u8>, bool) {
        (self.path@, self.data@, self.file)
    }
}

/// The reading of an entry list.
pub open spec fn entries_view(es: Seq<ArchiveEntry>) -> Seq<(Seq<char>, Seq<u8>, bool)> {
    es.map_values(|e: ArchiveEntry| e@)
}

/// What inflating a gzip stream yields, when the stream is well-formed.
pub uninterp spec fn gunzip_of(b: Seq<u8>) -> Option<Seq<u8>>;

/// What reading bytes as a tar archive yields: the entries in archive
/// order, when the bytes are a readable archive.
pub uninterp spec fn tar_listing(b: Seq<u8>) -> Option<Seq<(Seq<char>, Seq<u8>, bool)>>;

/// Relies on flate2::read::GzDecoder: inflating is a function of the bytes
/// alone; a stream that is not valid gzip fails.
#[verifier::external_body]
pub fn gunzip(bytes: &Vec<u8>) -> (r: Option<Vec<u8>>)
    ensures
        r is Some <==> gunzip_of(bytes@) is Some,
        r matches Some(o) ==> gunzip_of(bytes@) == Some(o@),
{
    let mut out: Vec<u8> = Vec::new();
    let mut decoder = flate2::read::GzDecoder::new(&bytes[..]);
    match decoder.read_to_end(&mut out) {
        Ok(_) => Some(out),
        Err(_) => None,
    }
}

/// Relies on tar::Archive (entries, Header::path, Header::entry_type,
/// EntryType::is_file and reading each entry): the listing is a function of
/// the archive bytes alone; unreadable bytes fail. A path that is not valid
/// UTF-8 reads as `package/unknown`.
#[verifier::external_body]
pub fn tar_entries(bytes: &Vec<u8>) -> (r: Option<Vec<ArchiveEntry>>)
    ensures
        r is Some <==> tar_listing(bytes@) is Some,
        r matches Some(es) ==> tar_listing(bytes@) == Some(entries_view(es@)),
{
    let mut archive = tar::Archive::new(&bytes[..]);
    let mut out: Vec<ArchiveEntry> = Vec::new();
    for maybe_entry in archive.entries().ok()? {
        let mut entry = maybe_entry.ok()?;
        let file = entry.header().entry_type().is_file();
        let raw_path = entry.header().path().ok()?;
        let path = String::from(raw_path.to_str().unwrap_or("package/unknown"));
        let mut data: Vec<u8> = Vec::new();
        entry.read_to_end(&mut data).ok()?;
        out.push(ArchiveEntry { path, data, file });
    }
    Some(out)
}

/// A path with its leading segment removed: everything from the first `/`
/// on, the slash included. A path without `/` is wholly the leading
/// segment, leaving the empty relative path.
pub open spec fn strip_leading_segment(p: Seq<char>) -> Seq<char> {
    let i = first_index_of(p, '/');
    if i < 0 {
        Seq::empty()
    } else {
        p.skip(i)
    }
}

/// Strip a path's leading segment.
pub fn strip_leading(path: &str) -> (r: String)
    ensures
        r@ == strip_leading_segment(path@),
{
    proof {
        lemma_first_index_of_props(path@, '/');
    }
    match str_find_char(path, '/') {
        Some(i) => {
            let n = path.unicode_len();
            str_substring(path, i, n)
        },
        None => {
            proof {
                assert(Seq::<char>::empty() =~= strip_leading_segment(path@));
            }
            String::new()
        },
    }
}

/// The in-memory file map an archive listing yields: each regular file
/// under its path with the leading segment stripped, later entries
/// overwriting earlier ones; native-code artifacts (`.node`) are dropped.
pub open spec fn spec_accumulate(es: Seq<(Seq<char>, Seq<u8>, bool)>) -> Seq<(Seq<char>, Seq<u8>)>
    decreases es.len(),
{
    if es.len() == 0 {
        Seq::empty()
    } else {
        let prev = spec_accumulate(es.drop_last());
        let e = es.last();
        if e.2 && !".node"@.is_suffix_of(strip_leading_segment(e.0)) {
            spec_put(prev, strip_leading_segment(e.0), e.1)
        } else {
            prev
        }
    }
}

/// Build the file map from an archive's entries.
pub fn accumulate_files(entries: Vec<ArchiveEntry>) -> (r: Vec<(String, Vec<u8>)>)
    ensures
        kv_view(r@) == spec_accumulate(entries_view(entries@)),
{
    let ghost evs = entries_view(entries@);
    let mut queue = entries;
    let mut out: Vec<(String, Vec<u8>)> = Vec::new();
    let ghost mut done: int = 0;
    proof {
        assert(queue@.map_values(|e: ArchiveEntry| e@) =~= evs.skip(0));
        assert(kv_view(out@) =~= spec_accumulate(evs.take(0)));
    }
    while queue.len() > 0
        invariant
            0 <= done,
            done + queue@.len() == evs.len(),
            entries_view(queue@) == evs.skip(done),
            kv_view(out@) == spec_accumulate(evs.take(done)),
        decreases queue.len(),
    {
        let ghost qv = entries_view(queue@);
        let entry = queue.remove(0);
        proof {
            assert(entries_view(queue@) =~= qv.drop_first());
            assert(qv[0] == entry@);
            assert(evs[done] == entry@);
            assert(evs.take(done + 1).drop_last() =~= evs.take(done));
            assert(evs.take(done + 1).last() == evs[done]);
        }
        if entry.file {
            let rel = strip_leading(entry.path.as_str());
            if !str_ends_with(rel.as_str(), ".node") {
                map_put(&mut out, rel, entry.data);
            }
        }
        proof {
            done = done + 1;
            assert(entries_view(queue@) =~= evs.skip(done));
        }
    }
    proof {
        assert(evs.take(evs.len() as int) =~= evs);
    }
    out
}

/// The file map a tarball's bytes decode to: a URL ending `.tar` is read as
/// a bare tar stream; any other URL is read as gzip-wrapped tar.
pub open spec fn spec_decode_tarball(url: Seq<char>, body: Seq<u8>) -> Option<
    Seq<(Seq<char>, Seq<u8>)>,
> {
    if ".tar"@.is_suffix_of(url) {
        match tar_listing(body) {
            Some(es) => Some(spec_accumulate(es)),
            None => None,
        }
    } else {
        match gunzip_of(body) {
            Some(tb) => match tar_listing(tb) {
                Some(es) => Some(spec_accumulate(es)),
                None => None,
            },
            None => None,
        }
    }
}

/// The wrapping a tarball URL announces.
pub fn tarball_type_for(url: &str) -> (r: TarballType)
    ensures
        (r == TarballType::Tar) == ".tar"@.is_suffix_of(url@),
{
    if str_ends_with(url, ".tar") {
        TarballType::Tar
    } else {
        TarballType::TarGzip
    }
}

/// Decode a downloaded tarball into its file map.
pub fn decode_tarball(url: &str, body: &Vec<u8>) -> (r: Result<Vec<(String, Vec<u8>)>, ServerError>)
    ensures
        match r {
            Ok(files) => spec_decode_tarball(url@, body@) == Some(kv_view(files@)),
            Err(e) => spec_decode_tarball(url@, body@) is None && e is TarballDecodeError,
        },
{
    let kind = tarball_type_for(url);
    let entries = match kind {
        TarballType::Tar => tar_entries(body),
        TarballType::TarGzip => {
            match gunzip(body) {
                Some(tar_bytes) => tar_entries(&tar_bytes),
                None => None,
            }
        },
    };
    match entries {
        Some(es) => Ok(accumulate_files(es)),
        None => Err(ServerError::TarballDecodeError),
    }
}

/// Whether an origin response status allows the body to be used; a
/// non-success status is the tarball download error carrying the status and
/// the URL.
pub fn check_download_status(status: u16, url: &str) -> (r: Result<(), ServerError>)
    ensures
        match r {
            Ok(_) => 200 <= status < 300,
            Err(e) => !(200 <= status < 300) && (e matches ServerError::TarballDownloadError {
                status_code,
                url: u,
            } && status_code == status && u@ == url@),
        },
{
    if 200 <= status && status < 300 {
        Ok(())
    } else {
        Err(
            ServerError::TarballDownloadError {
                status_code: status,
                url: str_to_string(url),
            },
        )
    }
}

} // verus!

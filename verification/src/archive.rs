//! Decoding a staged `.tar.xz` archive into its entries.
//!
//! The xz stream decoding and the tar parsing are done by their crates; each
//! is a pure function of the input bytes, so the library names the two
//! results and verifies everything that follows against those names.

use vstd::prelude::*;

use crate::paths::is_safe_rel_path;

verus! {

/// One decoded archive entry: the relative path it maps to under the target
/// root, what kind of node it is, and the file contents.
pub struct ArchiveEntry {
    pub path: String,
    pub is_dir: bool,
    /// `Some` exactly for a symbolic link.
    pub link_target: Option<String>,
    pub data: Vec<u8>,
}

/// The view of one archive entry.
pub ghost struct EntryV {
    pub path: Seq<char>,
    pub is_dir: bool,
    pub link_target: Option<Seq<char>>,
    pub data: Seq<u8>,
}

impl View for ArchiveEntry {
    type V = EntryV;

    open spec fn view(&self) -> EntryV {
        EntryV {
            path: self.path@,
            is_dir: self.is_dir,
            link_target: match self.link_target {
                Some(t) => Some(t@),
                None => None,
            },
            data: self.data@,
        }
    }
}

/// An entry is safe when its path cannot escape the target root, and, for a
/// symbolic link, neither can its target.
pub open spec fn entry_is_safe(e: EntryV) -> bool {
    &&& is_safe_rel_path(e.path)
    &&& match e.link_target {
        Some(t) => is_safe_rel_path(t),
        None => true,
    }
}

impl DeepView for ArchiveEntry {
    type V = EntryV;

    open spec fn deep_view(&self) -> EntryV {
        self.view()
    }
}

/// Decides `entry_is_safe`.
pub fn check_entry_safe(e: &ArchiveEntry) -> (r: bool)
    ensures
        r == entry_is_safe(e@),
{
    if !crate::paths::check_safe_rel_path(e.path.as_str()) {
        return false;
    }
    match &e.link_target {
        Some(t) => crate::paths::check_safe_rel_path(t.as_str()),
        None => true,
    }
}

/// What decompressing an xz stream yields: `None` when the stream is not a
/// well-formed xz stream, otherwise the decompressed bytes. The result is a
/// function of the input bytes alone.
pub uninterp spec fn xz_plain_of(data: Seq<u8>) -> Option<Seq<u8>>;

/// What parsing a tar stream yields: `None` when the bytes are not a
/// well-formed tar stream, otherwise its entries in order. The result is a
/// function of the input bytes alone.
pub uninterp spec fn tar_entries_of(data: Seq<u8>) -> Option<Seq<EntryV>>;

/// Relies on xz2's `XzDecoder` over an in-memory reader: decompressing is
/// deterministic in the input bytes, and a malformed stream reports an error.
#[verifier::external_body]
fn xz_decode(data: &Vec<u8>) -> (r: Option<Vec<u8>>)
    ensures
        match r {
            Some(plain) => xz_plain_of(data@) == Some(plain@),
            None => xz_plain_of(data@) is None,
        },
{
    let mut decoder = xz2::read::XzDecoder::new(data.as_slice());
    let mut plain: Vec<u8> = Vec::new();
    match std::io::Read::read_to_end(&mut decoder, &mut plain) {
        Ok(_) => Some(plain),
        Err(_) => None,
    }
}

/// Relies on tar's `Archive` over an in-memory reader: parsing is
/// deterministic in the input bytes; each entry carries its path, its type,
/// its link target and its contents, and a malformed stream reports an error.
#[verifier::external_body]
fn tar_parse(data: &Vec<u8>) -> (r: Option<Vec<ArchiveEntry>>)
    ensures
        match r {
            Some(entries) => tar_entries_of(data@) == Some(entries.deep_view()),
            None => tar_entries_of(data@) is None,
        },
{
    let mut archive = tar::Archive::new(data.as_slice());
    let mut out: Vec<ArchiveEntry> = Vec::new();
    for next in archive.entries().ok()? {
        let mut entry = next.ok()?;
        let path = entry.path().ok()?.to_string_lossy().into_owned();
        let link_target = entry.link_name().ok()?.map(|p| p.to_string_lossy().into_owned());
        let is_dir = entry.header().entry_type().is_dir();
        let mut contents: Vec<u8> = Vec::new();
        std::io::Read::read_to_end(&mut entry, &mut contents).ok()?;
        out.push(ArchiveEntry { path, is_dir, link_target, data: contents });
    }
    Some(out)
}

/// The entries a staged `.tar.xz` archive decodes to: `None` when either
/// layer is malformed.
pub open spec fn decoded_entries(data: Seq<u8>) -> Option<Seq<EntryV>> {
    match xz_plain_of(data) {
        Some(plain) => tar_entries_of(plain),
        None => None,
    }
}

/// Decodes a staged `.tar.xz` archive into its entries.
pub fn decode_archive(data: &Vec<u8>) -> (r: Option<Vec<ArchiveEntry>>)
    ensures
        match r {
            Some(entries) => decoded_entries(data@) == Some(entries.deep_view()),
            None => decoded_entries(data@) is None,
        },
{
    match xz_decode(data) {
        Some(plain) => tar_parse(&plain),
        None => None,
    }
}

} // verus!

//! Workspace downloads: the chosen files packed into one zip archive.

use vstd::prelude::*;

verus! {

/// The zip archive of files (name, bytes), in the given order, each
/// deflate-compressed and stamped 1980-01-01 00:00 (the `zip` crate's
/// default time when built without its `time` feature); `None` when the
/// crate refuses to write it.
pub uninterp spec fn zip_bytes_of(names: Seq<Seq<char>>, contents: Seq<Seq<u8>>) -> Option<Seq<u8>>;

/// The names of files (name, bytes).
pub open spec fn file_names(files: Seq<(String, Vec<u8>)>) -> Seq<Seq<char>> {
    files.map_values(|f: (String, Vec<u8>)| f.0@)
}

/// The bytes of files (name, bytes).
pub open spec fn file_contents(files: Seq<(String, Vec<u8>)>) -> Seq<Seq<u8>> {
    files.map_values(|f: (String, Vec<u8>)| f.1@)
}

/// `zip::ZipWriter` over an in-memory buffer: `start_file` with deflate
/// and `write_all` for each file in turn, then `finish`. The archive is
/// named, not described; any error of the crate gives `None`.
#[verifier::external_body]
fn zip_write(files: &[(String, Vec<u8>)]) -> (r: Option<Vec<u8>>)
    ensures
        match r {
            Some(b) => zip_bytes_of(file_names(files@), file_contents(files@)) == Some(b@),
            None => zip_bytes_of(file_names(files@), file_contents(files@)) is None,
        },
{
    let mut zip = zip::ZipWriter::new(std::io::Cursor::new(Vec::new()));
    let options = zip::write::SimpleFileOptions::default().compression_method(zip::CompressionMethod::Deflated);
    for (name, bytes) in files {
        if zip.start_file(name.clone(), options).is_err() || std::io::Write::write_all(&mut zip, bytes).is_err() {
            return None;
        }
    }
    zip.finish().ok().map(|c| c.into_inner())
}

/// The zip archive of the files read for a download (name, bytes), in
/// the given order; `zip_failed` when it cannot be written.
pub fn zip_archive(files: &[(String, Vec<u8>)]) -> (r: Result<Vec<u8>, String>)
    ensures
        match zip_bytes_of(file_names(files@), file_contents(files@)) {
            Some(b) => r matches Ok(x) && x@ == b,
            None => r matches Err(e) && e@ == "zip_failed"@,
        },
{
    match zip_write(files) {
        Some(b) => Ok(b),
        None => Err("zip_failed".to_string()),
    }
}

} // verus!

//! ZIP archives: reading the files in one, and writing one.

use std::io::{Read, Write};
use vstd::prelude::*;

use crate::text;

verus! {

/// `std::io::Cursor`, which lets bytes in memory be read and written like a
/// file.
#[verifier::external_type_specification]
#[verifier::external_body]
#[verifier::reject_recursive_types(T)]
pub struct ExCursor<T>(std::io::Cursor<T>);

/// `zip::ZipArchive`, an archive that is read.
#[verifier::external_type_specification]
#[verifier::external_body]
#[verifier::reject_recursive_types(R)]
pub struct ExZipArchive<R>(zip::ZipArchive<R>);

/// What an archive says of a file in it. `path` holds the components of its
/// path, unless that is none below where the archive begins.
pub struct ZipHeader {
    pub path: Option<Vec<String>>,
    pub size: u64,
    pub is_dir: bool,
}

/// What a `ZipHeader` holds.
#[verifier::ext_equal]
pub struct ZipHeaderView {
    pub path: Option<Seq<Seq<char>>>,
    pub size: u64,
    pub is_dir: bool,
}

impl View for ZipHeader {
    type V = ZipHeaderView;

    open spec fn view(&self) -> ZipHeaderView {
        ZipHeaderView {
            path: match self.path {
                Some(path) => Some(text::views(path@)),
                None => None,
            },
            size: self.size,
            is_dir: self.is_dir,
        }
    }
}

/// What is known of a file in an archive: what the archive says of it, and its
/// bytes, or in each case the text of the error on reading it.
#[verifier::ext_equal]
pub struct ZipFileView {
    pub header: Result<ZipHeaderView, Seq<char>>,
    pub bytes: Result<Seq<u8>, Seq<char>>,
}

/// How deep a path leads below where it begins.
pub open spec fn depth(path: Seq<Seq<char>>) -> int
    decreases path.len(),
{
    if path.len() == 0 {
        0
    } else if path.last() == ".."@ {
        depth(path.drop_last()) - 1
    } else if path.last() == "."@ {
        depth(path.drop_last())
    } else {
        depth(path.drop_last()) + 1
    }
}

/// Whether a path never leads above where it begins.
pub open spec fn stays_inside(path: Seq<Seq<char>>) -> bool {
    forall|k: int| 0 <= k <= path.len() ==> #[trigger] depth(path.take(k)) >= 0
}

/// Whether no file has a path that leads above where it begins.
pub open spec fn all_stay_inside(files: Seq<ZipFileView>) -> bool {
    forall|i: int|
        0 <= i < files.len() ==> ((#[trigger] files[i]).header matches Ok(header) ==> (
        header.path matches Some(path) ==> stays_inside(path)))
}

/// The files in an archive.
pub uninterp spec fn zip_files(archive: zip::ZipArchive<std::io::Cursor<Vec<u8>>>) -> Seq<
    ZipFileView,
>;

/// The files in the archive that some bytes are, or the text of the error on
/// opening it.
pub uninterp spec fn zip_opened(bytes: Seq<u8>) -> Result<Seq<ZipFileView>, Seq<char>>;

/// `zip::ZipArchive::new` on bytes in memory. The paths of the files are those
/// of `zip::ZipFile::enclosed_name`, which are there only if they never lead
/// above where they begin; their components are those of a system with `/`
/// between them.
#[verifier::external_body]
pub(crate) fn open_zip(bytes: Vec<u8>) -> (r: Result<
    zip::ZipArchive<std::io::Cursor<Vec<u8>>>,
    String,
>)
    ensures
        match r {
            Ok(archive) => {
                &&& zip_opened(bytes@) == Ok::<Seq<ZipFileView>, Seq<char>>(zip_files(archive))
                &&& all_stay_inside(zip_files(archive))
            },
            Err(e) => zip_opened(bytes@) == Err::<Seq<ZipFileView>, Seq<char>>(e@),
        },
{
    zip::ZipArchive::new(std::io::Cursor::new(bytes)).map_err(|error| error.to_string())
}

/// `zip::ZipArchive::len` is the number of files in an archive.
#[verifier::external_body]
pub(crate) fn zip_len(archive: &zip::ZipArchive<std::io::Cursor<Vec<u8>>>) -> (r: usize)
    ensures
        r == zip_files(*archive).len(),
{
    archive.len()
}

/// `zip::ZipArchive::by_index` and what the `zip::ZipFile` it gives says of
/// itself: `ZipFile::enclosed_name`, `ZipFile::size` and `ZipFile::is_dir`.
/// Reading a file changes nothing in the archive.
#[verifier::external_body]
pub(crate) fn zip_header(
    archive: &mut zip::ZipArchive<std::io::Cursor<Vec<u8>>>,
    index: usize,
) -> (r: Result<ZipHeader, String>)
    requires
        index < zip_files(*old(archive)).len(),
    ensures
        zip_files(*final(archive)) == zip_files(*old(archive)),
        match r {
            Ok(header) => zip_files(*old(archive))[index as int].header == Ok::<
                ZipHeaderView,
                Seq<char>,
            >(header@),
            Err(e) => zip_files(*old(archive))[index as int].header == Err::<
                ZipHeaderView,
                Seq<char>,
            >(e@),
        },
{
    let file = archive.by_index(index).map_err(|error| error.to_string())?;
    let path = file.enclosed_name().map(
        |path| path.iter().map(|part| part.to_string_lossy().into_owned()).collect(),
    );
    Ok(ZipHeader { path, size: file.size(), is_dir: file.is_dir() })
}

/// `zip::ZipArchive::by_index` and all bytes of the `zip::ZipFile` it gives.
/// Reading a file changes nothing in the archive.
#[verifier::external_body]
pub(crate) fn zip_bytes(
    archive: &mut zip::ZipArchive<std::io::Cursor<Vec<u8>>>,
    index: usize,
) -> (r: Result<Vec<u8>, String>)
    requires
        index < zip_files(*old(archive)).len(),
    ensures
        zip_files(*final(archive)) == zip_files(*old(archive)),
        match r {
            Ok(bytes) => zip_files(*old(archive))[index as int].bytes == Ok::<
                Seq<u8>,
                Seq<char>,
            >(bytes@),
            Err(e) => zip_files(*old(archive))[index as int].bytes == Err::<
                Seq<u8>,
                Seq<char>,
            >(e@),
        },
{
    let mut file = archive.by_index(index).map_err(|error| error.to_string())?;
    let mut bytes = Vec::new();
    file.read_to_end(&mut bytes).map_err(|error| error.to_string())?;
    Ok(bytes)
}

/// `String::from_utf8` gives the text that bytes encode in UTF-8, where they
/// do.
#[verifier::external_body]
pub(crate) fn utf8_text(bytes: &Vec<u8>) -> (r: Option<String>)
    ensures
        r is Some <==> vstd::utf8::valid_utf8(bytes@),
        r matches Some(s) ==> s@ == vstd::utf8::decode_utf8(bytes@),
{
    String::from_utf8(bytes.clone()).ok()
}

/// `zip::ZipWriter`, an archive that is written to memory.
#[verifier::external_body]
pub struct ZipSink {
    inner: zip::ZipWriter<std::io::Cursor<Vec<u8>>>,
}

/// Something that was written to an archive: a directory, or a file with its
/// bytes.
#[verifier::ext_equal]
pub struct ZipItemView {
    pub name: Seq<char>,
    pub bytes: Option<Seq<u8>>,
}

/// What was written to an archive so far.
pub uninterp spec fn zip_written(sink: ZipSink) -> Seq<ZipItemView>;

/// The text of the error on adding a directory to an archive, if there is one.
pub uninterp spec fn zip_directory_error(written: Seq<ZipItemView>, name: Seq<char>) -> Option<
    Seq<char>,
>;

/// The text of the error on adding a file to an archive, if there is one.
pub uninterp spec fn zip_file_error(
    written: Seq<ZipItemView>,
    name: Seq<char>,
    bytes: Seq<u8>,
) -> Option<Seq<char>>;

/// The bytes of an archive that is complete, or the text of the error on
/// completing it.
pub uninterp spec fn zip_finished(written: Seq<ZipItemView>) -> Result<Seq<u8>, Seq<char>>;

/// `zip::ZipWriter::new` on an empty buffer: nothing is written yet.
#[verifier::external_body]
pub(crate) fn new_zip() -> (r: ZipSink)
    ensures
        zip_written(r) == Seq::<ZipItemView>::empty(),
{
    ZipSink { inner: zip::ZipWriter::new(std::io::Cursor::new(Vec::new())) }
}

/// The most bytes that a name in an archive has.
pub const MAX_NAME_BYTES: usize = 65_535;

/// `zip::ZipWriter::add_directory` with default options. Their time stamp is the
/// same at all times, as the feature `time` of the crate is off. Whether it fails
/// depends on what was written before. It panics on a name with more bytes than
/// an archive can hold, and adds a `/` to a name that does not end with one,
/// which the precondition leaves out.
#[verifier::external_body]
pub(crate) fn add_zip_directory(sink: ZipSink, name: &str) -> (r: Result<ZipSink, String>)
    requires
        vstd::utf8::encode_utf8(name@).len() <= MAX_NAME_BYTES,
        name@.len() > 0 && name@.last() == '/',
    ensures
        match r {
            Ok(more) => {
                &&& zip_directory_error(zip_written(sink), name@) is None
                &&& zip_written(more) == zip_written(sink).push(
                    ZipItemView { name: name@, bytes: None },
                )
            },
            Err(e) => zip_directory_error(zip_written(sink), name@) == Some(e@),
        },
{
    let mut sink = sink;
    let options = zip::write::SimpleFileOptions::default();
    sink.inner.add_directory(name, options).map_err(|error| error.to_string())?;
    Ok(sink)
}

/// `zip::ZipWriter::start_file` with compression by `Deflated` and a time stamp
/// that is the same at all times, as the feature `time` of the crate is off, and
/// `write_all` of all bytes. Whether they fail depends on what was written
/// before. It panics on a name with more bytes than an archive can hold, which
/// the precondition leaves out.
#[verifier::external_body]
pub(crate) fn add_zip_file(sink: ZipSink, name: &str, bytes: &Vec<u8>) -> (r: Result<
    ZipSink,
    String,
>)
    requires
        vstd::utf8::encode_utf8(name@).len() <= MAX_NAME_BYTES,
    ensures
        match r {
            Ok(more) => {
                &&& zip_file_error(zip_written(sink), name@, bytes@) is None
                &&& zip_written(more) == zip_written(sink).push(
                    ZipItemView { name: name@, bytes: Some(bytes@) },
                )
            },
            Err(e) => zip_file_error(zip_written(sink), name@, bytes@) == Some(e@),
        },
{
    let mut sink = sink;
    let options = zip::write::SimpleFileOptions::default().compression_method(
        zip::CompressionMethod::Deflated,
    );
    sink.inner.start_file(name, options).map_err(|error| error.to_string())?;
    sink.inner.write_all(bytes).map_err(|error| error.to_string())?;
    Ok(sink)
}

/// `zip::ZipWriter::finish` completes an archive. Its bytes depend on nothing
/// but what was written.
#[verifier::external_body]
pub(crate) fn finish_zip(sink: ZipSink) -> (r: Result<Vec<u8>, String>)
    ensures
        match r {
            Ok(bytes) => zip_finished(zip_written(sink)) == Ok::<Seq<u8>, Seq<char>>(bytes@),
            Err(e) => zip_finished(zip_written(sink)) == Err::<Seq<u8>, Seq<char>>(e@),
        },
{
    sink.inner.finish().map(std::io::Cursor::into_inner).map_err(|error| error.to_string())
}

} // verus!

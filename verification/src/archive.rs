//! Trusted boundary to the `mla` container format. A container is built in
//! memory by an archive writer over a byte buffer and sealed exactly once;
//! sealed bytes are opened read-only by an archive reader that enumerates and
//! fetches entries. Each function here wraps one `mla` call and is believed,
//! not verified; everything around them is.

use vstd::prelude::*;

use crate::StoreError;

verus! {

/// In-memory builder of one container: wraps mla's archive writer over a byte
/// buffer, with the compression layer at its highest level.
#[verifier::external_body]
pub struct ContainerBuilder {
    inner: mla::ArchiveWriter<'static, Vec<u8>>,
}

/// Open read-only view of one container's bytes: wraps mla's archive reader.
#[verifier::external_body]
pub struct ContainerReader {
    inner: mla::ArchiveReader<'static, std::io::Cursor<Vec<u8>>>,
}

/// The entries a builder holds so far: (archive path, content) pairs in the
/// order they were added.
pub uninterp spec fn builder_entries(b: ContainerBuilder) -> Seq<(Seq<char>, Seq<u8>)>;

/// What parsing container bytes yields: the stored mapping from archive path to
/// content, or `None` where the bytes are not a parsable sealed container.
/// Parsing is a function of the bytes alone.
pub uninterp spec fn container_entries(bytes: Seq<u8>) -> Option<Map<Seq<char>, Seq<u8>>>;

/// The mapping an open reader gives access to.
pub uninterp spec fn reader_entries(r: ContainerReader) -> Map<Seq<char>, Seq<u8>>;

/// Whether `name` occurs among the paths of `es`.
pub open spec fn contains_name(es: Seq<(Seq<char>, Seq<u8>)>, name: Seq<char>) -> bool {
    exists|i: int| 0 <= i < es.len() && es[i].0 == name
}

/// The mapping a pair list builds up, later pairs over earlier ones.
pub open spec fn map_of(es: Seq<(Seq<char>, Seq<u8>)>) -> Map<Seq<char>, Seq<u8>>
    decreases es,
{
    if es.len() == 0 {
        Map::empty()
    } else {
        map_of(es.drop_last()).insert(es.last().0, es.last().1)
    }
}

/// Relies on mla::ArchiveWriter::from_config, with only the compression layer
/// enabled at its highest level: building a writer over an in-memory buffer
/// cannot fail, and the new archive holds no entry.
#[verifier::external_body]
pub fn builder_new() -> (r: ContainerBuilder)
    ensures
        builder_entries(r) == Seq::<(Seq<char>, Seq<u8>)>::empty(),
{
    let mut config = mla::config::ArchiveWriterConfig::new();
    config.set_layers(mla::Layers::COMPRESS).with_compression_level(11).unwrap();
    let inner = mla::ArchiveWriter::from_config(Vec::new(), config).unwrap();
    ContainerBuilder { inner }
}

/// Relies on mla::ArchiveWriter::add_file: stores one entry under its archive
/// path, length supplied up front. A path already present is refused before
/// anything is written (DuplicateFilename); with an in-memory destination
/// nothing else can fail.
#[verifier::external_body]
pub fn builder_add(b: &mut ContainerBuilder, name: &Vec<char>, content: &Vec<u8>) -> (r: Result<
    (),
    StoreError,
>)
    ensures
        r is Ok <==> !contains_name(builder_entries(*old(b)), name@),
        r is Ok ==> builder_entries(*final(b)) == builder_entries(*old(b)).push(
            (name@, content@),
        ),
        r is Err ==> builder_entries(*final(b)) == builder_entries(*old(b)),
        r matches Err(e) ==> e == StoreError::InvalidInput,
{
    let s: String = name.iter().collect();
    match b.inner.add_file(&s, content.len() as u64, &content[..]) {
        Ok(()) => Ok(()),
        Err(mla::errors::Error::DuplicateFilename) => Err(StoreError::InvalidInput),
        Err(_) => Err(StoreError::IOFailure),
    }
}

/// Relies on mla::ArchiveWriter::finalize and into_raw: seals the archive once
/// and hands back the container bytes. Reading those bytes back yields exactly
/// the mapping that was written; with an in-memory destination sealing cannot
/// fail.
#[verifier::external_body]
pub fn builder_finalize(b: ContainerBuilder) -> (r: Vec<u8>)
    ensures
        container_entries(r@) == Some(map_of(builder_entries(b))),
{
    let mut inner = b.inner;
    inner.finalize().unwrap();
    inner.into_raw()
}

/// Relies on mla::ArchiveReader::new: opening parses the container format;
/// bytes that parse yield a reader over the stored mapping, bytes that do not
/// are refused.
#[verifier::external_body]
pub fn reader_open(bytes: &Vec<u8>) -> (r: Result<ContainerReader, StoreError>)
    ensures
        r is Ok <==> container_entries(bytes@) is Some,
        r matches Ok(rd) ==> Some(reader_entries(rd)) == container_entries(bytes@),
        r matches Err(e) ==> e == StoreError::CorruptContainer,
{
    match mla::ArchiveReader::new(std::io::Cursor::new(bytes.clone())) {
        Ok(inner) => Ok(ContainerReader { inner }),
        Err(_) => Err(StoreError::CorruptContainer),
    }
}

/// Relies on mla::ArchiveReader::list_files: enumerates every stored archive
/// path exactly once. On a reader that opened, enumeration cannot fail.
#[verifier::external_body]
pub fn reader_names(rd: &ContainerReader) -> (r: Vec<Vec<char>>)
    ensures
        forall|i: int| 0 <= i < r@.len() ==> reader_entries(*rd).contains_key(#[trigger] r@[i]@),
        forall|i: int, j: int| 0 <= i < j < r@.len() ==> r@[i]@ != r@[j]@,
        forall|k: Seq<char>|
            #[trigger] reader_entries(*rd).contains_key(k) ==> exists|i: int|
                0 <= i < r@.len() && r@[i]@ == k,
{
    match rd.inner.list_files() {
        Ok(it) => it.map(|s| s.chars().collect()).collect(),
        Err(_) => Vec::new(),
    }
}

/// Relies on mla::ArchiveReader::get_file: fetches one stored entry's bytes by
/// its archive path, leaving the reader's mapping as it was. What comes back
/// whole is exactly the stored bytes; an unknown path reports that nothing is
/// stored there. A known path is not owed success: opening parses only the
/// footer, the data blocks are decoded lazily at fetch time, so a damaged block
/// surfaces here as a read failure.
#[verifier::external_body]
pub fn reader_fetch(rd: &mut ContainerReader, name: &Vec<char>) -> (r: Result<Vec<u8>, StoreError>)
    ensures
        reader_entries(*final(rd)) == reader_entries(*old(rd)),
        r is Ok ==> reader_entries(*old(rd)).contains_key(name@) && r->Ok_0@ == reader_entries(
            *old(rd),
        )[name@],
        !reader_entries(*old(rd)).contains_key(name@) ==> r is Err && r->Err_0
            == StoreError::EntryNotFound,
        reader_entries(*old(rd)).contains_key(name@) && r is Err ==> r->Err_0
            == StoreError::IOFailure,
{
    let s: String = name.iter().collect();
    match rd.inner.get_file(s) {
        Ok(Some(mut f)) => {
            let mut buf: Vec<u8> = Vec::new();
            match std::io::Read::read_to_end(&mut f.data, &mut buf) {
                Ok(_) => Ok(buf),
                Err(_) => Err(StoreError::IOFailure),
            }
        },
        Ok(None) => Err(StoreError::EntryNotFound),
        Err(_) => Err(StoreError::IOFailure),
    }
}

} // verus!

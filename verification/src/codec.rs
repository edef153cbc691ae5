//! The single-file pipeline: a file's bytes are compressed whole at the fixed,
//! maximal effort setting, or expanded back. The byte transform itself is the
//! trusted compressor; naming the output path by the recognized suffix and the
//! round trip's statement are verified.

use vstd::prelude::*;

use crate::StoreError;
use crate::classify::{extension_chars, file_suffix, file_suffix_chars, tree_suffix, tree_suffix_chars};
use crate::paths::{
    add_dot_suffix, base_name, chars_eq, copy_range, dup, extension_of, last_index_of,
    lemma_last_index_of, strip_extension,
};

verus! {

/// What compressing a byte sequence at the fixed maximal setting yields: a
/// function of the input bytes alone.
pub uninterp spec fn compressed_of(data: Seq<u8>) -> Seq<u8>;

/// Relies on brotli::enc::BrotliCompress at the highest quality: the output is
/// a function of the input bytes alone, it always holds at least one byte (a
/// stream carries its closing marker even for empty input), and writing to an
/// in-memory buffer cannot fail.
#[verifier::external_body]
fn brotli_compress(data: &Vec<u8>) -> (r: Vec<u8>)
    ensures
        r@ == compressed_of(data@),
        r@.len() > 0,
{
    let mut out: Vec<u8> = Vec::new();
    let mut params = brotli::enc::BrotliEncoderParams::default();
    params.quality = 11;
    let mut input: &[u8] = &data[..];
    brotli::enc::BrotliCompress(&mut input, &mut out, &params).unwrap();
    out
}

/// Relies on brotli::BrotliDecompress: the transform is lossless, so expanding
/// any compressor output restores the exact original bytes; bytes from
/// elsewhere may be refused.
#[verifier::external_body]
fn brotli_decompress(data: &Vec<u8>) -> (r: Result<Vec<u8>, StoreError>)
    ensures
        forall|orig: Seq<u8>| data@ == compressed_of(orig) ==> r is Ok && r->Ok_0@ == orig,
        r matches Err(e) ==> e == StoreError::CorruptContainer,
{
    let mut out: Vec<u8> = Vec::new();
    let mut input: &[u8] = &data[..];
    match brotli::BrotliDecompress(&mut input, &mut out) {
        Ok(()) => Ok(out),
        Err(_) => Err(StoreError::CorruptContainer),
    }
}

/// Compresses a file's bytes whole, at the fixed maximal setting. The output is
/// never empty.
pub fn compress_data(data: &Vec<u8>) -> (r: Vec<u8>)
    ensures
        r@ == compressed_of(data@),
        r@.len() > 0,
{
    brotli_compress(data)
}

/// Expands a compressed file's bytes whole. On any output of `compress_data`
/// this succeeds and restores the exact original bytes; an input that is no
/// compressor output may be refused as corrupt.
pub fn decompress_data(data: &Vec<u8>) -> (r: Result<Vec<u8>, StoreError>)
    ensures
        forall|orig: Seq<u8>| data@ == compressed_of(orig) ==> r is Ok && r->Ok_0@ == orig,
        r matches Err(e) ==> e == StoreError::CorruptContainer,
{
    brotli_decompress(data)
}

/// The output path of compressing a single file: the input path with a dot and
/// the single-file suffix appended.
pub fn compressed_output_path(input: &Vec<char>) -> (r: Vec<char>)
    ensures
        r@ == add_dot_suffix(input@, file_suffix()),
{
    let mut r = dup(input);
    r.push('.');
    let suffix = file_suffix_chars();
    r.push(suffix[0]);
    r.push(suffix[1]);
    r.push(suffix[2]);
    assert(r@ =~= add_dot_suffix(input@, file_suffix()));
    r
}

/// The output path of packing a tree: the first root input's path with a dot
/// and the tree suffix appended.
pub fn packed_output_path(input: &Vec<char>) -> (r: Vec<char>)
    ensures
        r@ == add_dot_suffix(input@, tree_suffix()),
{
    let mut r = dup(input);
    r.push('.');
    let suffix = tree_suffix_chars();
    r.push(suffix[0]);
    r.push(suffix[1]);
    r.push(suffix[2]);
    assert(r@ =~= add_dot_suffix(input@, tree_suffix()));
    r
}

/// The output path of expanding a compressed single file: the input path with
/// its recognized suffix stripped. An input whose final extension is not the
/// single-file suffix is refused.
pub fn decompressed_output_path(input: &Vec<char>) -> (r: Result<Vec<char>, StoreError>)
    ensures
        extension_of(input@) == Some(file_suffix()) ==> r is Ok && r->Ok_0@ == strip_extension(
            input@,
        ),
        extension_of(input@) != Some(file_suffix()) ==> r is Err && r->Err_0
            == StoreError::InvalidInput,
{
    let ext = extension_chars(input);
    match ext {
        Some(e) => {
            if chars_eq(&e, &file_suffix_chars()) {
                proof {
                    let b = base_name(input@);
                    let d = last_index_of(b, '.');
                    lemma_last_index_of(b, '.');
                    lemma_last_index_of(input@, '/');
                    assert(e@ == b.subrange(d + 1, b.len() as int));
                    assert(e@.len() == b.len() - d - 1);
                    assert(b.len() <= input@.len());
                }
                let cut = input.len() - e.len() - 1;
                let r = copy_range(input, 0, cut);
                Ok(r)
            } else {
                Err(StoreError::InvalidInput)
            }
        },
        None => Err(StoreError::InvalidInput),
    }
}

} // verus!

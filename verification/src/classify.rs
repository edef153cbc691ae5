//! Path classification: from the kind of a filesystem entry and its final
//! extension, decide which of the four archival actions applies. The two
//! recognized suffixes are process-wide constants.

use vstd::prelude::*;

use crate::paths::{
    add_dot_suffix, base_name, copy_range, chars_eq, extension_of, find_last, last_index_of,
    lemma_extension_of_add_dot_suffix, lemma_last_index_of, lemma_last_index_of_unique,
    strip_extension,
};

verus! {

/// The recognized suffix of a compressed single file.
pub open spec fn file_suffix() -> Seq<char> {
    seq!['q', 's', 'f']
}

/// The recognized suffix of a packed tree container.
pub open spec fn tree_suffix() -> Seq<char> {
    seq!['q', 's', 't']
}

/// The suffix of a compressed single file, as characters.
pub fn file_suffix_chars() -> (r: Vec<char>)
    ensures
        r@ == file_suffix(),
{
    let mut v: Vec<char> = Vec::new();
    v.push('q');
    v.push('s');
    v.push('f');
    assert(v@ =~= file_suffix());
    v
}

/// The suffix of a packed tree container, as characters.
pub fn tree_suffix_chars() -> (r: Vec<char>)
    ensures
        r@ == tree_suffix(),
{
    let mut v: Vec<char> = Vec::new();
    v.push('q');
    v.push('s');
    v.push('t');
    assert(v@ =~= tree_suffix());
    v
}

/// The kind of an existing filesystem entry, observed at classification time.
#[derive(Debug, Clone, Copy, PartialEq, Eq, Structural)]
pub enum PathKind {
    /// A regular file.
    RegularFile,
    /// A directory.
    Directory,
    /// Neither a regular file nor a directory.
    Missing,
}

/// The action that one input path calls for.
#[derive(Debug, Clone, Copy, PartialEq, Eq, Structural)]
pub enum Action {
    /// Compress a single file into a sibling container.
    CompressFile,
    /// Expand a compressed single file back to its original content.
    DecompressFile,
    /// Pack a directory tree into one sealed container.
    PackTree,
    /// Unpack a tree container back onto disk.
    ExtractTree,
    /// The path is neither a regular file nor a directory.
    InvalidInput,
}

/// The action for a path: directories are packed; a regular file is routed by
/// its final extension, exactly compared to the two recognized suffixes; a file
/// with no extension is ordinary input to compression.
pub open spec fn classify_spec(kind: PathKind, path: Seq<char>) -> Action {
    match kind {
        PathKind::Missing => Action::InvalidInput,
        PathKind::Directory => Action::PackTree,
        PathKind::RegularFile => match extension_of(path) {
            Option::Some(e) => if e == tree_suffix() {
                Action::ExtractTree
            } else if e == file_suffix() {
                Action::DecompressFile
            } else {
                Action::CompressFile
            },
            Option::None => Action::CompressFile,
        },
    }
}

/// The final extension of the path, as `extension_of` describes.
pub fn extension_chars(path: &Vec<char>) -> (r: Option<Vec<char>>)
    ensures
        match r {
            Option::Some(e) => extension_of(path@) == Option::Some(e@),
            Option::None => extension_of(path@) is None,
        },
{
    let n: usize = path.len();
    let ls = find_last(path, '/');
    proof {
        lemma_last_index_of(path@, '/');
        assert(last_index_of(path@, '/') < n);
    }
    let start: usize = match ls {
        Some(k) => k + 1,
        None => 0,
    };
    proof {
        assert(base_name(path@) =~= path@.subrange(start as int, path@.len() as int));
    }
    let ghost b = base_name(path@);
    let mut i: usize = path.len();
    while i > start
        invariant
            start <= i <= path@.len(),
            b == path@.subrange(start as int, path@.len() as int),
            b == base_name(path@),
            forall|j: int| i <= j < path@.len() ==> path@[j] != '.',
        decreases i,
    {
        i = i - 1;
        if path[i] == '.' {
            proof {
                assert forall|j: int| (i - start) < j < b.len() implies b[j] != '.' by {
                    assert(b[j] == path@[start + j]);
                }
                assert(b[i - start] == '.');
                lemma_last_index_of_unique(b, '.', i - start);
            }
            if i == start {
                return None;
            }
            let e = copy_range(path, i + 1, path.len());
            proof {
                assert(e@ =~= b.subrange(i - start + 1, b.len() as int));
            }
            return Some(e);
        }
    }
    proof {
        lemma_last_index_of(b, '.');
        assert forall|j: int| 0 <= j < b.len() implies b[j] != '.' by {
            assert(b[j] == path@[start + j]);
        }
        assert(last_index_of(b, '.') == -1);
    }
    None
}

/// The action for a path, as `classify_spec` describes. Classification reads
/// nothing but the entry's kind and the path's characters.
pub fn classify(kind: PathKind, path: &Vec<char>) -> (r: Action)
    ensures
        r == classify_spec(kind, path@),
{
    match kind {
        PathKind::Missing => Action::InvalidInput,
        PathKind::Directory => Action::PackTree,
        PathKind::RegularFile => match extension_chars(path) {
            Some(e) => {
                if chars_eq(&e, &tree_suffix_chars()) {
                    Action::ExtractTree
                } else if chars_eq(&e, &file_suffix_chars()) {
                    Action::DecompressFile
                } else {
                    Action::CompressFile
                }
            },
            None => Action::CompressFile,
        },
    }
}

/// The two recognized suffixes are distinct plain dot-free names.
pub proof fn lemma_suffixes_plain()
    ensures
        crate::paths::is_plain_name(file_suffix()),
        crate::paths::is_plain_name(tree_suffix()),
        forall|i: int| 0 <= i < file_suffix().len() ==> file_suffix()[i] != '.',
        forall|i: int| 0 <= i < tree_suffix().len() ==> tree_suffix()[i] != '.',
        file_suffix() != tree_suffix(),
{
    assert forall|i: int| 0 <= i < file_suffix().len() implies file_suffix()[i] != '.'
        && file_suffix()[i] != '/' by {
        assert(file_suffix()[0] == 'q' && file_suffix()[1] == 's' && file_suffix()[2] == 'f');
    }
    assert forall|i: int| 0 <= i < tree_suffix().len() implies tree_suffix()[i] != '.'
        && tree_suffix()[i] != '/' by {
        assert(tree_suffix()[0] == 'q' && tree_suffix()[1] == 's' && tree_suffix()[2] == 't');
    }
    assert(file_suffix()[2] != tree_suffix()[2]);
}

/// Compressing a file and classifying the output gets it expanded again: a path
/// with a non-empty base name, once the single-file suffix is appended, is
/// classified for decompression, and stripping the extension restores the path.
pub proof fn lemma_compress_output_classified(p: Seq<char>)
    requires
        base_name(p).len() > 0,
    ensures
        classify_spec(PathKind::RegularFile, add_dot_suffix(p, file_suffix()))
            == Action::DecompressFile,
        strip_extension(add_dot_suffix(p, file_suffix())) == p,
{
    lemma_suffixes_plain();
    lemma_extension_of_add_dot_suffix(p, file_suffix());
}

/// Packing a tree and classifying the output container gets it extracted: a
/// path with a non-empty base name, once the tree suffix is appended, is
/// classified for tree extraction.
pub proof fn lemma_pack_output_classified(p: Seq<char>)
    requires
        base_name(p).len() > 0,
    ensures
        classify_spec(PathKind::RegularFile, add_dot_suffix(p, tree_suffix()))
            == Action::ExtractTree,
{
    lemma_suffixes_plain();
    lemma_extension_of_add_dot_suffix(p, tree_suffix());
}

/// Classification is a pure function of the entry's kind and the path's final
/// extension: two paths with the same extension get the same action.
pub proof fn lemma_classify_determined_by_extension(kind: PathKind, p1: Seq<char>, p2: Seq<char>)
    requires
        extension_of(p1) == extension_of(p2),
    ensures
        classify_spec(kind, p1) == classify_spec(kind, p2),
{
}

} // verus!

//! Path arithmetic on slash-separated character paths: joining an archive-path
//! prefix to a name, splitting off the parent directory and base name, and
//! reading or adding a final dotted extension.

use vstd::prelude::*;

verus! {

/// No character of `s` is the separator `/`.
pub open spec fn no_slash(s: Seq<char>) -> bool {
    forall|i: int| 0 <= i < s.len() ==> s[i] != '/'
}

/// A plain entry name: non-empty and without a separator.
pub open spec fn is_plain_name(s: Seq<char>) -> bool {
    s.len() > 0 && no_slash(s)
}

/// `prefix` and `name` joined with `/`; an empty prefix adds no separator, so a
/// joined path never begins with one.
pub open spec fn join(prefix: Seq<char>, name: Seq<char>) -> Seq<char> {
    if prefix.len() == 0 {
        name
    } else {
        prefix + seq!['/'] + name
    }
}

/// Index of the last occurrence of `c` in `s`, or `-1` if `c` does not occur.
pub open spec fn last_index_of(s: Seq<char>, c: char) -> int
    decreases s.len(),
{
    if s.len() == 0 {
        -1
    } else if s[s.len() - 1] == c {
        s.len() - 1
    } else {
        last_index_of(s.drop_last(), c)
    }
}

/// What `last_index_of` returns: a position of `c` with nothing equal to `c`
/// after it, or `-1` when `c` does not occur at all.
pub proof fn lemma_last_index_of(s: Seq<char>, c: char)
    ensures
        -1 <= last_index_of(s, c) < s.len(),
        last_index_of(s, c) >= 0 ==> s[last_index_of(s, c)] == c,
        forall|j: int| last_index_of(s, c) < j < s.len() ==> s[j] != c,
    decreases s.len(),
{
    if s.len() > 0 && s[s.len() - 1] != c {
        lemma_last_index_of(s.drop_last(), c);
        assert(forall|j: int| 0 <= j < s.len() - 1 ==> s[j] == s.drop_last()[j]);
    }
}

/// `last_index_of` is the only position of `c` with no later occurrence.
pub proof fn lemma_last_index_of_unique(s: Seq<char>, c: char, k: int)
    requires
        0 <= k < s.len(),
        s[k] == c,
        forall|j: int| k < j < s.len() ==> s[j] != c,
    ensures
        last_index_of(s, c) == k,
    decreases s.len(),
{
    if s[s.len() - 1] != c {
        lemma_last_index_of_unique(s.drop_last(), c, k);
    }
}

/// A character that occurs nowhere has no last occurrence.
pub proof fn lemma_last_index_of_none(s: Seq<char>, c: char)
    requires
        forall|j: int| 0 <= j < s.len() ==> s[j] != c,
    ensures
        last_index_of(s, c) == -1,
    decreases s.len(),
{
    if s.len() > 0 {
        lemma_last_index_of_none(s.drop_last(), c);
    }
}

/// Everything before the last separator, or the empty sequence when there is none.
pub open spec fn parent_dir(s: Seq<char>) -> Seq<char> {
    if last_index_of(s, '/') < 0 {
        Seq::<char>::empty()
    } else {
        s.subrange(0, last_index_of(s, '/'))
    }
}

/// Everything after the last separator; the whole path when there is none.
pub open spec fn base_name(s: Seq<char>) -> Seq<char> {
    s.subrange(last_index_of(s, '/') + 1, s.len() as int)
}

/// The final extension of the path's base name: the part after the last dot,
/// unless the base name has no dot or only a leading one (a hidden file).
pub open spec fn extension_of(s: Seq<char>) -> Option<Seq<char>> {
    let b = base_name(s);
    let d = last_index_of(b, '.');
    if d <= 0 {
        None
    } else {
        Some(b.subrange(d + 1, b.len() as int))
    }
}

/// `s` with a dot and the given suffix appended.
pub open spec fn add_dot_suffix(s: Seq<char>, suffix: Seq<char>) -> Seq<char> {
    s + seq!['.'] + suffix
}

/// `s` with its final dot and extension removed; meaningful only when
/// `extension_of(s)` is `Some`.
pub open spec fn strip_extension(s: Seq<char>) -> Seq<char> {
    s.subrange(0, s.len() - (extension_of(s)->Some_0).len() - 1)
}

/// Appending a dot and a dot-free plain suffix to a path whose base name is
/// non-empty makes that suffix the path's final extension, and stripping the
/// extension restores the path exactly.
pub proof fn lemma_extension_of_add_dot_suffix(p: Seq<char>, suffix: Seq<char>)
    requires
        is_plain_name(suffix),
        forall|i: int| 0 <= i < suffix.len() ==> suffix[i] != '.',
        base_name(p).len() > 0,
    ensures
        extension_of(add_dot_suffix(p, suffix)) == Some(suffix),
        strip_extension(add_dot_suffix(p, suffix)) == p,
{
    let s = add_dot_suffix(p, suffix);
    let lp = last_index_of(p, '/');
    lemma_last_index_of(p, '/');
    assert(s[p.len() as int] == '.');
    assert forall|j: int| p.len() < j < s.len() implies s[j] != '/' && (j > p.len() ==> s[j] != '.')
        by {
        assert(s[j] == suffix[j - p.len() - 1]);
    }
    if lp >= 0 {
        assert(s[lp] == p[lp]);
        assert forall|j: int| lp < j < s.len() implies s[j] != '/' by {
            if j < p.len() {
                assert(s[j] == p[j]);
            } else if j == p.len() {
                assert(s[j] == '.');
            } else {
                assert(s[j] == suffix[j - p.len() - 1]);
            }
        }
        lemma_last_index_of_unique(s, '/', lp);
    } else {
        assert forall|j: int| 0 <= j < s.len() implies s[j] != '/' by {
            if j < p.len() {
                assert(s[j] == p[j]);
            } else if j == p.len() {
                assert(s[j] == '.');
            } else {
                assert(s[j] == suffix[j - p.len() - 1]);
            }
        }
        lemma_last_index_of_none(s, '/');
    }
    assert(last_index_of(s, '/') == lp);
    let bp = base_name(p);
    let bs = base_name(s);
    assert(bs =~= bp + seq!['.'] + suffix);
    assert(bs[bp.len() as int] == '.');
    assert forall|j: int| bp.len() < j < bs.len() implies bs[j] != '.' by {
        assert(bs[j] == suffix[j - bp.len() - 1]);
    }
    lemma_last_index_of_unique(bs, '.', bp.len() as int);
    assert(bs.subrange(bp.len() as int + 1, bs.len() as int) =~= suffix);
    assert(extension_of(s) == Some(suffix));
    assert(strip_extension(s) =~= p);
}

/// Copy of a vector of copyable items.
pub fn dup<T: Copy>(v: &Vec<T>) -> (r: Vec<T>)
    ensures
        r@ == v@,
{
    let mut r: Vec<T> = Vec::new();
    let mut i: usize = 0;
    while i < v.len()
        invariant
            i <= v.len(),
            r@ == v@.subrange(0, i as int),
        decreases v.len() - i,
    {
        r.push(v[i]);
        i = i + 1;
    }
    assert(r@ =~= v@);
    r
}

/// Copy of the items of `v` at positions `from..to`.
pub fn copy_range<T: Copy>(v: &Vec<T>, from: usize, to: usize) -> (r: Vec<T>)
    requires
        from <= to <= v@.len(),
    ensures
        r@ == v@.subrange(from as int, to as int),
{
    let mut r: Vec<T> = Vec::new();
    let mut i: usize = from;
    while i < to
        invariant
            from <= i <= to <= v@.len(),
            r@ == v@.subrange(from as int, i as int),
        decreases to - i,
    {
        r.push(v[i]);
        assert(r@ =~= v@.subrange(from as int, i + 1 as int));
        i = i + 1;
    }
    r
}

/// Equality of two character vectors.
pub fn chars_eq(a: &Vec<char>, b: &Vec<char>) -> (r: bool)
    ensures
        r == (a@ == b@),
{
    if a.len() != b.len() {
        return false;
    }
    let mut i: usize = 0;
    while i < a.len()
        invariant
            i <= a.len(),
            a@.len() == b@.len(),
            forall|j: int| 0 <= j < i ==> a@[j] == b@[j],
        decreases a.len() - i,
    {
        if a[i] != b[i] {
            return false;
        }
        i = i + 1;
    }
    assert(a@ =~= b@);
    true
}

/// `prefix` joined to `name` with a separator, as `join` describes.
pub fn join_path(prefix: &Vec<char>, name: &Vec<char>) -> (r: Vec<char>)
    ensures
        r@ == join(prefix@, name@),
{
    let mut r = dup(prefix);
    if prefix.len() > 0 {
        r.push('/');
    }
    let mut i: usize = 0;
    while i < name.len()
        invariant
            i <= name.len(),
            r@ == join(prefix@, name@.subrange(0, i as int)),
        decreases name.len() - i,
    {
        r.push(name[i]);
        assert(r@ =~= join(prefix@, name@.subrange(0, i + 1 as int)));
        i = i + 1;
    }
    assert(r@ =~= join(prefix@, name@));
    r
}

/// Index of the last occurrence of `c`, as `last_index_of` describes.
pub fn find_last(v: &Vec<char>, c: char) -> (r: Option<usize>)
    ensures
        match r {
            Some(k) => k == last_index_of(v@, c),
            None => last_index_of(v@, c) == -1,
        },
{
    let mut i: usize = v.len();
    while i > 0
        invariant
            i <= v.len(),
            forall|j: int| i <= j < v@.len() ==> v@[j] != c,
        decreases i,
    {
        i = i - 1;
        if v[i] == c {
            proof {
                lemma_last_index_of_unique(v@, c, i as int);
            }
            return Some(i);
        }
    }
    proof {
        lemma_last_index_of(v@, c);
    }
    None
}

/// Everything before the last separator, as `parent_dir` describes.
pub fn parent_of(path: &Vec<char>) -> (r: Vec<char>)
    ensures
        r@ == parent_dir(path@),
{
    let cut: usize = match find_last(path, '/') {
        Some(k) => k,
        None => {
            let r: Vec<char> = Vec::new();
            assert(r@ =~= parent_dir(path@));
            return r;
        },
    };
    proof {
        lemma_last_index_of(path@, '/');
    }
    let mut r: Vec<char> = Vec::new();
    let mut i: usize = 0;
    while i < cut
        invariant
            i <= cut,
            cut < path@.len(),
            r@ == path@.subrange(0, i as int),
        decreases cut - i,
    {
        r.push(path[i]);
        i = i + 1;
    }
    assert(r@ =~= parent_dir(path@));
    r
}

} // verus!

//! Packing a list of root inputs into one sealed container and unpacking a
//! container back to its entry list. The traversal, the entry loop and the
//! collision handling are verified; only the single `mla` calls behind them are
//! trusted.

use vstd::prelude::*;

use crate::StoreError;
use crate::archive::{
    builder_add, builder_entries, builder_finalize, builder_new, container_entries, contains_name,
    map_of, reader_entries, reader_fetch, reader_names, reader_open,
};
use crate::paths::dup;
use crate::tree::{
    PackEntry, TreeNode, entry_views, lemma_root_entries_unique, pack_entries, pack_entry_list,
    paths_unique, root_entries,
};

verus! {

/// Round-trip identity at the mapping level: with pairwise distinct paths, the
/// mapping a sealed container holds is exactly the packed pairs — every packed
/// entry is stored under its own path with its own bytes, and nothing else is
/// stored. Together with the contracts of `pack_container` and
/// `unpack_container`, unpacking a packed set of roots yields exactly
/// `pack_entries` again: byte-identical contents at the same relative positions.
pub proof fn lemma_map_of_exact(es: Seq<(Seq<char>, Seq<u8>)>)
    requires
        paths_unique(es),
    ensures
        forall|i: int|
            0 <= i < es.len() ==> map_of(es).contains_key((#[trigger] es[i]).0) && map_of(es)[
                es[i].0
            ] == es[i].1,
        forall|k: Seq<char>| #[trigger] map_of(es).contains_key(k) ==> contains_name(es, k),
    decreases es,
{
    if es.len() > 0 {
        let front = es.drop_last();
        let last = es.last();
        lemma_map_of_exact(front);
        assert forall|i: int|
            0 <= i < es.len() implies map_of(es).contains_key((#[trigger] es[i]).0) && map_of(es)[
            es[i].0
        ] == es[i].1 by {
            if i < es.len() - 1 {
                assert(front[i] == es[i]);
                assert(es[i].0 != last.0);
            }
        }
        assert forall|k: Seq<char>| #[trigger] map_of(es).contains_key(k) implies contains_name(
            es,
            k,
        ) by {
            if k == last.0 {
                assert(es[es.len() - 1].0 == k);
            } else {
                assert(map_of(front).contains_key(k));
                let j = choose|j: int| 0 <= j < front.len() && #[trigger] front[j].0 == k;
                assert(es[j].0 == k);
            }
        }
    }
}

/// Packs the root inputs into one sealed container, entry by entry in traversal
/// order, and seals it exactly once. Succeeds exactly when the inputs map no
/// two files to one archive path; the sealed bytes then parse back to exactly
/// the packed mapping.
pub fn pack_container(roots: &Vec<TreeNode>) -> (r: Result<Vec<u8>, StoreError>)
    ensures
        r is Ok <==> paths_unique(pack_entries(roots@)),
        roots@.len() == 1 && roots@[0].wf() ==> r is Ok,
        r matches Ok(bytes) ==> container_entries(bytes@) == Some(map_of(pack_entries(roots@))),
        r matches Err(e) ==> e == StoreError::InvalidInput,
{
    proof {
        if roots@.len() == 1 && roots@[0].wf() {
            lemma_root_entries_unique(roots@[0]);
            assert(roots@.subrange(1, 1) =~= Seq::<TreeNode>::empty());
            assert(pack_entries(roots@.subrange(1, 1)) =~= Seq::<(Seq<char>, Seq<u8>)>::empty());
            assert(pack_entries(roots@) =~= root_entries(roots@[0]));
        }
    }
    let entries = pack_entry_list(roots);
    let ghost es = entry_views(entries@);
    let mut b = builder_new();
    let mut i: usize = 0;
    while i < entries.len()
        invariant
            i <= entries@.len(),
            es == entry_views(entries@),
            es == pack_entries(roots@),
            builder_entries(b) == es.subrange(0, i as int),
            paths_unique(es.subrange(0, i as int)),
            roots@.len() == 1 && roots@[0].wf() ==> paths_unique(es),
        decreases entries@.len() - i,
    {
        let e = &entries[i];
        proof {
            assert(es[i as int] == (entries@[i as int].0@, entries@[i as int].1@));
        }
        match builder_add(&mut b, &e.0, &e.1) {
            Ok(()) => {},
            Err(_) => {
                proof {
                    let j = choose|j: int|
                        0 <= j < i && #[trigger] es.subrange(0, i as int)[j].0 == es[i as int].0;
                    assert(es[j].0 == es[i as int].0);
                    assert(!paths_unique(es));
                }
                return Err(StoreError::InvalidInput);
            },
        }
        proof {
            assert(builder_entries(b) =~= es.subrange(0, i + 1 as int));
            assert forall|x: int, y: int|
                0 <= x < y < i + 1 implies (#[trigger] es.subrange(0, i + 1 as int)[x]).0 != (
                #[trigger] es.subrange(0, i + 1 as int)[y]).0 by {
                if y < i {
                    assert(es.subrange(0, i as int)[x].0 != es.subrange(0, i as int)[y].0);
                } else {
                    assert(!contains_name(es.subrange(0, i as int), es[i as int].0));
                    assert(es.subrange(0, i as int)[x].0 != es[i as int].0);
                }
            }
        }
        i = i + 1;
    }
    proof {
        assert(es.subrange(0, es.len() as int) =~= es);
    }
    let bytes = builder_finalize(b);
    Ok(bytes)
}

/// Unpacks container bytes back to the stored entries: enumerates the full set
/// of archive paths up front, then fetches each entry's bytes. Bytes that do
/// not parse as a container are refused as corrupt; on bytes that parse, a
/// successful result lists each stored mapping pair exactly once, and a damaged
/// entry surfaces as a read failure, fatal to the whole extraction.
pub fn unpack_container(bytes: &Vec<u8>) -> (r: Result<Vec<PackEntry>, StoreError>)
    ensures
        container_entries(bytes@) is None ==> r is Err && r->Err_0 == StoreError::CorruptContainer,
        container_entries(bytes@) is Some && r is Err ==> r->Err_0 == StoreError::IOFailure,
        r matches Ok(es) ==> {
            let m = container_entries(bytes@)->Some_0;
            let vs = entry_views(es@);
            &&& container_entries(bytes@) is Some
            &&& paths_unique(vs)
            &&& forall|i: int|
                0 <= i < vs.len() ==> m.contains_key(#[trigger] vs[i].0) && m[vs[i].0] == vs[i].1
            &&& forall|k: Seq<char>| #[trigger] m.contains_key(k) ==> contains_name(vs, k)
        },
{
    let mut rd = match reader_open(bytes) {
        Ok(rd) => rd,
        Err(_) => {
            return Err(StoreError::CorruptContainer);
        },
    };
    let ghost m = reader_entries(rd);
    let names = reader_names(&rd);
    let mut out: Vec<PackEntry> = Vec::new();
    let mut i: usize = 0;
    while i < names.len()
        invariant
            i <= names@.len(),
            out@.len() == i,
            m == reader_entries(rd),
            container_entries(bytes@) == Some(m),
            forall|j: int| 0 <= j < names@.len() ==> m.contains_key(#[trigger] names@[j]@),
            forall|j: int, k: int| 0 <= j < k < names@.len() ==> names@[j]@ != names@[k]@,
            forall|k: Seq<char>|
                #[trigger] m.contains_key(k) ==> exists|j: int|
                    0 <= j < names@.len() && names@[j]@ == k,
            forall|j: int|
                0 <= j < i ==> (#[trigger] out@[j]).0@ == names@[j]@ && out@[j].1@ == m[names@[j]@],
        decreases names@.len() - i,
    {
        match reader_fetch(&mut rd, &names[i]) {
            Ok(d) => {
                let e = (dup(&names[i]), d);
                out.push(e);
            },
            Err(e) => {
                return Err(e);
            },
        }
        i = i + 1;
    }
    proof {
        let vs = entry_views(out@);
        assert forall|x: int, y: int| 0 <= x < y < vs.len() implies vs[x].0 != vs[y].0 by {
            assert(vs[x].0 == names@[x]@ && vs[y].0 == names@[y]@);
        }
        assert forall|k: Seq<char>| #[trigger] m.contains_key(k) implies contains_name(vs, k) by {
            let j = choose|j: int| 0 <= j < names@.len() && names@[j]@ == k;
            assert(vs[j].0 == k);
        }
    }
    Ok(out)
}

} // verus!

//! The tree packer's core: a directory tree and the traversal that maps every
//! regular file in it to a canonical slash-separated archive path. The path of
//! a file is the chain of directory names from the declared root down to the
//! file, joined by `/`; the root's own name is not part of it, so entries name
//! positions relative to the root.

use vstd::prelude::*;

use crate::paths::{dup, is_plain_name, join, join_path};

verus! {

/// One entry bound for a container: an archive path and the file's bytes.
pub type PackEntry = (Vec<char>, Vec<u8>);

/// A directory tree observed at traversal time: regular files with their bytes
/// and directories with their children, nothing else.
pub enum TreeNode {
    /// A regular file with its name and content.
    File { name: Vec<char>, content: Vec<u8> },
    /// A directory with its name and its children in listing order.
    Dir { name: Vec<char>, children: Vec<TreeNode> },
}

impl TreeNode {
    /// The entry's own name.
    pub open spec fn name_view(self) -> Seq<char> {
        match self {
            TreeNode::File { name, .. } => name@,
            TreeNode::Dir { name, .. } => name@,
        }
    }

    /// Well-formed tree: every name is non-empty and separator-free, and the
    /// children of one directory have pairwise distinct names.
    pub open spec fn wf(self) -> bool
        decreases self,
    {
        match self {
            TreeNode::File { name, .. } => is_plain_name(name@),
            TreeNode::Dir { name, children } => {
                &&& is_plain_name(name@)
                &&& forall|i: int| 0 <= i < children@.len() ==> children@[i].wf()
                &&& forall|i: int, j: int|
                    0 <= i < j < children@.len()
                        ==> children@[i].name_view() != children@[j].name_view()
            },
        }
    }
}

/// The entries of one node seen under an accumulated path prefix: a file is
/// stored at `join(prefix, name)`; a directory contributes its children's
/// entries under the prefix extended by its own name.
pub open spec fn entries_of(prefix: Seq<char>, node: TreeNode) -> Seq<(Seq<char>, Seq<u8>)>
    decreases node,
{
    match node {
        TreeNode::File { name, content } => seq![(join(prefix, name@), content@)],
        TreeNode::Dir { name, children } => entries_of_list(join(prefix, name@), children@),
    }
}

/// The entries of a list of sibling nodes, in listing order.
pub open spec fn entries_of_list(prefix: Seq<char>, nodes: Seq<TreeNode>) -> Seq<
    (Seq<char>, Seq<u8>),
>
    decreases nodes,
{
    if nodes.len() == 0 {
        Seq::empty()
    } else {
        entries_of(prefix, nodes[0]) + entries_of_list(prefix, nodes.subrange(1, nodes.len() as int))
    }
}

/// The entries of one root input. A root directory's own name is excluded, so
/// its files are stored at their positions relative to the root; a root that is
/// itself a file is stored bare at the top level under its base name.
pub open spec fn root_entries(node: TreeNode) -> Seq<(Seq<char>, Seq<u8>)> {
    match node {
        TreeNode::File { name, content } => seq![(name@, content@)],
        TreeNode::Dir { children, .. } => entries_of_list(Seq::<char>::empty(), children@),
    }
}

/// The entries of all root inputs, in input order.
pub open spec fn pack_entries(roots: Seq<TreeNode>) -> Seq<(Seq<char>, Seq<u8>)>
    decreases roots,
{
    if roots.len() == 0 {
        Seq::empty()
    } else {
        root_entries(roots[0]) + pack_entries(roots.subrange(1, roots.len() as int))
    }
}

/// The mathematical value of a built entry list.
pub open spec fn entry_views(es: Seq<PackEntry>) -> Seq<(Seq<char>, Seq<u8>)> {
    es.map_values(|e: PackEntry| (e.0@, e.1@))
}

/// Extending a sibling list by one node appends that node's entries.
pub proof fn lemma_entries_of_list_snoc(prefix: Seq<char>, nodes: Seq<TreeNode>, i: int)
    requires
        0 <= i < nodes.len(),
    ensures
        entries_of_list(prefix, nodes.subrange(0, i + 1)) == entries_of_list(
            prefix,
            nodes.subrange(0, i),
        ) + entries_of(prefix, nodes[i]),
    decreases i,
{
    let a = nodes.subrange(0, i + 1);
    let b = nodes.subrange(0, i);
    if i == 0 {
        assert(a.subrange(1, 1) =~= Seq::<TreeNode>::empty());
        assert(entries_of_list(prefix, a.subrange(1, 1)) =~= Seq::<(Seq<char>, Seq<u8>)>::empty());
        assert(entries_of_list(prefix, a) =~= entries_of_list(prefix, b) + entries_of(
            prefix,
            nodes[0],
        ));
    } else {
        let t = nodes.subrange(1, nodes.len() as int);
        lemma_entries_of_list_snoc(prefix, t, i - 1);
        assert(a.subrange(1, i + 1) =~= t.subrange(0, i));
        assert(b.subrange(1, i) =~= t.subrange(0, i - 1));
        assert(entries_of_list(prefix, a) =~= entries_of_list(prefix, b) + entries_of(
            prefix,
            nodes[i],
        ));
    }
}

/// Extending the root list by one root appends that root's entries.
pub proof fn lemma_pack_entries_snoc(roots: Seq<TreeNode>, i: int)
    requires
        0 <= i < roots.len(),
    ensures
        pack_entries(roots.subrange(0, i + 1)) == pack_entries(roots.subrange(0, i))
            + root_entries(roots[i]),
    decreases i,
{
    let a = roots.subrange(0, i + 1);
    let b = roots.subrange(0, i);
    if i == 0 {
        assert(a.subrange(1, 1) =~= Seq::<TreeNode>::empty());
        assert(pack_entries(a.subrange(1, 1)) =~= Seq::<(Seq<char>, Seq<u8>)>::empty());
        assert(pack_entries(a) =~= pack_entries(b) + root_entries(roots[0]));
    } else {
        let t = roots.subrange(1, roots.len() as int);
        lemma_pack_entries_snoc(t, i - 1);
        assert(a.subrange(1, i + 1) =~= t.subrange(0, i));
        assert(b.subrange(1, i) =~= t.subrange(0, i - 1));
        assert(pack_entries(a) =~= pack_entries(b) + root_entries(roots[i]));
    }
}

/// Pairwise distinct archive paths: no two entries collide.
pub open spec fn paths_unique(es: Seq<(Seq<char>, Seq<u8>)>) -> bool {
    forall|i: int, j: int| 0 <= i < j < es.len() ==> es[i].0 != es[j].0
}

/// Index of the first separator in `s`, or `s.len()` when there is none.
pub open spec fn first_slash(s: Seq<char>) -> int
    decreases s.len(),
{
    if s.len() == 0 {
        0
    } else if s[0] == '/' {
        0
    } else {
        1 + first_slash(s.subrange(1, s.len() as int))
    }
}

/// `path` lies under the directory `prefix`: the empty prefix covers every
/// path; a non-empty one must be a proper prefix followed by a separator.
pub open spec fn under(path: Seq<char>, prefix: Seq<char>) -> bool {
    if prefix.len() == 0 {
        true
    } else {
        path.len() > prefix.len() && path.subrange(0, prefix.len() as int) == prefix
            && path[prefix.len() as int] == '/'
    }
}

/// The first path component of `path` after the directory `prefix`.
pub open spec fn name_at(path: Seq<char>, prefix: Seq<char>) -> Seq<char> {
    let off: int = if prefix.len() == 0 {
        0
    } else {
        prefix.len() as int + 1
    };
    let rest = path.subrange(off, path.len() as int);
    rest.subrange(0, first_slash(rest))
}

/// A plain name followed by nothing, or by a separator and more, reaches its
/// own length before the first separator.
pub proof fn lemma_first_slash_of_plain(n: Seq<char>, t: Seq<char>)
    requires
        is_plain_name(n),
        t.len() == 0 || t[0] == '/',
    ensures
        first_slash(n + t) == n.len(),
    decreases n.len(),
{
    let s = n + t;
    assert(s[0] == n[0]);
    assert(n[0] != '/');
    if n.len() == 1 {
        assert(s.subrange(1, s.len() as int) =~= t);
        assert(first_slash(t) == 0);
    } else {
        let n1 = n.subrange(1, n.len() as int);
        assert forall|i: int| 0 <= i < n1.len() implies n1[i] != '/' by {
            assert(n1[i] == n[i + 1]);
        }
        lemma_first_slash_of_plain(n1, t);
        assert(s.subrange(1, s.len() as int) =~= n1 + t);
    }
}

/// A path that is `join(prefix, n)` itself, or lies under it, lies under
/// `prefix` and has `n` as its first component after `prefix`.
pub proof fn lemma_under_join(prefix: Seq<char>, n: Seq<char>, path: Seq<char>)
    requires
        is_plain_name(n),
        path == join(prefix, n) || under(path, join(prefix, n)),
    ensures
        under(path, prefix),
        name_at(path, prefix) == n,
{
    let jn = join(prefix, n);
    let tail = path.subrange(jn.len() as int, path.len() as int);
    assert(path =~= jn + tail);
    if prefix.len() > 0 {
        assert(path.subrange(0, prefix.len() as int) =~= prefix);
        assert(path[prefix.len() as int] == '/');
    }
    let off: int = if prefix.len() == 0 {
        0
    } else {
        prefix.len() as int + 1
    };
    let rest = path.subrange(off, path.len() as int);
    assert(rest =~= n + tail);
    lemma_first_slash_of_plain(n, tail);
    assert(name_at(path, prefix) =~= n);
}

/// Every entry of a well-formed node lies under the prefix, and its first
/// component after the prefix is the node's own name.
pub proof fn lemma_entries_under(prefix: Seq<char>, node: TreeNode)
    requires
        node.wf(),
    ensures
        forall|k: int|
            0 <= k < entries_of(prefix, node).len() ==> under(
                (#[trigger] entries_of(prefix, node)[k]).0,
                prefix,
            ) && name_at(entries_of(prefix, node)[k].0, prefix) == node.name_view(),
    decreases node,
{
    match node {
        TreeNode::File { name, .. } => {
            lemma_under_join(prefix, name@, join(prefix, name@));
        },
        TreeNode::Dir { name, children } => {
            let jn = join(prefix, name@);
            let es = entries_of(prefix, node);
            assert(es == entries_of_list(jn, children@));
            assert forall|i: int| 0 <= i < children@.len() implies (#[trigger] children@[i]).wf() by {}
            lemma_entries_under_list(jn, children@);
            assert forall|k: int| 0 <= k < es.len() implies under((#[trigger] es[k]).0, prefix)
                && name_at(es[k].0, prefix) == node.name_view() by {
                assert(under(entries_of_list(jn, children@)[k].0, jn));
                lemma_under_join(prefix, name@, es[k].0);
            }
        },
    }
}

/// Every entry of a well-formed sibling list lies under the prefix, and its
/// first component after the prefix is the name of one of the siblings.
pub proof fn lemma_entries_under_list(prefix: Seq<char>, nodes: Seq<TreeNode>)
    requires
        forall|i: int| 0 <= i < nodes.len() ==> (#[trigger] nodes[i]).wf(),
    ensures
        forall|k: int|
            0 <= k < entries_of_list(prefix, nodes).len() ==> under(
                (#[trigger] entries_of_list(prefix, nodes)[k]).0,
                prefix,
            ) && exists|i: int|
                0 <= i < nodes.len() && name_at(entries_of_list(prefix, nodes)[k].0, prefix) == (
                #[trigger] nodes[i]).name_view(),
    decreases nodes,
{
    if nodes.len() > 0 {
        let e0 = entries_of(prefix, nodes[0]);
        let tail = nodes.subrange(1, nodes.len() as int);
        let er = entries_of_list(prefix, tail);
        let es = entries_of_list(prefix, nodes);
        assert forall|i: int| 0 <= i < tail.len() implies (#[trigger] tail[i]).wf() by {
            assert(tail[i] == nodes[i + 1]);
        }
        lemma_entries_under(prefix, nodes[0]);
        lemma_entries_under_list(prefix, tail);
        assert forall|k: int| 0 <= k < es.len() implies under((#[trigger] es[k]).0, prefix)
            && exists|i: int|
            0 <= i < nodes.len() && name_at(es[k].0, prefix) == (#[trigger] nodes[i]).name_view() by {
            if k < e0.len() {
                assert(es[k] == e0[k]);
                assert(name_at(es[k].0, prefix) == nodes[0].name_view());
            } else {
                assert(es[k] == er[k - e0.len()]);
                let i = choose|i: int|
                    0 <= i < tail.len() && name_at(er[k - e0.len()].0, prefix) == (
                    #[trigger] tail[i]).name_view();
                assert(tail[i] == nodes[i + 1]);
                assert(name_at(es[k].0, prefix) == nodes[i + 1].name_view());
            }
        }
    }
}

/// The entries of a well-formed node have pairwise distinct archive paths.
pub proof fn lemma_entries_unique(prefix: Seq<char>, node: TreeNode)
    requires
        node.wf(),
    ensures
        paths_unique(entries_of(prefix, node)),
    decreases node,
{
    match node {
        TreeNode::File { .. } => {},
        TreeNode::Dir { name, children } => {
            lemma_entries_unique_list(join(prefix, name@), children@);
        },
    }
}

/// The entries of well-formed siblings with pairwise distinct names have
/// pairwise distinct archive paths: entries of different siblings differ in
/// their first component, entries of one sibling differ by induction.
pub proof fn lemma_entries_unique_list(prefix: Seq<char>, nodes: Seq<TreeNode>)
    requires
        forall|i: int| 0 <= i < nodes.len() ==> (#[trigger] nodes[i]).wf(),
        forall|i: int, j: int|
            0 <= i < j < nodes.len() ==> nodes[i].name_view() != nodes[j].name_view(),
    ensures
        paths_unique(entries_of_list(prefix, nodes)),
    decreases nodes,
{
    if nodes.len() > 0 {
        let e0 = entries_of(prefix, nodes[0]);
        let tail = nodes.subrange(1, nodes.len() as int);
        let er = entries_of_list(prefix, tail);
        let es = entries_of_list(prefix, nodes);
        assert forall|i: int| 0 <= i < tail.len() implies (#[trigger] tail[i]).wf() by {
            assert(tail[i] == nodes[i + 1]);
        }
        assert forall|i: int, j: int|
            0 <= i < j < tail.len() implies tail[i].name_view() != tail[j].name_view() by {
            assert(tail[i] == nodes[i + 1] && tail[j] == nodes[j + 1]);
        }
        lemma_entries_unique(prefix, nodes[0]);
        lemma_entries_unique_list(prefix, tail);
        lemma_entries_under(prefix, nodes[0]);
        lemma_entries_under_list(prefix, tail);
        assert forall|x: int, y: int| 0 <= x < y < es.len() implies (#[trigger] es[x]).0 != (
        #[trigger] es[y]).0 by {
            if y < e0.len() {
                assert(es[x] == e0[x] && es[y] == e0[y]);
                assert(e0[x].0 != e0[y].0);
            } else if x >= e0.len() {
                assert(es[x] == er[x - e0.len()] && es[y] == er[y - e0.len()]);
                assert(er[x - e0.len()].0 != er[y - e0.len()].0);
            } else {
                assert(es[x] == e0[x] && es[y] == er[y - e0.len()]);
                assert(name_at(es[x].0, prefix) == nodes[0].name_view());
                let i = choose|i: int|
                    0 <= i < tail.len() && name_at(er[y - e0.len()].0, prefix) == (
                    #[trigger] tail[i]).name_view();
                assert(tail[i] == nodes[i + 1]);
                assert(nodes[0].name_view() != nodes[i + 1].name_view());
            }
        }
    }
}

/// The first separator comes no earlier than the start and no later than the
/// end of the sequence.
pub proof fn lemma_first_slash_bounds(s: Seq<char>)
    ensures
        0 <= first_slash(s) <= s.len(),
    decreases s.len(),
{
    if s.len() > 0 && s[0] != '/' {
        lemma_first_slash_bounds(s.subrange(1, s.len() as int));
    }
}

/// Archive paths are relative: no packed entry's path is empty or begins with
/// the separator.
pub proof fn lemma_root_paths_relative(node: TreeNode)
    requires
        node.wf(),
    ensures
        forall|k: int|
            0 <= k < root_entries(node).len() ==> (#[trigger] root_entries(node)[k]).0.len() > 0
                && root_entries(node)[k].0[0] != '/',
{
    let es = root_entries(node);
    match node {
        TreeNode::File { .. } => {},
        TreeNode::Dir { name, children } => {
            let empty = Seq::<char>::empty();
            assert forall|i: int| 0 <= i < children@.len() implies (#[trigger] children@[i]).wf()
                by {}
            lemma_entries_under_list(empty, children@);
            assert forall|k: int| 0 <= k < es.len() implies (#[trigger] es[k]).0.len() > 0
                && es[k].0[0] != '/' by {
                let p = es[k].0;
                let i = choose|i: int|
                    0 <= i < children@.len() && name_at(p, empty) == (
                    #[trigger] children@[i]).name_view();
                let n = children@[i].name_view();
                lemma_first_slash_bounds(p);
                assert(p.subrange(0, p.len() as int) =~= p);
                assert(p.subrange(0, first_slash(p)) == n);
                assert(n.len() > 0);
                assert(p[0] == n[0]);
                assert(n[0] != '/');
            }
        },
    }
}

/// Packing one well-formed input tree never produces two entries with the same
/// archive path.
pub proof fn lemma_root_entries_unique(node: TreeNode)
    requires
        node.wf(),
    ensures
        paths_unique(root_entries(node)),
{
    match node {
        TreeNode::File { .. } => {},
        TreeNode::Dir { name, children } => {
            lemma_entries_unique_list(Seq::<char>::empty(), children@);
        },
    }
}

/// Depth-first pre-order traversal of one node: appends to `out` exactly the
/// entries of `entries_of`. The prefix is passed down, never mutated in place,
/// so sibling subtrees cannot inherit each other's prefix.
pub fn collect_entries(prefix: &Vec<char>, node: &TreeNode, out: &mut Vec<PackEntry>)
    ensures
        entry_views(final(out)@) == entry_views(old(out)@) + entries_of(prefix@, *node),
    decreases *node,
{
    match node {
        TreeNode::File { name, content } => {
            let e = (join_path(prefix, name), dup(content));
            out.push(e);
            proof {
                assert(entry_views(out@) =~= entry_views(old(out)@) + entries_of(prefix@, *node));
            }
        },
        TreeNode::Dir { name, children } => {
            let p = join_path(prefix, name);
            proof {
                assert(decreases_to!(*node => *children));
            }
            collect_list(&p, children, out);
        },
    }
}

/// Traversal of a sibling list in listing order.
pub fn collect_list(prefix: &Vec<char>, nodes: &Vec<TreeNode>, out: &mut Vec<PackEntry>)
    ensures
        entry_views(final(out)@) == entry_views(old(out)@) + entries_of_list(prefix@, nodes@),
    decreases *nodes,
{
    let ghost base = entry_views(out@);
    let mut i: usize = 0;
    while i < nodes.len()
        invariant
            i <= nodes@.len(),
            entry_views(out@) == base + entries_of_list(prefix@, nodes@.subrange(0, i as int)),
            base == entry_views(old(out)@),
        decreases nodes@.len() - i,
    {
        proof {
            assert(decreases_to!(*nodes => nodes@[i as int]));
        }
        collect_entries(prefix, &nodes[i], out);
        proof {
            lemma_entries_of_list_snoc(prefix@, nodes@, i as int);
        }
        i = i + 1;
    }
    proof {
        assert(nodes@.subrange(0, nodes@.len() as int) =~= nodes@);
    }
}

/// The entries of one root input, appended to `out`.
pub fn collect_root_entries(node: &TreeNode, out: &mut Vec<PackEntry>)
    ensures
        entry_views(final(out)@) == entry_views(old(out)@) + root_entries(*node),
{
    match node {
        TreeNode::File { name, content } => {
            let e = (dup(name), dup(content));
            out.push(e);
            proof {
                assert(entry_views(out@) =~= entry_views(old(out)@) + root_entries(*node));
            }
        },
        TreeNode::Dir { children, .. } => {
            let empty: Vec<char> = Vec::new();
            collect_list(&empty, children, out);
        },
    }
}

/// The full entry list of all root inputs, in traversal order.
pub fn pack_entry_list(roots: &Vec<TreeNode>) -> (r: Vec<PackEntry>)
    ensures
        entry_views(r@) == pack_entries(roots@),
{
    let mut out: Vec<PackEntry> = Vec::new();
    let mut i: usize = 0;
    proof {
        assert(entry_views(out@) =~= Seq::<(Seq<char>, Seq<u8>)>::empty());
    }
    while i < roots.len()
        invariant
            i <= roots@.len(),
            entry_views(out@) == pack_entries(roots@.subrange(0, i as int)),
        decreases roots@.len() - i,
    {
        collect_root_entries(&roots[i], &mut out);
        proof {
            lemma_pack_entries_snoc(roots@, i as int);
        }
        i = i + 1;
    }
    proof {
        assert(roots@.subrange(0, roots@.len() as int) =~= roots@);
    }
    out
}

} // verus!

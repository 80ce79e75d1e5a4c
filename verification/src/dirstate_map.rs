//! The in-memory dirstate tree: one node per path, children sorted by base
//! name, leaves carrying entries. The tree is read out of a v2 data file
//! and written back either as a fresh data file or as an append to the old
//! one, reusing the unchanged regions of the old file by offset.

use vstd::prelude::*;
use crate::entry::DirstateEntry;
use crate::errors::DirstateError;
use crate::on_disk::Timestamp;

verus! {

/// What a node carries: a dirstate entry, a cached directory mtime, or
/// nothing (an intermediate directory).
#[derive(Debug, Clone, Copy)]
pub enum NodeData {
    Entry(DirstateEntry),
    CachedDirectory(Timestamp),
    NoData,
}

impl NodeData {
    pub fn has_entry(&self) -> (r: bool)
        ensures
            r == (self matches NodeData::Entry(_)),
    {
        match self {
            NodeData::Entry(_) => true,
            _ => false,
        }
    }
}

/// One node of the in-memory tree.
///
/// The `*_offset` fields remember where the node's pieces live in the data
/// file it was read from, so that an append can reuse them; they are `None`
/// for pieces that were never on disk or were modified since.
#[derive(Debug)]
pub struct Node {
    pub full_path: Vec<u8>,
    /// In bytes from the start of `full_path`.
    pub base_name_start: usize,
    pub copy_source: Option<Vec<u8>>,
    pub data: NodeData,
    pub descendants_with_entry_count: u32,
    pub tracked_descendants_count: u32,
    pub children: Vec<Node>,
    pub path_offset: Option<u32>,
    pub copy_offset: Option<u32>,
    pub children_offsets: Option<(u32, u32)>,
}

/// The in-memory dirstate map.
#[derive(Debug)]
pub struct DirstateMap {
    pub root: Vec<Node>,
    pub root_offsets: Option<(u32, u32)>,
    pub nodes_with_entry_count: u32,
    pub nodes_with_copy_source_count: u32,
    pub ignore_patterns_hash: Vec<u8>,
    pub unreachable_bytes: u32,
    pub on_disk_len: usize,
}

/// The base name of a node: its full path after the base-name start.
pub open spec fn base_name(n: Node) -> Seq<u8> {
    n.full_path@.skip(n.base_name_start as int)
}

/// Strict lexicographic order on byte strings.
pub open spec fn lex_lt(a: Seq<u8>, b: Seq<u8>) -> bool
    decreases a.len(),
{
    if b.len() == 0 {
        false
    } else if a.len() == 0 {
        true
    } else if a[0] < b[0] {
        true
    } else if a[0] > b[0] {
        false
    } else {
        lex_lt(a.skip(1), b.skip(1))
    }
}

pub proof fn lemma_lex_trichotomy(a: Seq<u8>, b: Seq<u8>)
    ensures
        lex_lt(a, b) || lex_lt(b, a) || a == b,
    decreases a.len(),
{
    if a.len() > 0 && b.len() > 0 && a[0] == b[0] {
        lemma_lex_trichotomy(a.skip(1), b.skip(1));
        if a.skip(1) == b.skip(1) {
            assert(a.len() == b.len());
            assert forall|i: int| 0 <= i < a.len() implies a[i] == b[i] by {
                if i > 0 {
                    assert(a.skip(1)[i - 1] == b.skip(1)[i - 1]);
                }
            }
            assert(a =~= b);
        }
    }
}

pub proof fn lemma_lex_irrefl(a: Seq<u8>)
    ensures
        !lex_lt(a, a),
    decreases a.len(),
{
    if a.len() > 0 {
        lemma_lex_irrefl(a.skip(1));
    }
}

pub proof fn lemma_lex_trans(a: Seq<u8>, b: Seq<u8>, c: Seq<u8>)
    requires
        lex_lt(a, b),
        lex_lt(b, c),
    ensures
        lex_lt(a, c),
    decreases a.len(),
{
    if a.len() > 0 && b.len() > 0 && c.len() > 0 && a[0] == b[0] && b[0] == c[0] {
        lemma_lex_trans(a.skip(1), b.skip(1), c.skip(1));
    }
}

/// Children are kept strictly ascending by base name at all times, so that
/// iteration is deterministic and the serialized arrays support binary
/// search.
pub open spec fn children_sorted(ns: Seq<Node>) -> bool {
    forall|i: int, j: int|
        0 <= i < j < ns.len() ==> lex_lt(base_name(#[trigger] ns[i]), base_name(#[trigger] ns[j]))
}

/// Structural well-formedness of a node: the base name is a non-empty
/// suffix of the path, the path and copy source fit the on-disk width
/// limits, and the children are sorted and themselves well-formed.
pub open spec fn node_wf(n: Node) -> bool
    decreases n,
{
    &&& n.base_name_start < n.full_path@.len()
    &&& n.full_path@.len() <= 0xFFFF
    &&& (match n.copy_source {
        Some(c) => c@.len() <= 0xFFFF,
        None => true,
    })
    &&& (match n.data {
        NodeData::Entry(e) => crate::entry::spec_any_tracked(e),
        _ => true,
    })
    &&& n.children@.len() <= 0xFFFF_FFFF
    &&& children_sorted(n.children@)
    &&& forall|i: int| 0 <= i < n.children@.len() ==> node_wf(#[trigger] n.children@[i])
}

pub open spec fn nodes_wf(ns: Seq<Node>) -> bool {
    &&& ns.len() <= 0xFFFF_FFFF
    &&& children_sorted(ns)
    &&& forall|i: int| 0 <= i < ns.len() ==> node_wf(#[trigger] ns[i])
}

pub open spec fn map_wf(m: DirstateMap) -> bool {
    nodes_wf(m.root@) && m.ignore_patterns_hash@.len() == 20
}

/// What `get` finds for a path: scan the level for the node naming the
/// path, or descend into the node whose path is a directory prefix of it.
pub open spec fn spec_find_at(ns: Seq<Node>, i: int, path: Seq<u8>) -> Option<NodeData>
    decreases ns, ns.len() - i,
{
    if i < 0 || i >= ns.len() {
        None
    } else if ns[i].full_path@ == path {
        Some(ns[i].data)
    } else if crate::filepatterns::spec_starts_with(path, ns[i].full_path@ + seq![47u8]) {
        spec_find_at(ns[i].children@, 0, path)
    } else {
        spec_find_at(ns, i + 1, path)
    }
}

impl DirstateMap {
    /// An empty map over (possibly empty) on-disk data.
    pub fn empty(on_disk: &[u8]) -> (r: Self)
        ensures
            map_wf(r),
            r.root@.len() == 0,
            r.root_offsets is None,
            r.nodes_with_entry_count == 0,
            r.nodes_with_copy_source_count == 0,
            r.unreachable_bytes == 0,
            r.on_disk_len == on_disk@.len(),
            r.ignore_patterns_hash@ == Seq::new(20nat, |i: int| 0u8),
    {
        let mut hash: Vec<u8> = Vec::new();
        let mut k: usize = 0;
        while k < 20
            invariant
                k <= 20,
                hash@.len() == k,
                forall|i: int| 0 <= i < k ==> hash@[i] == 0u8,
            decreases 20 - k,
        {
            hash.push(0);
            k = k + 1;
        }
        proof {
            assert(hash@ =~= Seq::new(20nat, |i: int| 0u8));
        }
        DirstateMap {
            root: Vec::new(),
            root_offsets: None,
            nodes_with_entry_count: 0,
            nodes_with_copy_source_count: 0,
            ignore_patterns_hash: hash,
            unreachable_bytes: 0,
            on_disk_len: on_disk.len(),
        }
    }

    /// The entry recorded for `key`, if that path has a node carrying one.
    pub fn get(&self, key: &[u8]) -> (r: Option<DirstateEntry>)
        ensures
            r == (match spec_find_at(self.root@, 0, key@) {
                Some(NodeData::Entry(e)) => Some(e),
                _ => None::<DirstateEntry>,
            }),
    {
        let mut cur: &Vec<Node> = &self.root;
        let mut i: usize = 0;
        loop
            invariant
                i <= cur@.len(),
                spec_find_at(self.root@, 0, key@) == spec_find_at(cur@, i as int, key@),
            decreases cur, cur@.len() - i,
        {
            if i >= cur.len() {
                return None;
            }
            let node = &cur[i];
            if crate::filepatterns::bytes_eq(node.full_path.as_slice(), key) {
                match &node.data {
                    NodeData::Entry(e) => {
                        return Some(*e);
                    },
                    _ => {
                        return None;
                    },
                }
            }
            let mut dir: Vec<u8> = vstd::slice::slice_to_vec(node.full_path.as_slice());
            dir.push(47);
            proof {
                assert(dir@ =~= node.full_path@ + seq![47u8]);
            }
            if crate::filepatterns::starts_with_bytes(key, dir.as_slice()) {
                cur = &node.children;
                i = 0;
            } else {
                i = i + 1;
            }
        }
    }

    pub fn contains_key(&self, key: &[u8]) -> (r: bool)
        ensures
            r == (match spec_find_at(self.root@, 0, key@) {
                Some(NodeData::Entry(_)) => true,
                _ => false,
            }),
    {
        match self.get(key) {
            Some(_) => true,
            None => false,
        }
    }

    /// Records `entry` for `filename`, creating the node and any missing
    /// ancestor nodes, keeping every children list sorted, and marking the
    /// touched levels as no longer reusable by an appending write.
    ///
    /// The cached counters are not adjusted here: they are recomputed by
    /// the higher-level file operations that know the semantic change.
    pub fn set_entry(&mut self, filename: &[u8], entry: DirstateEntry) -> (r: Result<
        (),
        DirstateError,
    >)
        requires
            map_wf(*old(self)),
            valid_path(filename@),
            crate::entry::spec_any_tracked(entry),
        ensures
            map_wf(*final(self)),
            final(self).on_disk_len == old(self).on_disk_len,
            final(self).nodes_with_entry_count == old(self).nodes_with_entry_count,
            final(self).nodes_with_copy_source_count == old(self).nodes_with_copy_source_count,
            final(self).unreachable_bytes == old(self).unreachable_bytes,
            final(self).ignore_patterns_hash@ == old(self).ignore_patterns_hash@,
            r is Ok <==> spec_set_ok(old(self).root@, filename@, 0),
            r is Ok ==> final(self).root_offsets is None,
            r is Ok ==> spec_has_node(final(self).root@, 0, filename@, NodeData::Entry(entry)),
    {
        let mut root: Vec<Node> = Vec::new();
        core::mem::swap(&mut root, &mut self.root);
        let (new_root, ok) = set_in(root, filename, 0, entry);
        self.root = new_root;
        if ok {
            self.root_offsets = None;
            Ok(())
        } else {
            Err(DirstateError::TooLarge)
        }
    }

    /// How many nodes carry an entry, as cached in the tree metadata.
    pub fn len(&self) -> (r: usize)
        ensures
            r == self.nodes_with_entry_count,
    {
        self.nodes_with_entry_count as usize
    }

    /// How many nodes carry a copy source, as cached in the tree metadata.
    pub fn copy_map_len(&self) -> (r: usize)
        ensures
            r == self.nodes_with_copy_source_count,
    {
        self.nodes_with_copy_source_count as usize
    }

    /// Forgets every entry: an empty tree with zeroed counters, no longer
    /// tied to any on-disk data.
    pub fn clear(&mut self)
        requires
            map_wf(*old(self)),
        ensures
            map_wf(*final(self)),
            final(self).root@.len() == 0,
            final(self).nodes_with_entry_count == 0,
            final(self).nodes_with_copy_source_count == 0,
            final(self).unreachable_bytes == 0,
            final(self).on_disk_len == 0,
            final(self).ignore_patterns_hash@ == old(self).ignore_patterns_hash@,
    {
        self.root = Vec::new();
        self.root_offsets = None;
        self.nodes_with_entry_count = 0;
        self.nodes_with_copy_source_count = 0;
        self.unreachable_bytes = 0;
        self.on_disk_len = 0;
    }

    /// The full paths of all tracked files, in tree (pre-)order.
    pub fn tracked_paths(&self) -> (r: Vec<Vec<u8>>)
        requires
            map_wf(*self),
        ensures
            r.deep_view() == spec_tracked_paths(self.root@, 0),
    {
        let mut out: Vec<Vec<u8>> = Vec::new();
        proof {
            assert(out.deep_view() =~~= Seq::<Seq<u8>>::empty());
        }
        collect_tracked(&self.root, &mut out);
        out
    }
}

/// Some node among `ns[i ..]` or their descendants names `path` and
/// carries `d`.
pub open spec fn spec_has_node(ns: Seq<Node>, i: int, path: Seq<u8>, d: NodeData) -> bool
    decreases ns, ns.len() - i,
{
    if i < 0 || i >= ns.len() {
        false
    } else {
        (ns[i].full_path@ == path && ns[i].data == d) || spec_has_node(ns[i].children@, 0, path, d)
            || spec_has_node(ns, i + 1, path, d)
    }
}

/// A witness at one index carries over to the whole level: if the subtree
/// rooted at `ns[k]` alone has the node, the level has it.
proof fn lemma_has_node_lift(ns: Seq<Node>, k: int, path: Seq<u8>, d: NodeData)
    requires
        0 <= k < ns.len(),
        spec_has_node(seq![ns[k]], 0, path, d),
    ensures
        spec_has_node(ns, 0, path, d),
{
    lemma_has_node_from(ns, 0, k, path, d);
}

proof fn lemma_has_node_from(ns: Seq<Node>, i: int, k: int, path: Seq<u8>, d: NodeData)
    requires
        0 <= i <= k < ns.len(),
        spec_has_node(seq![ns[k]], 0, path, d),
    ensures
        spec_has_node(ns, i, path, d),
    decreases k - i,
{
    if i == k {
        let single = seq![ns[k]];
        assert(single[0] == ns[k]);
        assert(!spec_has_node(single, 1, path, d));
        assert((ns[k].full_path@ == path && ns[k].data == d) || spec_has_node(
            ns[k].children@,
            0,
            path,
            d,
        ));
    } else {
        lemma_has_node_from(ns, i + 1, k, path, d);
    }
}

/// A path the tree can record: non-empty, within the on-disk length limit,
/// with no leading, trailing or doubled slash.
pub open spec fn valid_path(p: Seq<u8>) -> bool {
    &&& p.len() > 0
    &&& p.len() <= 0xFFFF
    &&& p[0] != 47
    &&& p[p.len() - 1] != 47
    &&& forall|i: int| 0 <= i < p.len() - 1 ==> !(p[i] == 47 && #[trigger] p[i + 1] == 47)
}

/// Where the path component starting at `i` ends: at the next slash, or at
/// the end of the path.
pub open spec fn seg_end(p: Seq<u8>, i: int) -> int {
    match crate::filepatterns::find_byte(p, 47u8, i) {
        Some(j) => j,
        None => p.len() as int,
    }
}

/// The first index `>= i` whose node's base name is not below `comp`: the
/// position where a node with base name `comp` sits or would be inserted.
pub open spec fn first_ge(ns: Seq<Node>, i: int, comp: Seq<u8>) -> int
    decreases ns.len() - i,
{
    if i < 0 || i >= ns.len() {
        ns.len() as int
    } else if lex_lt(base_name(ns[i]), comp) {
        first_ge(ns, i + 1, comp)
    } else {
        i
    }
}

/// Whether recording an entry for `path` (from component `start` on) in
/// this children list succeeds: it can only fail when the one list that
/// must take a brand-new node is already at the format's u32 size limit.
pub open spec fn spec_set_ok(ns: Seq<Node>, path: Seq<u8>, start: int) -> bool
    decreases path.len() - start,
    via spec_set_ok_decreases
{
    let end = seg_end(path, start);
    let comp = path.subrange(start, end);
    let pos = first_ge(ns, 0, comp);
    if 0 <= pos < ns.len() && base_name(ns[pos]) == comp {
        if end >= path.len() {
            true
        } else {
            spec_set_ok(ns[pos].children@, path, end + 1)
        }
    } else {
        ns.len() < 0xFFFF_FFFF
    }
}

#[via_fn]
proof fn spec_set_ok_decreases(ns: Seq<Node>, path: Seq<u8>, start: int) {
    if 0 <= start {
        crate::filepatterns::lemma_find_byte(path, 47u8, start);
    }
}

/// Builds the chain of nodes for the path components from `start` on, the
/// last one carrying the entry and the others empty directories.
fn build_chain(path: &[u8], start: usize, entry: DirstateEntry) -> (r: Node)
    requires
        valid_path(path@),
        start < path@.len(),
        path@[start as int] != 47,
        start == 0 || path@[start as int - 1] == 47,
        crate::entry::spec_any_tracked(entry),
    ensures
        node_wf(r),
        base_name(r) == path@.subrange(start as int, seg_end(path@, start as int)),
        spec_has_node(seq![r], 0, path@, NodeData::Entry(entry)),
    decreases path@.len() - start,
{
    proof {
        crate::filepatterns::lemma_find_byte(path@, 47u8, start as int);
    }
    let end = match crate::filepatterns::find_byte_from(path, 47, start) {
        Some(j) => j,
        None => path.len(),
    };
    let full_path = vstd::slice::slice_to_vec(&path[0..end]);
    proof {
        assert(full_path@.skip(start as int) =~= path@.subrange(start as int, end as int));
    }
    if end == path.len() {
        let r = Node {
            full_path,
            base_name_start: start,
            copy_source: None,
            data: NodeData::Entry(entry),
            descendants_with_entry_count: 0,
            tracked_descendants_count: 0,
            children: Vec::new(),
            path_offset: None,
            copy_offset: None,
            children_offsets: None,
        };
        proof {
            assert(r.full_path@ =~= path@);
            assert(seq![r][0] == r);
        }
        r
    } else {
        // path[end] is a slash, so the next component starts at end + 1;
        // it is non-empty because the path has no doubled or trailing slash
        let child = build_chain(path, end + 1, entry);
        let ghost child_snap: Node = child;
        let mut children: Vec<Node> = Vec::new();
        children.push(child);
        let r = Node {
            full_path,
            base_name_start: start,
            copy_source: None,
            data: NodeData::NoData,
            descendants_with_entry_count: 0,
            tracked_descendants_count: 0,
            children,
            path_offset: None,
            copy_offset: None,
            children_offsets: None,
        };
        proof {
            assert(seq![r][0] == r);
            assert(r.children@ =~= seq![child_snap]);
            assert(spec_has_node(r.children@, 0, path@, NodeData::Entry(entry)));
        }
        r
    }
}

/// Records the entry under the path component starting at `start` within
/// this children list, returning the updated list and whether it worked
/// (the one failure is a children list already at the format's size
/// limit).
#[verifier::rlimit(100)]
fn set_in(nodes: Vec<Node>, path: &[u8], start: usize, entry: DirstateEntry) -> (r: (
    Vec<Node>,
    bool,
))
    requires
        nodes@.len() <= 0xFFFF_FFFF,
        children_sorted(nodes@),
        forall|i: int| 0 <= i < nodes@.len() ==> node_wf(#[trigger] nodes@[i]),
        valid_path(path@),
        start < path@.len(),
        path@[start as int] != 47,
        start == 0 || path@[start as int - 1] == 47,
        crate::entry::spec_any_tracked(entry),
    ensures
        r.0@.len() <= 0xFFFF_FFFF,
        children_sorted(r.0@),
        forall|i: int| 0 <= i < r.0@.len() ==> node_wf(#[trigger] r.0@[i]),
        r.1 == spec_set_ok(nodes@, path@, start as int),
        r.1 ==> spec_has_node(r.0@, 0, path@, NodeData::Entry(entry)),
    decreases path@.len() - start,
{
    let ghost orig: Seq<Node> = nodes@;
    let mut nodes = nodes;
    proof {
        crate::filepatterns::lemma_find_byte(path@, 47u8, start as int);
    }
    let end = match crate::filepatterns::find_byte_from(path, 47, start) {
        Some(j) => j,
        None => path.len(),
    };
    let ghost comp: Seq<u8> = path@.subrange(start as int, end as int);
    let mut pos: usize = 0;
    let mut found: bool = false;
    let mut scanning: bool = true;
    while scanning
        invariant
            pos <= nodes@.len(),
            nodes@.len() <= 0xFFFF_FFFF,
            children_sorted(nodes@),
            forall|i: int| 0 <= i < nodes@.len() ==> node_wf(#[trigger] nodes@[i]),
            comp == path@.subrange(start as int, end as int),
            start < end <= path@.len(),
            forall|k: int| 0 <= k < pos ==> lex_lt(base_name(#[trigger] nodes@[k]), comp),
            first_ge(nodes@, 0, comp) == first_ge(nodes@, pos as int, comp),
            scanning ==> !found,
            !scanning && found ==> pos < nodes@.len() && base_name(nodes@[pos as int]) == comp,
            !scanning && !found ==> pos == nodes@.len() || (!lex_lt(
                base_name(nodes@[pos as int]),
                comp,
            ) && lex_lt(comp, base_name(nodes@[pos as int]))),
        decreases nodes@.len() - pos, (if scanning {
            1int
        } else {
            0int
        }),
    {
        if pos >= nodes.len() {
            scanning = false;
        } else {
            let node = &nodes[pos];
            let node_base = &node.full_path.as_slice()[node.base_name_start..node.full_path.len()];
            proof {
                assert(node_base@ =~= base_name(nodes@[pos as int]));
            }
            let comp_slice = &path[start..end];
            if crate::on_disk::lex_lt_bytes(node_base, comp_slice) {
                pos = pos + 1;
            } else {
                found = crate::filepatterns::bytes_eq(node_base, comp_slice);
                proof {
                    lemma_lex_trichotomy(base_name(nodes@[pos as int]), comp);
                }
                scanning = false;
            }
        }
    }
    proof {
        // the scan stopped exactly at the insertion point of the component
        if found {
            lemma_lex_irrefl(comp);
        }
        assert(pos as int == first_ge(orig, 0, comp));
        assert(end as int == seg_end(path@, start as int));
        assert(comp == path@.subrange(start as int, seg_end(path@, start as int)));
    }
    let ghost before: Seq<Node> = nodes@;
    if found {
        // the component already has a node: update it in place
        let mut node = nodes.remove(pos);
        let ghost old_node: Node = node;
        let mut ok: bool = true;
        if end == path.len() {
            // the node now names exactly this path
            node.full_path = vstd::slice::slice_to_vec(&path[0..end]);
            node.base_name_start = start;
            node.path_offset = None;
            node.data = NodeData::Entry(entry);
            proof {
                assert(node.full_path@ =~= path@);
                assert(node.full_path@.skip(start as int) =~= comp);
            }
        } else {
            let kids = node.children;
            node.children = Vec::new();
            let (ks, k_ok) = set_in(kids, path, end + 1, entry);
            node.children = ks;
            node.children_offsets = None;
            ok = k_ok;
        }
        proof {
            assert(base_name(node) == base_name(old_node));
        }
        let ghost node_snap: Node = node;
        nodes.insert(pos, node);
        proof {
            assert forall|i: int, j: int| 0 <= i < j < nodes@.len() implies lex_lt(
                base_name(#[trigger] nodes@[i]),
                base_name(#[trigger] nodes@[j]),
            ) by {
                assert(base_name(nodes@[pos as int]) == base_name(before[pos as int]));
                if i != pos {
                    assert(nodes@[i] == before[i]);
                }
                if j != pos {
                    assert(nodes@[j] == before[j]);
                }
            }
            if ok {
                assert(spec_has_node(seq![node_snap], 0, path@, NodeData::Entry(entry))) by {
                    assert(seq![node_snap][0] == node_snap);
                }
                assert(nodes@[pos as int] == node_snap);
                lemma_has_node_lift(nodes@, pos as int, path@, NodeData::Entry(entry));
            }
        }
        (nodes, ok)
    } else {
        // no node for this component yet: insert a fresh chain, keeping
        // the list sorted
        if nodes.len() as u64 >= 0xFFFF_FFFFu64 {
            return (nodes, false);
        }
        let node = build_chain(path, start, entry);
        let ghost node_snap: Node = node;
        proof {
            assert(base_name(node) == comp);
            if pos < before.len() {
                assert(lex_lt(comp, base_name(before[pos as int])));
            }
        }
        nodes.insert(pos, node);
        proof {
            assert(nodes@[pos as int] == node_snap);
            lemma_has_node_lift(nodes@, pos as int, path@, NodeData::Entry(entry));
        }
        proof {
            assert forall|i: int, j: int| 0 <= i < j < nodes@.len() implies lex_lt(
                base_name(#[trigger] nodes@[i]),
                base_name(#[trigger] nodes@[j]),
            ) by {
                if i < pos && j == pos {
                    assert(nodes@[i] == before[i]);
                } else if i == pos && j > pos {
                    assert(nodes@[j] == before[j - 1]);
                    if j - 1 > pos {
                        lemma_lex_trans(
                            comp,
                            base_name(before[pos as int]),
                            base_name(before[j - 1]),
                        );
                    }
                } else if i < pos && j > pos {
                    assert(nodes@[i] == before[i]);
                    assert(nodes@[j] == before[j - 1]);
                    if j - 1 > pos {
                        assert(lex_lt(base_name(before[i]), base_name(before[j - 1])));
                    } else {
                        lemma_lex_trans(base_name(before[i]), comp, base_name(before[pos as int]));
                    }
                } else if j < pos {
                    assert(nodes@[i] == before[i]);
                    assert(nodes@[j] == before[j]);
                } else {
                    assert(nodes@[i] == before[i - 1]);
                    assert(nodes@[j] == before[j - 1]);
                }
            }
        }
        (nodes, true)
    }
}

/// The full paths of tracked files below the nodes from index `i` on, in
/// pre-order: a node's own path, then its descendants, then its siblings.
pub open spec fn spec_tracked_paths(ns: Seq<Node>, i: int) -> Seq<Seq<u8>>
    decreases ns, ns.len() - i,
{
    if i < 0 || i >= ns.len() {
        Seq::empty()
    } else {
        (match ns[i].data {
            NodeData::Entry(e) => {
                if crate::entry::spec_v1_state(e) != crate::entry::EntryState::Removed {
                    seq![ns[i].full_path@]
                } else {
                    Seq::<Seq<u8>>::empty()
                }
            },
            _ => Seq::<Seq<u8>>::empty(),
        }) + spec_tracked_paths(ns[i].children@, 0) + spec_tracked_paths(ns, i + 1)
    }
}

fn collect_tracked(nodes: &Vec<Node>, out: &mut Vec<Vec<u8>>)
    requires
        forall|i: int| 0 <= i < nodes@.len() ==> node_wf(#[trigger] nodes@[i]),
    ensures
        final(out).deep_view() == old(out).deep_view() + spec_tracked_paths(nodes@, 0),
    decreases nodes,
{
    let mut k: usize = 0;
    while k < nodes.len()
        invariant
            k <= nodes@.len(),
            forall|i: int| 0 <= i < nodes@.len() ==> node_wf(#[trigger] nodes@[i]),
            out.deep_view() + spec_tracked_paths(nodes@, k as int) == old(out).deep_view()
                + spec_tracked_paths(nodes@, 0),
        decreases nodes@.len() - k,
    {
        let node = &nodes[k];
        match &node.data {
            NodeData::Entry(e) => {
                if e.tracked_in_wdir() {
                    let ghost dv: Seq<Seq<u8>> = out.deep_view();
                    out.push(vstd::slice::slice_to_vec(node.full_path.as_slice()));
                    proof {
                        assert(out.deep_view() =~~= dv.push(node.full_path@));
                        assert(dv.push(node.full_path@) =~~= dv + seq![node.full_path@]);
                    }
                }
                proof {
                    // a node's entry always has a flag set, so "tracked in
                    // the working directory" coincides with the legacy
                    // state not being Removed
                    let ent = *e;
                    assert(e.wdir_tracked == (crate::entry::spec_v1_state(ent)
                        != crate::entry::EntryState::Removed));
                }
            },
            _ => {},
        }
        collect_tracked(&node.children, out);
        k = k + 1;
    }
}

} // verus!

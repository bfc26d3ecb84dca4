//! The hash-tree scheme: a binary tree over leaf hashes, sibling-path
//! proofs, and the fold that checks a blob against a claimed root.
//!
//! A hash is the 64 bytes of lower-case hexadecimal text that BLAKE3 prints
//! for a blob; an absent sibling is the empty byte string.

use crate::bytes::{bytes_eq, copy_bytes, copy_opt_bytes, opt_bytes, rows};
use vstd::prelude::*;

verus! {

/// The number of bytes in a hash: 64 hexadecimal digits.
pub const HASH_WIDTH: usize = 64;

/// The BLAKE3 digest of `data`, as the bytes of its lower-case hexadecimal
/// text.
pub uninterp spec fn blake3_hex(data: Seq<u8>) -> Seq<u8>;

/// Calls `blake3::hash` and takes the bytes of the text that the digest's
/// `Display` prints. Trusted: the result is a function of the input bytes
/// alone, which the contract names `blake3_hex`.
#[verifier::external_body]
fn hash_hex(data: &[u8]) -> (r: Vec<u8>)
    ensures
        r@ == blake3_hex(data@),
{
    blake3::hash(data).to_string().into_bytes()
}

/// The byte of `s` at `i`, or zero past its end.
pub open spec fn byte_or_zero(s: Seq<u8>, i: int) -> u8 {
    if 0 <= i < s.len() {
        s[i]
    } else {
        0
    }
}

/// Byte-wise XOR of two hashes over the hash width, each operand padded on
/// the right with zero bytes.
pub open spec fn xor_pad(a: Seq<u8>, b: Seq<u8>) -> Seq<u8> {
    Seq::new(HASH_WIDTH as nat, |i: int| byte_or_zero(a, i) ^ byte_or_zero(b, i))
}

/// What a sibling path turns an accumulated hash into: each sibling in turn
/// is XOR-combined with the accumulator and the result hashed.
pub open spec fn fold_path(acc: Seq<u8>, path: Seq<Seq<u8>>) -> Seq<u8>
    decreases path.len(),
{
    if path.len() == 0 {
        acc
    } else {
        fold_path(blake3_hex(xor_pad(acc, path[0])), path.drop_first())
    }
}

/// Whether `data`, folded along `path`, arrives at `root`.
pub open spec fn path_verifies(data: Seq<u8>, path: Seq<Seq<u8>>, root: Seq<u8>) -> bool {
    fold_path(blake3_hex(data), path) == root
}

/// Computes `xor_pad` of two byte strings.
pub fn xor_pad_bytes(a: &[u8], b: &[u8]) -> (r: Vec<u8>)
    ensures
        r@ == xor_pad(a@, b@),
{
    let mut r: Vec<u8> = Vec::new();
    let mut i: usize = 0;
    while i < HASH_WIDTH
        invariant
            i <= HASH_WIDTH,
            r@.len() == i,
            forall|j: int| 0 <= j < i ==> r@[j] == byte_or_zero(a@, j) ^ byte_or_zero(b@, j),
        decreases HASH_WIDTH - i,
    {
        let x: u8 = if i < a.len() { a[i] } else { 0 };
        let y: u8 = if i < b.len() { b[i] } else { 0 };
        r.push(x ^ y);
        i += 1;
    }
    assert(r@ =~= xor_pad(a@, b@));
    r
}

/// Folds `acc` along the sibling path: the work of a verifier once the
/// blob has been hashed.
pub fn fold_siblings(acc: Vec<u8>, path: &Vec<Vec<u8>>) -> (r: Vec<u8>)
    ensures
        r@ == fold_path(acc@, rows(path@)),
{
    let ghost start = acc@;
    let mut acc = acc;
    let mut i: usize = 0;
    assert(rows(path@).skip(0) =~= rows(path@));
    while i < path.len()
        invariant
            i <= path.len(),
            fold_path(acc@, rows(path@).skip(i as int)) == fold_path(start, rows(path@)),
        decreases path.len() - i,
    {
        let combined = xor_pad_bytes(acc.as_slice(), path[i].as_slice());
        proof {
            let rest = rows(path@).skip(i as int);
            assert(rest[0] == path@[i as int]@);
            assert(rest.drop_first() =~= rows(path@).skip(i + 1));
        }
        acc = hash_hex(combined.as_slice());
        i += 1;
    }
    acc
}

/// One node of the tree, named by its hash. A leaf has no children; every
/// node but the root names its parent.
#[derive(Debug, PartialEq, Eq)]
pub struct MTNode {
    pub hash: Vec<u8>,
    pub l: Option<Vec<u8>>,
    pub r: Option<Vec<u8>>,
    pub parent: Option<Vec<u8>>,
}

/// A node as plain values.
pub struct MTNodeView {
    pub hash: Seq<u8>,
    pub l: Option<Seq<u8>>,
    pub r: Option<Seq<u8>>,
    pub parent: Option<Seq<u8>>,
}

impl View for MTNode {
    type V = MTNodeView;

    open spec fn view(&self) -> MTNodeView {
        MTNodeView {
            hash: self.hash@,
            l: opt_bytes(self.l),
            r: opt_bytes(self.r),
            parent: opt_bytes(self.parent),
        }
    }
}

/// The views of a sequence of nodes.
pub open spec fn node_views(v: Seq<MTNode>) -> Seq<MTNodeView> {
    Seq::new(v.len(), |i: int| v[i]@)
}

impl Clone for MTNode {
    fn clone(&self) -> (r: Self)
        ensures
            r@ == self@,
    {
        MTNode {
            hash: copy_bytes(self.hash.as_slice()),
            l: copy_opt_bytes(&self.l),
            r: copy_opt_bytes(&self.r),
            parent: copy_opt_bytes(&self.parent),
        }
    }
}

impl Default for MTNode {
    fn default() -> (r: Self)
        ensures
            r@ == (MTNodeView { hash: Seq::empty(), l: None, r: None, parent: None }),
    {
        MTNode { hash: Vec::new(), l: None, r: None, parent: None }
    }
}

/// The leaf that stands for a blob with the given hash.
pub open spec fn leaf_of(hash: Seq<u8>) -> MTNodeView {
    MTNodeView { hash, l: None, r: None, parent: None }
}

/// The parent of two adjacent nodes: named by the hash of their XOR.
pub open spec fn pair_parent(left: MTNodeView, right: MTNodeView) -> MTNodeView {
    MTNodeView {
        hash: blake3_hex(xor_pad(left.hash, right.hash)),
        l: Some(left.hash),
        r: Some(right.hash),
        parent: None,
    }
}

/// The parent of a trailing node without a partner: named by the hash of
/// the child's own hash.
pub open spec fn single_parent(left: MTNodeView) -> MTNodeView {
    MTNodeView { hash: blake3_hex(left.hash), l: Some(left.hash), r: None, parent: None }
}

/// The next level up: one parent for each adjacent pair, left to right, and
/// one for a trailing unpaired node.
pub open spec fn level_up(nodes: Seq<MTNodeView>) -> Seq<MTNodeView> {
    Seq::new(
        ((nodes.len() + 1) / 2) as nat,
        |j: int|
            if 2 * j + 1 < nodes.len() {
                pair_parent(nodes[2 * j], nodes[2 * j + 1])
            } else {
                single_parent(nodes[2 * j])
            },
    )
}

/// A node with its parent set.
pub open spec fn with_parent(node: MTNodeView, parent: Option<Seq<u8>>) -> MTNodeView {
    MTNodeView { hash: node.hash, l: node.l, r: node.r, parent }
}

/// The nodes of one level, each naming its parent in the level above.
pub open spec fn with_parents(nodes: Seq<MTNodeView>) -> Seq<MTNodeView> {
    Seq::new(nodes.len(), |i: int| with_parent(nodes[i], Some(level_up(nodes)[i / 2].hash)))
}

/// Every node of the tree over `nodes`, level by level from the leaves up,
/// each level left to right; the root comes last and has no parent.
pub open spec fn tree_nodes(nodes: Seq<MTNodeView>) -> Seq<MTNodeView>
    decreases nodes.len(),
{
    if nodes.len() == 0 {
        Seq::empty()
    } else if nodes.len() == 1 {
        seq![with_parent(nodes[0], None)]
    } else {
        with_parents(nodes) + tree_nodes(level_up(nodes))
    }
}

/// The hash of the root of the tree over `nodes`; none for no nodes.
pub open spec fn tree_root(nodes: Seq<MTNodeView>) -> Option<Seq<u8>> {
    if nodes.len() == 0 {
        None
    } else {
        Some(tree_nodes(nodes).last().hash)
    }
}

/// The map from hash to node that a list of nodes stands for: where two
/// nodes have the same hash, the later one is kept.
pub open spec fn node_map(nodes: Seq<MTNodeView>) -> Map<Seq<u8>, MTNodeView>
    decreases nodes.len(),
{
    if nodes.len() == 0 {
        Map::empty()
    } else {
        node_map(nodes.drop_last()).insert(nodes.last().hash, nodes.last())
    }
}

/// The index of the last node with hash `key`, or -1 where there is none.
pub open spec fn last_index_of(nodes: Seq<MTNodeView>, key: Seq<u8>) -> int
    decreases nodes.len(),
{
    if nodes.len() == 0 {
        -1
    } else if nodes.last().hash == key {
        nodes.len() - 1
    } else {
        last_index_of(nodes.drop_last(), key)
    }
}

/// The map holds exactly the hashes in the list, each with the last node
/// that has it.
pub proof fn lemma_last_index(nodes: Seq<MTNodeView>, key: Seq<u8>)
    ensures
        -1 <= last_index_of(nodes, key) < nodes.len(),
        last_index_of(nodes, key) >= 0 ==> {
            &&& nodes[last_index_of(nodes, key)].hash == key
            &&& node_map(nodes).dom().contains(key)
            &&& node_map(nodes)[key] == nodes[last_index_of(nodes, key)]
        },
        last_index_of(nodes, key) == -1 ==> !node_map(nodes).dom().contains(key),
        forall|j: int| last_index_of(nodes, key) < j < nodes.len() ==> nodes[j].hash != key,
    decreases nodes.len(),
{
    if nodes.len() > 0 {
        lemma_last_index(nodes.drop_last(), key);
        if nodes.last().hash != key {
            assert forall|j: int| last_index_of(nodes, key) < j < nodes.len() implies nodes[j].hash
                != key by {
                if j < nodes.len() - 1 {
                    assert(nodes.drop_last()[j] == nodes[j]);
                }
            }
        }
    }
}

/// Where the parent of the node at position `i` stands in the node list of
/// a tree over `n` leaves; -1 for the root.
pub open spec fn parent_pos(n: nat, i: int) -> int
    decreases n,
{
    if n <= 1 {
        -1
    } else if i < n {
        n + i / 2
    } else {
        let above = parent_pos(((n + 1) / 2) as nat, i - n);
        if above < 0 {
            -1
        } else {
            n + above
        }
    }
}

/// The node list of a tree begins with its leaves, each with the hash and
/// the children it came with.
pub proof fn lemma_tree_nodes_prefix(nodes: Seq<MTNodeView>)
    ensures
        tree_nodes(nodes).len() >= nodes.len(),
        forall|k: int|
            0 <= k < nodes.len() ==> {
                &&& (#[trigger] tree_nodes(nodes)[k]).hash == nodes[k].hash
                &&& tree_nodes(nodes)[k].l == nodes[k].l
                &&& tree_nodes(nodes)[k].r == nodes[k].r
            },
{
}

/// In the node list of a tree the last node is the root and has no parent;
/// every other node names a parent, and a node with that hash stands later
/// in the list, at `parent_pos`.
pub proof fn lemma_tree_nodes_chained(nodes: Seq<MTNodeView>)
    ensures
        nodes.len() > 0 ==> tree_nodes(nodes).len() > 0 && tree_nodes(nodes).last().parent.is_none(),
        forall|i: int|
            #![trigger tree_nodes(nodes)[i]]
            0 <= i < tree_nodes(nodes).len() - 1 ==> {
                &&& i < parent_pos(nodes.len(), i) < tree_nodes(nodes).len()
                &&& tree_nodes(nodes)[i].parent == Some(
                    tree_nodes(nodes)[parent_pos(nodes.len(), i)].hash,
                )
            },
    decreases nodes.len(),
{
    if nodes.len() >= 2 {
        let n = nodes.len();
        let up = level_up(nodes);
        let low = with_parents(nodes);
        let rest = tree_nodes(up);
        let all = tree_nodes(nodes);
        lemma_tree_nodes_chained(up);
        lemma_tree_nodes_prefix(up);
        assert(all == low + rest);
        assert forall|i: int| #![trigger all[i]] 0 <= i < all.len() - 1 implies {
            &&& i < parent_pos(n, i) < all.len()
            &&& all[i].parent == Some(all[parent_pos(n, i)].hash)
        } by {
            if i < n {
                assert(all[i] == low[i]);
                assert(all[n + i / 2] == rest[i / 2]);
                assert(rest[i / 2].hash == up[i / 2].hash);
            } else {
                assert(all[i] == rest[i - n]);
                let above = parent_pos(up.len(), i - n);
                assert(rest[i - n].parent == Some(rest[above].hash));
                assert(all[n + above] == rest[above]);
            }
        }
        assert(all.last() == rest.last());
    }
}

/// A rank for every hash that falls from each node to its parent: what
/// rules out a cycle of parent links.
pub open spec fn is_ranking(m: Map<Seq<u8>, MTNodeView>, rank: Map<Seq<u8>, nat>) -> bool {
    forall|k: Seq<u8>|
        #![trigger m[k]]
        m.dom().contains(k) && m[k].parent.is_some() && m.dom().contains(m[k].parent.unwrap())
            ==> rank[m[k].parent.unwrap()] < rank[k]
}

/// Whether no chain of parent links in the map comes back to where it began.
pub open spec fn acyclic(m: Map<Seq<u8>, MTNodeView>) -> bool {
    exists|rank: Map<Seq<u8>, nat>| is_ranking(m, rank)
}

/// Some ranking of an acyclic map.
pub open spec fn ranking(m: Map<Seq<u8>, MTNodeView>) -> Map<Seq<u8>, nat> {
    choose|rank: Map<Seq<u8>, nat>| is_ranking(m, rank)
}

/// The bytes of an optional hash, or the empty string that stands for an
/// absent sibling.
pub open spec fn or_empty(o: Option<Seq<u8>>) -> Seq<u8> {
    match o {
        Some(h) => h,
        None => Seq::empty(),
    }
}

/// The other child of `parent`, seen from the child with hash `child`.
pub open spec fn sibling_of(parent: MTNodeView, child: Seq<u8>) -> Seq<u8> {
    if parent.l == Some(child) {
        or_empty(parent.r)
    } else {
        or_empty(parent.l)
    }
}

/// The sibling path of `key`: walking up the parent links, the other child
/// of each parent met; it ends at a node without a parent, or whose parent
/// the map does not hold. Empty for a hash that the map does not hold.
pub open spec fn sibling_path(m: Map<Seq<u8>, MTNodeView>, key: Seq<u8>) -> Seq<Seq<u8>>
    decreases ranking(m)[key],
    when acyclic(m)
{
    if m.dom().contains(key) && m[key].parent.is_some() && m.dom().contains(
        m[key].parent.unwrap(),
    ) {
        seq![sibling_of(m[m[key].parent.unwrap()], key)] + sibling_path(m, m[key].parent.unwrap())
    } else {
        Seq::empty()
    }
}

/// The rank of a hash in a node list: how far from the end its last node
/// stands.
pub open spec fn index_rank(nodes: Seq<MTNodeView>, key: Seq<u8>) -> nat {
    (nodes.len() - last_index_of(nodes, key)) as nat
}

/// The nodes of a built tree, taken as a map, hold no cycle of parent
/// links: a parent's last node always stands after the child's.
pub proof fn lemma_tree_acyclic(leaves: Seq<MTNodeView>)
    ensures
        acyclic(node_map(tree_nodes(leaves))),
        forall|k: Seq<u8>|
            #![trigger node_map(tree_nodes(leaves))[k]]
            node_map(tree_nodes(leaves)).dom().contains(k) && node_map(
                tree_nodes(leaves),
            )[k].parent.is_some() ==> {
                &&& node_map(tree_nodes(leaves)).dom().contains(
                    node_map(tree_nodes(leaves))[k].parent.unwrap(),
                )
                &&& last_index_of(tree_nodes(leaves), k) < last_index_of(
                    tree_nodes(leaves),
                    node_map(tree_nodes(leaves))[k].parent.unwrap(),
                )
            },
{
    let all = tree_nodes(leaves);
    let m = node_map(all);
    let rank = Map::new(|k: Seq<u8>| true, |k: Seq<u8>| index_rank(all, k));
    lemma_tree_nodes_chained(leaves);
    assert forall|k: Seq<u8>| #![trigger m[k]] m.dom().contains(k) && m[k].parent.is_some() implies {
        &&& m.dom().contains(m[k].parent.unwrap())
        &&& last_index_of(all, k) < last_index_of(all, m[k].parent.unwrap())
    } by {
        lemma_last_index(all, k);
        let i = last_index_of(all, k);
        let p = m[k].parent.unwrap();
        assert(all[i].parent == Some(p));
        if i == all.len() - 1 {
            assert(leaves.len() > 0) by {
                if leaves.len() == 0 {
                    assert(all.len() == 0);
                }
            }
            assert(all.last() == all[i]);
        }
        let j = parent_pos(leaves.len(), i);
        assert(all[j].hash == p);
        lemma_last_index(all, p);
    }
    assert forall|k: Seq<u8>|
        #![trigger m[k]]
        m.dom().contains(k) && m[k].parent.is_some() && m.dom().contains(
            m[k].parent.unwrap(),
        ) implies rank[m[k].parent.unwrap()] < rank[k] by {
        lemma_last_index(all, k);
        lemma_last_index(all, m[k].parent.unwrap());
    }
    assert(is_ranking(m, rank));
}

/// Whether `nodes` and `root` are the node list and the root of the tree
/// over `leaves`.
pub open spec fn is_tree_over(
    nodes: Seq<MTNodeView>,
    root: Option<Seq<u8>>,
    leaves: Seq<MTNodeView>,
) -> bool {
    nodes == tree_nodes(leaves) && root == tree_root(leaves)
}

/// A hash tree: the root's hash, and the nodes by hash.
#[derive(Debug)]
pub struct MerkleTree {
    root: Option<Vec<u8>>,
    data: Vec<MTNode>,
}

/// A tree as plain values.
pub struct MerkleTreeView {
    pub root: Option<Seq<u8>>,
    pub data: Map<Seq<u8>, MTNodeView>,
}

impl View for MerkleTree {
    type V = MerkleTreeView;

    closed spec fn view(&self) -> MerkleTreeView {
        MerkleTreeView { root: opt_bytes(self.root), data: node_map(node_views(self.data@)) }
    }
}

impl MerkleTree {
    /// Every tree is the tree over some sequence of leaves.
    #[verifier::type_invariant]
    spec fn built(self) -> bool {
        exists|leaves: Seq<MTNodeView>| is_tree_over(node_views(self.data@), opt_bytes(self.root), leaves)
    }

    /// Builds the tree over the given leaves, in the order given.
    pub fn from(leaves: Vec<MTNode>) -> (tree: MerkleTree)
        ensures
            tree@.root == tree_root(node_views(leaves@)),
            tree@.data == node_map(tree_nodes(node_views(leaves@))),
    {
        let ghost all = node_views(leaves@);
        if leaves.len() == 0 {
            let data: Vec<MTNode> = Vec::new();
            assert(node_views(data@) =~= tree_nodes(all));
            let root: Option<Vec<u8>> = None;
            assert(is_tree_over(node_views(data@), opt_bytes(root), all));
            proof {
                let built = MerkleTree { root, data };
                assert(built.data == data && built.root == root);
            }
            return MerkleTree { root, data };
        }
        let mut data: Vec<MTNode> = Vec::new();
        let mut nodes = leaves;
        assert(node_views(data@) + tree_nodes(node_views(nodes@)) =~= tree_nodes(all));
        while nodes.len() > 1
            invariant
                nodes.len() >= 1,
                node_views(data@) + tree_nodes(node_views(nodes@)) == tree_nodes(all),
            decreases nodes.len(),
        {
            let ghost before = node_views(data@);
            let ghost level = node_views(nodes@);
            let next = build_level(&nodes, &mut data);
            assert((before + with_parents(level)) + tree_nodes(level_up(level)) =~= before + (
            with_parents(level) + tree_nodes(level_up(level))));
            nodes = next;
        }
        let root_node = MTNode {
            hash: copy_bytes(nodes[0].hash.as_slice()),
            l: copy_opt_bytes(&nodes[0].l),
            r: copy_opt_bytes(&nodes[0].r),
            parent: None,
        };
        let root_hash = copy_bytes(root_node.hash.as_slice());
        let ghost before = node_views(data@);
        data.push(root_node);
        assert(node_views(data@) =~= before + tree_nodes(node_views(nodes@)));
        assert(tree_nodes(all).last() == tree_nodes(node_views(nodes@)).last());
        let root = Some(root_hash);
        assert(is_tree_over(node_views(data@), opt_bytes(root), all));
        proof {
            let built = MerkleTree { root, data };
            assert(built.data == data && built.root == root);
        }
        MerkleTree { root, data }
    }
}

impl MerkleTree {
    /// The position of the last node with hash `key`.
    fn find(&self, key: &[u8]) -> (r: Option<usize>)
        ensures
            match r {
                Some(i) => i < self.data.len() && i as int == last_index_of(
                    node_views(self.data@),
                    key@,
                ),
                None => last_index_of(node_views(self.data@), key@) == -1,
            },
    {
        let ghost nodes = node_views(self.data@);
        let mut i: usize = self.data.len();
        while i > 0
            invariant
                i <= self.data.len(),
                nodes == node_views(self.data@),
                forall|j: int| i <= j < nodes.len() ==> nodes[j].hash != key@,
            decreases i,
        {
            i -= 1;
            if bytes_eq(self.data[i].hash.as_slice(), key) {
                proof {
                    lemma_last_index(nodes, key@);
                    assert(nodes[i as int].hash == key@);
                }
                return Some(i);
            }
        }
        proof {
            lemma_last_index(nodes, key@);
        }
        None
    }

    /// The hash of the root; none for the empty tree.
    pub fn root(&self) -> (r: Option<Vec<u8>>)
        ensures
            opt_bytes(r) == self@.root,
    {
        copy_opt_bytes(&self.root)
    }

    /// The node stored under `key`, if there is one.
    pub fn get(&self, key: &[u8]) -> (r: Option<MTNode>)
        ensures
            match r {
                Some(node) => self@.data.dom().contains(key@) && node@ == self@.data[key@],
                None => !self@.data.dom().contains(key@),
            },
    {
        proof {
            lemma_last_index(node_views(self.data@), key@);
        }
        match self.find(key) {
            Some(i) => Some(self.data[i].clone()),
            None => None,
        }
    }

    /// The sibling path of the leaf with hash `leaf`: none where the tree
    /// holds no such node.
    pub fn get_proof_of_leaf(&self, leaf: &[u8]) -> (r: Option<Vec<Vec<u8>>>)
        ensures
            acyclic(self@.data),
            match r {
                Some(path) => self@.data.dom().contains(leaf@) && rows(path@) == sibling_path(
                    self@.data,
                    leaf@,
                ),
                None => !self@.data.dom().contains(leaf@),
            },
    {
        let ghost nodes = node_views(self.data@);
        let ghost m = node_map(nodes);
        proof {
            use_type_invariant(self);
            let leaves = choose|leaves: Seq<MTNodeView>|
                is_tree_over(node_views(self.data@), opt_bytes(self.root), leaves);
            lemma_tree_acyclic(leaves);
            lemma_last_index(nodes, leaf@);
        }
        let start = match self.find(leaf) {
            Some(i) => i,
            None => {
                return None;
            },
        };
        let mut path: Vec<Vec<u8>> = Vec::new();
        let mut cur: usize = start;
        let mut climbing = true;
        assert(rows(path@) + sibling_path(m, nodes[cur as int].hash) =~= sibling_path(m, leaf@));
        while climbing
            invariant
                nodes == node_views(self.data@),
                m == node_map(nodes),
                acyclic(m),
                forall|k: Seq<u8>|
                    #![trigger m[k]]
                    m.dom().contains(k) && m[k].parent.is_some() ==> {
                        &&& m.dom().contains(m[k].parent.unwrap())
                        &&& last_index_of(nodes, k) < last_index_of(nodes, m[k].parent.unwrap())
                    },
                cur < nodes.len(),
                last_index_of(nodes, nodes[cur as int].hash) == cur,
                climbing ==> rows(path@) + sibling_path(m, nodes[cur as int].hash) == sibling_path(
                    m,
                    leaf@,
                ),
                !climbing ==> rows(path@) == sibling_path(m, leaf@),
            decreases 2 * (nodes.len() - cur) + if climbing { 1int } else { 0int },
        {
            let node = &self.data[cur];
            let ghost key = nodes[cur as int].hash;
            proof {
                lemma_last_index(nodes, key);
            }
            let up = match &node.parent {
                Some(p) => self.find(p.as_slice()),
                None => None,
            };
            match up {
                Some(pi) => {
                    let parent = &self.data[pi];
                    proof {
                        lemma_last_index(nodes, m[key].parent.unwrap());
                    }
                    let on_left = match &parent.l {
                        Some(l) => bytes_eq(l.as_slice(), node.hash.as_slice()),
                        None => false,
                    };
                    let sibling = if on_left {
                        match &parent.r {
                            Some(r) => copy_bytes(r.as_slice()),
                            None => Vec::new(),
                        }
                    } else {
                        match &parent.l {
                            Some(l) => copy_bytes(l.as_slice()),
                            None => Vec::new(),
                        }
                    };
                    assert(sibling@ == sibling_of(m[m[key].parent.unwrap()], key));
                    let ghost before = rows(path@);
                    path.push(sibling);
                    assert(rows(path@) =~= before.push(sibling@));
                    assert(rows(path@) + sibling_path(m, nodes[pi as int].hash) =~= before
                        + sibling_path(m, key));
                    cur = pi;
                },
                None => {
                    proof {
                        if node.parent.is_some() {
                            lemma_last_index(nodes, m[key].parent.unwrap());
                        }
                        assert(sibling_path(m, key) =~= Seq::empty());
                        assert(rows(path@) + sibling_path(m, key) =~= rows(path@));
                    }
                    climbing = false;
                },
            }
        }
        Some(path)
    }

    /// The sibling path of the blob `data`, found by its hash: none where
    /// the tree holds no node for the blob.
    pub fn get_proof(&self, data: &[u8]) -> (r: Option<Vec<Vec<u8>>>)
        ensures
            acyclic(self@.data),
            match r {
                Some(path) => self@.data.dom().contains(blake3_hex(data@)) && rows(path@)
                    == sibling_path(self@.data, blake3_hex(data@)),
                None => !self@.data.dom().contains(blake3_hex(data@)),
            },
    {
        let leaf = hash_hex(data);
        self.get_proof_of_leaf(leaf.as_slice())
    }

    /// Whether `data`, folded along the sibling path `path`, arrives at
    /// `root`.
    pub fn verify_data_with_proof(data: &Vec<u8>, path: Vec<Vec<u8>>, root: Vec<u8>) -> (r: bool)
        ensures
            r == path_verifies(data@, rows(path@), root@),
    {
        let leaf = hash_hex(data.as_slice());
        let top = fold_siblings(leaf, &path);
        bytes_eq(top.as_slice(), root.as_slice())
    }
}

/// The leaves that stand for a list of blobs, in the order given.
pub open spec fn leaves_of(blobs: Seq<Seq<u8>>) -> Seq<MTNodeView> {
    Seq::new(blobs.len(), |i: int| leaf_of(blake3_hex(blobs[i])))
}

impl MTNode {
    /// The leaf for a blob: named by the blob's hash, without children or
    /// parent.
    pub fn leaf(data: &[u8]) -> (r: MTNode)
        ensures
            r@ == leaf_of(blake3_hex(data@)),
    {
        MTNode { hash: hash_hex(data), l: None, r: None, parent: None }
    }
}

impl MerkleTree {
    /// Builds the tree over the contents of a folder's files, one leaf per
    /// file, in the order in which the caller lists them.
    pub fn from_folder(files: &Vec<Vec<u8>>) -> (tree: MerkleTree)
        ensures
            tree@.root == tree_root(leaves_of(rows(files@))),
            tree@.data == node_map(tree_nodes(leaves_of(rows(files@)))),
    {
        let mut leaves: Vec<MTNode> = Vec::new();
        let mut i: usize = 0;
        while i < files.len()
            invariant
                i <= files.len(),
                node_views(leaves@) == leaves_of(rows(files@)).subrange(0, i as int),
            decreases files.len() - i,
        {
            let ghost before = node_views(leaves@);
            leaves.push(MTNode::leaf(files[i].as_slice()));
            assert(node_views(leaves@) =~= before.push(leaf_of(blake3_hex(files@[i as int]@))));
            assert(node_views(leaves@) =~= leaves_of(rows(files@)).subrange(0, i + 1));
            i += 1;
        }
        assert(leaves_of(rows(files@)).subrange(0, files.len() as int) =~= leaves_of(rows(files@)));
        MerkleTree::from(leaves)
    }
}

impl Default for MerkleTree {
    /// The empty tree.
    fn default() -> (tree: Self)
        ensures
            tree@.root.is_none(),
            tree@.data == Map::<Seq<u8>, MTNodeView>::empty(),
    {
        MerkleTree::from(Vec::new())
    }
}

impl Clone for MerkleTree {
    fn clone(&self) -> (tree: Self)
        ensures
            tree@ == self@,
    {
        proof {
            use_type_invariant(self);
        }
        let mut data: Vec<MTNode> = Vec::new();
        let mut i: usize = 0;
        while i < self.data.len()
            invariant
                i <= self.data.len(),
                node_views(data@) == node_views(self.data@).subrange(0, i as int),
            decreases self.data.len() - i,
        {
            let ghost before = node_views(data@);
            data.push(self.data[i].clone());
            assert(node_views(data@) =~= before.push(self.data@[i as int]@));
            assert(node_views(data@) =~= node_views(self.data@).subrange(0, i + 1));
            i += 1;
        }
        assert(node_views(self.data@).subrange(0, self.data.len() as int) =~= node_views(
            self.data@,
        ));
        let root = copy_opt_bytes(&self.root);
        proof {
            let leaves = choose|leaves: Seq<MTNodeView>|
                is_tree_over(node_views(self.data@), opt_bytes(self.root), leaves);
            assert(is_tree_over(node_views(data@), opt_bytes(root), leaves));
            let built = MerkleTree { root, data };
            assert(built.data == data && built.root == root);
        }
        MerkleTree { root, data }
    }
}

/// A tree over one leaf has that leaf as its root: the root's hash is the
/// leaf's own, and so the hash of the leaf's hash only where hashing leaves
/// that hash as it is. The leaf's sibling path is empty, and a blob with
/// the leaf's hash verifies against the root along the empty path.
pub proof fn lemma_single_leaf(leaf: MTNodeView, data: Seq<u8>)
    ensures
        tree_root(seq![leaf]) == Some(leaf.hash),
        blake3_hex(leaf.hash) == leaf.hash ==> tree_root(seq![leaf]) == Some(
            blake3_hex(leaf.hash),
        ),
        acyclic(node_map(tree_nodes(seq![leaf]))),
        sibling_path(node_map(tree_nodes(seq![leaf])), leaf.hash) == Seq::<Seq<u8>>::empty(),
        blake3_hex(data) == leaf.hash ==> path_verifies(data, Seq::empty(), leaf.hash),
{
    let all = tree_nodes(seq![leaf]);
    let m = node_map(all);
    lemma_tree_acyclic(seq![leaf]);
    lemma_last_index(all, leaf.hash);
    assert(all =~= seq![with_parent(leaf, None)]);
}

/// A tree over two leaves has as its root the hash of the XOR of the two
/// leaf hashes. Unless that root hash is the first leaf's own hash, the
/// first leaf's sibling path is the second leaf's hash alone, and a blob
/// with the first leaf's hash verifies against the root along it.
pub proof fn lemma_two_leaves(first: MTNodeView, second: MTNodeView, data: Seq<u8>)
    ensures
        tree_root(seq![first, second]) == Some(blake3_hex(xor_pad(first.hash, second.hash))),
        acyclic(node_map(tree_nodes(seq![first, second]))),
        blake3_hex(xor_pad(first.hash, second.hash)) != first.hash ==> sibling_path(
            node_map(tree_nodes(seq![first, second])),
            first.hash,
        ) == seq![second.hash],
        blake3_hex(data) == first.hash ==> path_verifies(
            data,
            seq![second.hash],
            blake3_hex(xor_pad(first.hash, second.hash)),
        ),
{
    let leaves = seq![first, second];
    let top = blake3_hex(xor_pad(first.hash, second.hash));
    let all = tree_nodes(leaves);
    let m = node_map(all);
    let up = level_up(leaves);
    assert(up =~= seq![pair_parent(first, second)]);
    assert(tree_nodes(up) =~= seq![with_parent(up[0], None)]);
    assert(with_parents(leaves) =~= seq![
        with_parent(first, Some(top)),
        with_parent(second, Some(top)),
    ]);
    assert(all =~= seq![
        with_parent(first, Some(top)),
        with_parent(second, Some(top)),
        with_parent(pair_parent(first, second), None),
    ]);
    lemma_tree_acyclic(leaves);
    lemma_last_index(all, first.hash);
    lemma_last_index(all, top);
    if top != first.hash {
        assert(m[first.hash].parent == Some(top));
        assert(m[top] == all[2]);
        assert(sibling_path(m, top) =~= Seq::empty());
        assert(sibling_path(m, first.hash) =~= seq![second.hash]);
    }
    if blake3_hex(data) == first.hash {
        let path = seq![second.hash];
        assert(path.drop_first() =~= Seq::<Seq<u8>>::empty());
        assert(fold_path(top, path.drop_first()) == top);
        assert(fold_path(first.hash, path) == top);
    }
}

/// `xor_pad` does not depend on the order of its operands.
pub proof fn lemma_xor_pad_commutative(a: Seq<u8>, b: Seq<u8>)
    ensures
        xor_pad(a, b) == xor_pad(b, a),
{
    assert forall|i: int| 0 <= i < HASH_WIDTH implies xor_pad(a, b)[i] == xor_pad(b, a)[i] by {
        let x = byte_or_zero(a, i);
        let y = byte_or_zero(b, i);
        assert(x ^ y == y ^ x) by (bit_vector);
    }
    assert(xor_pad(a, b) =~= xor_pad(b, a));
}

/// In a tree over two leaves each of the two verifies against the root
/// along its own sibling path: a blob with the hash of either leaf is
/// accepted with the path that the tree gives for that hash.
pub proof fn lemma_two_leaves_verify(first: MTNodeView, second: MTNodeView, data: Seq<u8>)
    requires
        blake3_hex(data) == first.hash || blake3_hex(data) == second.hash,
    ensures
        acyclic(node_map(tree_nodes(seq![first, second]))),
        path_verifies(
            data,
            sibling_path(node_map(tree_nodes(seq![first, second])), blake3_hex(data)),
            blake3_hex(xor_pad(first.hash, second.hash)),
        ),
{
    let leaves = seq![first, second];
    let top = blake3_hex(xor_pad(first.hash, second.hash));
    let all = tree_nodes(leaves);
    let m = node_map(all);
    let key = blake3_hex(data);
    let up = level_up(leaves);
    assert(up =~= seq![pair_parent(first, second)]);
    assert(tree_nodes(up) =~= seq![with_parent(up[0], None)]);
    assert(with_parents(leaves) =~= seq![
        with_parent(first, Some(top)),
        with_parent(second, Some(top)),
    ]);
    assert(all =~= seq![
        with_parent(first, Some(top)),
        with_parent(second, Some(top)),
        with_parent(pair_parent(first, second), None),
    ]);
    lemma_tree_acyclic(leaves);
    lemma_last_index(all, key);
    lemma_last_index(all, top);
    assert(m[top] == all[2]);
    assert(sibling_path(m, top) =~= Seq::empty());
    if key == top {
        assert(sibling_path(m, key) =~= Seq::empty());
    } else {
        assert(m[key].parent == Some(top));
        let other = sibling_of(m[top], key);
        assert(sibling_path(m, key) =~= seq![other]);
        let path = seq![other];
        assert(path.drop_first() =~= Seq::<Seq<u8>>::empty());
        assert(fold_path(blake3_hex(xor_pad(key, other)), path.drop_first()) == blake3_hex(
            xor_pad(key, other),
        ));
        if key == first.hash {
            assert(other == second.hash);
        } else {
            assert(other == first.hash);
            lemma_xor_pad_commutative(first.hash, second.hash);
        }
        assert(fold_path(key, path) == top);
    }
}

/// The map of a tree over at least one leaf holds the root, without a
/// parent; every other node of the map names a parent that the map holds.
pub proof fn lemma_tree_root_node(leaves: Seq<MTNodeView>)
    requires
        leaves.len() > 0,
    ensures
        tree_root(leaves).is_some(),
        node_map(tree_nodes(leaves)).dom().contains(tree_root(leaves).unwrap()),
        node_map(tree_nodes(leaves))[tree_root(leaves).unwrap()].parent.is_none(),
        forall|k: Seq<u8>|
            #![trigger node_map(tree_nodes(leaves))[k]]
            node_map(tree_nodes(leaves)).dom().contains(k) && k != tree_root(leaves).unwrap() ==> {
                &&& node_map(tree_nodes(leaves))[k].parent.is_some()
                &&& node_map(tree_nodes(leaves)).dom().contains(
                    node_map(tree_nodes(leaves))[k].parent.unwrap(),
                )
            },
{
    let all = tree_nodes(leaves);
    let m = node_map(all);
    let top = all.last().hash;
    lemma_tree_nodes_chained(leaves);
    lemma_tree_acyclic(leaves);
    lemma_last_index(all, top);
    assert(last_index_of(all, top) == all.len() - 1);
    assert forall|k: Seq<u8>| #![trigger m[k]] m.dom().contains(k) && k != top implies m[k].parent.is_some() by {
        lemma_last_index(all, k);
        let i = last_index_of(all, k);
        assert(all[i].hash == k);
        assert(i != all.len() - 1);
        assert(all[i].parent.is_some());
    }
}

/// XOR with the empty sibling leaves a hash of the hash width as it is: the
/// parent of an unpaired node is named as a verifier's fold names it.
pub proof fn lemma_xor_pad_empty(a: Seq<u8>)
    requires
        a.len() == HASH_WIDTH,
    ensures
        xor_pad(a, Seq::empty()) == a,
{
    assert forall|i: int| 0 <= i < HASH_WIDTH implies xor_pad(a, Seq::empty())[i] == a[i] by {
        let x = a[i];
        assert(x ^ 0u8 == x) by (bit_vector);
    }
    assert(xor_pad(a, Seq::empty()) =~= a);
}

/// Whether `parent` was made over the child with hash `child`: as the left
/// or the right of a pair, or as an unpaired node.
pub open spec fn is_parent_of(parent: MTNodeView, child: Seq<u8>) -> bool {
    ||| parent.l == Some(child) && parent.r.is_some() && parent.hash == blake3_hex(
        xor_pad(child, parent.r.unwrap()),
    )
    ||| parent.r == Some(child) && parent.l.is_some() && parent.hash == blake3_hex(
        xor_pad(parent.l.unwrap(), child),
    )
    ||| parent.l == Some(child) && parent.r.is_none() && parent.hash == blake3_hex(child)
}

/// In the node list of a tree the node at `parent_pos` was made over the
/// node it is the parent of.
pub proof fn lemma_tree_nodes_family(nodes: Seq<MTNodeView>)
    ensures
        forall|i: int|
            #![trigger tree_nodes(nodes)[i]]
            0 <= i < tree_nodes(nodes).len() - 1 ==> {
                &&& i < parent_pos(nodes.len(), i) < tree_nodes(nodes).len()
                &&& is_parent_of(
                    tree_nodes(nodes)[parent_pos(nodes.len(), i)],
                    tree_nodes(nodes)[i].hash,
                )
            },
    decreases nodes.len(),
{
    if nodes.len() >= 2 {
        let n = nodes.len();
        let up = level_up(nodes);
        let low = with_parents(nodes);
        let rest = tree_nodes(up);
        let all = tree_nodes(nodes);
        lemma_tree_nodes_family(up);
        lemma_tree_nodes_chained(nodes);
        lemma_tree_nodes_prefix(up);
        assert(all == low + rest);
        assert forall|i: int| #![trigger all[i]] 0 <= i < all.len() - 1 implies is_parent_of(
            all[parent_pos(n, i)],
            all[i].hash,
        ) by {
            if i < n {
                let j = i / 2;
                assert(all[i] == low[i]);
                assert(all[n + j] == rest[j]);
                assert(rest[j].hash == up[j].hash && rest[j].l == up[j].l && rest[j].r == up[j].r);
                if i == 2 * j {
                    if 2 * j + 1 < n {
                        assert(up[j] == pair_parent(nodes[2 * j], nodes[2 * j + 1]));
                    } else {
                        assert(up[j] == single_parent(nodes[2 * j]));
                    }
                } else {
                    assert(i == 2 * j + 1);
                    assert(up[j] == pair_parent(nodes[2 * j], nodes[2 * j + 1]));
                }
            } else {
                assert(all[i] == rest[i - n]);
                let above = parent_pos(up.len(), i - n);
                assert(is_parent_of(rest[above], rest[i - n].hash));
                assert(all[n + above] == rest[above]);
            }
        }
    }
}

/// Whether nodes with the same hash are the same node.
pub open spec fn no_clash(nodes: Seq<MTNodeView>) -> bool {
    forall|i: int, j: int|
        0 <= i < nodes.len() && 0 <= j < nodes.len() && (#[trigger] nodes[i]).hash == (
        #[trigger] nodes[j]).hash ==> nodes[i] == nodes[j]
}

/// Whether every node's hash is of the hash width.
pub open spec fn all_wide(nodes: Seq<MTNodeView>) -> bool {
    forall|i: int| 0 <= i < nodes.len() ==> (#[trigger] nodes[i]).hash.len() == HASH_WIDTH
}

/// In a tree whose hashes are all of the hash width and in which no two
/// different nodes share a hash, the sibling path of every node folds its
/// hash to the root: whatever the number of leaves, each leaf verifies
/// against the root with the path that the tree gives for it.
pub proof fn lemma_path_folds_to_root(leaves: Seq<MTNodeView>, i: int)
    requires
        0 <= i < tree_nodes(leaves).len(),
        no_clash(tree_nodes(leaves)),
        all_wide(tree_nodes(leaves)),
    ensures
        acyclic(node_map(tree_nodes(leaves))),
        fold_path(
            tree_nodes(leaves)[i].hash,
            sibling_path(node_map(tree_nodes(leaves)), tree_nodes(leaves)[i].hash),
        ) == tree_nodes(leaves).last().hash,
    decreases tree_nodes(leaves).len() - i,
{
    let all = tree_nodes(leaves);
    let m = node_map(all);
    let key = all[i].hash;
    lemma_tree_acyclic(leaves);
    lemma_tree_nodes_chained(leaves);
    lemma_tree_nodes_family(leaves);
    lemma_last_index(all, key);
    assert(m[key] == all[i]);
    if i == all.len() - 1 {
        assert(leaves.len() > 0) by {
            if leaves.len() == 0 {
                assert(all.len() == 0);
            }
        }
        assert(all.last() == all[i]);
        assert(sibling_path(m, key) =~= Seq::empty());
    } else {
        let j = parent_pos(leaves.len(), i);
        let top = all[j].hash;
        assert(all[i].parent == Some(top));
        lemma_last_index(all, top);
        assert(m[top] == all[j]);
        let other = sibling_of(all[j], key);
        let rest = sibling_path(m, top);
        let path = seq![other] + rest;
        assert(sibling_path(m, key) =~= path);
        assert(path[0] == other);
        assert(path.drop_first() =~= rest);
        assert(blake3_hex(xor_pad(key, other)) == top) by {
            assert(is_parent_of(all[j], key));
            if all[j].l == Some(key) {
                if all[j].r.is_none() {
                    lemma_xor_pad_empty(key);
                } else if all[j].hash != blake3_hex(xor_pad(key, all[j].r.unwrap())) {
                    assert(all[j].r == Some(key));
                }
            } else {
                lemma_xor_pad_commutative(all[j].l.unwrap(), key);
            }
        }
        lemma_path_folds_to_root(leaves, j);
    }
}

/// Two different byte strings with the same hash.
pub open spec fn collide(x: Seq<u8>, y: Seq<u8>) -> bool {
    x != y && blake3_hex(x) == blake3_hex(y)
}

/// Whether the hash function fails as a hash: two inputs collide, or some
/// hash is not of the hash width.
pub open spec fn hash_breaks() -> bool {
    ||| exists|x: Seq<u8>, y: Seq<u8>| collide(x, y)
    ||| exists|x: Seq<u8>| blake3_hex(x).len() != HASH_WIDTH
}

/// XOR with a common sibling keeps two different hashes of the hash width
/// apart.
pub proof fn lemma_xor_pad_injective(a: Seq<u8>, b: Seq<u8>, sibling: Seq<u8>)
    requires
        a.len() == HASH_WIDTH,
        b.len() == HASH_WIDTH,
        xor_pad(a, sibling) == xor_pad(b, sibling),
    ensures
        a == b,
{
    assert forall|i: int| 0 <= i < a.len() implies a[i] == b[i] by {
        let s = byte_or_zero(sibling, i);
        assert(xor_pad(a, sibling)[i] == a[i] ^ s);
        assert(xor_pad(b, sibling)[i] == b[i] ^ s);
        let x = a[i];
        let y = b[i];
        assert(x ^ s == y ^ s ==> x == y) by (bit_vector);
    }
    assert(a =~= b);
}

/// Two different accumulated hashes of the hash width that one sibling path
/// folds to the same value show that the hash function fails as a hash.
pub proof fn lemma_fold_path_apart(a: Seq<u8>, b: Seq<u8>, path: Seq<Seq<u8>>)
    requires
        a != b,
        a.len() == HASH_WIDTH,
        b.len() == HASH_WIDTH,
        fold_path(a, path) == fold_path(b, path),
    ensures
        hash_breaks(),
    decreases path.len(),
{
    if path.len() > 0 {
        let x = xor_pad(a, path[0]);
        let y = xor_pad(b, path[0]);
        if x == y {
            lemma_xor_pad_injective(a, b, path[0]);
        }
        if blake3_hex(x) == blake3_hex(y) {
            assert(collide(x, y));
        } else if blake3_hex(x).len() != HASH_WIDTH {
        } else if blake3_hex(y).len() != HASH_WIDTH {
        } else {
            lemma_fold_path_apart(blake3_hex(x), blake3_hex(y), path.drop_first());
        }
    }
}

/// Tamper evidence of the tree scheme: where a blob verifies against a
/// root along a path, a blob with another hash verifies along the same
/// path against the same root only if the hash function fails as a hash.
pub proof fn lemma_tamper_detected(
    data: Seq<u8>,
    tampered: Seq<u8>,
    path: Seq<Seq<u8>>,
    root: Seq<u8>,
)
    ensures
        path_verifies(data, path, root) && blake3_hex(tampered) != blake3_hex(data)
            && path_verifies(tampered, path, root) ==> hash_breaks(),
        blake3_hex(tampered) != blake3_hex(data) && path_verifies(data, Seq::empty(), root)
            ==> !path_verifies(tampered, Seq::empty(), root),
{
    let a = blake3_hex(data);
    let b = blake3_hex(tampered);
    if path_verifies(data, path, root) && a != b && path_verifies(tampered, path, root) {
        if a.len() == HASH_WIDTH && b.len() == HASH_WIDTH {
            lemma_fold_path_apart(a, b, path);
        }
    }
}

/// Appends to `data` the nodes of one level with their parents set, and
/// returns the level above.
fn build_level(nodes: &Vec<MTNode>, data: &mut Vec<MTNode>) -> (next: Vec<MTNode>)
    requires
        nodes.len() >= 2,
    ensures
        node_views(final(data)@) == node_views(old(data)@) + with_parents(node_views(nodes@)),
        node_views(next@) == level_up(node_views(nodes@)),
        next.len() < nodes.len(),
{
    let ghost level = node_views(nodes@);
    let ghost before = node_views(data@);
    let n = nodes.len();
    let mut next: Vec<MTNode> = Vec::new();
    let mut i: usize = 0;
    assert(node_views(data@) =~= before + with_parents(level).subrange(0, 0));
    assert(node_views(next@) =~= level_up(level).subrange(0, 0));
    while i < n
        invariant
            n == nodes.len(),
            level == node_views(nodes@),
            i <= n,
            i % 2 == 0 || i == n,
            next.len() == (i + 1) / 2,
            node_views(data@) == before + with_parents(level).subrange(0, i as int),
            node_views(next@) == level_up(level).subrange(0, (i + 1) / 2),
        decreases n - i,
    {
        let ghost data_before = node_views(data@);
        let ghost next_before = node_views(next@);
        let left = &nodes[i];
        if n - i >= 2 {
            let right = &nodes[i + 1];
            let combined = xor_pad_bytes(left.hash.as_slice(), right.hash.as_slice());
            let parent = MTNode {
                hash: hash_hex(combined.as_slice()),
                l: Some(copy_bytes(left.hash.as_slice())),
                r: Some(copy_bytes(right.hash.as_slice())),
                parent: None,
            };
            assert(parent@ == level_up(level)[(i / 2) as int]);
            data.push(
                MTNode {
                    hash: copy_bytes(left.hash.as_slice()),
                    l: copy_opt_bytes(&left.l),
                    r: copy_opt_bytes(&left.r),
                    parent: Some(copy_bytes(parent.hash.as_slice())),
                },
            );
            data.push(
                MTNode {
                    hash: copy_bytes(right.hash.as_slice()),
                    l: copy_opt_bytes(&right.l),
                    r: copy_opt_bytes(&right.r),
                    parent: Some(copy_bytes(parent.hash.as_slice())),
                },
            );
            next.push(parent);
            proof {
                let done = with_parents(level);
                assert(done[i as int] == with_parent(level[i as int], Some(parent@.hash)));
                assert(done[i + 1] == with_parent(level[i + 1], Some(parent@.hash)));
                assert(node_views(data@) =~= data_before.push(done[i as int]).push(done[i + 1]));
                assert(node_views(data@) =~= before + done.subrange(0, i + 2));
                assert(node_views(next@) =~= next_before.push(parent@));
                assert(node_views(next@) =~= level_up(level).subrange(0, (i + 3) / 2));
            }
            i += 2;
        } else {
            let parent = MTNode {
                hash: hash_hex(left.hash.as_slice()),
                l: Some(copy_bytes(left.hash.as_slice())),
                r: None,
                parent: None,
            };
            assert(parent@ == level_up(level)[(i / 2) as int]);
            data.push(
                MTNode {
                    hash: copy_bytes(left.hash.as_slice()),
                    l: copy_opt_bytes(&left.l),
                    r: copy_opt_bytes(&left.r),
                    parent: Some(copy_bytes(parent.hash.as_slice())),
                },
            );
            next.push(parent);
            proof {
                let done = with_parents(level);
                assert(done[i as int] == with_parent(level[i as int], Some(parent@.hash)));
                assert(node_views(data@) =~= data_before.push(done[i as int]));
                assert(node_views(data@) =~= before + done.subrange(0, i + 1));
                assert(node_views(next@) =~= next_before.push(parent@));
                assert(node_views(next@) =~= level_up(level).subrange(0, (i + 2) / 2));
            }
            i += 1;
        }
    }
    assert(with_parents(level).subrange(0, n as int) =~= with_parents(level));
    assert(level_up(level).subrange(0, (n + 1) / 2) =~= level_up(level));
    next
}

} // verus!

//! The integrity store: one of the two schemes behind one interface. It
//! holds the current aggregate over a set of files, makes membership proofs
//! and checks them.

use crate::bromberg_hash::{
    file_hash,
    file_hashes,
    folder_hash,
    get_folder_hash,
    hash_file,
    hash_verifies,
    make_proof,
    matadd,
    matsub,
    proof_for,
    updated,
    verify,
    zero,
    HashMatrixEx,
};
use crate::bytes::{copy_bytes, rows};
use crate::merkletree::{
    acyclic,
    blake3_hex,
    leaves_of,
    node_map,
    path_verifies,
    sibling_path,
    tree_nodes,
    tree_root,
    MTNode,
    MTNodeView,
    MerkleTree,
    MerkleTreeView,
};
use crate::protocol::{
    Aggregate,
    AggregateView,
    FileHash,
    FileHashView,
    MembershipProof,
    MembershipProofView,
};
use vstd::prelude::*;

verus! {

/// Which of the two schemes a store runs.
#[derive(Clone, Copy, Debug, PartialEq, Eq, Structural)]
pub enum Scheme {
    Tree,
    Algebraic,
}

/// The state of a store: the hash tree over the files, or their digest.
#[derive(Debug)]
pub enum IntegrityStore {
    Tree(MerkleTree),
    Algebraic(HashMatrixEx),
}

/// A store as plain values.
pub enum StoreView {
    Tree(MerkleTreeView),
    Algebraic(HashMatrixEx),
}

impl View for IntegrityStore {
    type V = StoreView;

    open spec fn view(&self) -> StoreView {
        match self {
            IntegrityStore::Tree(tree) => StoreView::Tree(tree@),
            IntegrityStore::Algebraic(root) => StoreView::Algebraic(*root),
        }
    }
}

/// The scheme of a store.
pub open spec fn scheme_of(store: StoreView) -> Scheme {
    match store {
        StoreView::Tree(_) => Scheme::Tree,
        StoreView::Algebraic(_) => Scheme::Algebraic,
    }
}

/// The store of a scheme over no files.
pub open spec fn empty_store(scheme: Scheme) -> StoreView {
    match scheme {
        Scheme::Tree => StoreView::Tree(
            MerkleTreeView { root: None, data: Map::<Seq<u8>, MTNodeView>::empty() },
        ),
        Scheme::Algebraic => StoreView::Algebraic(zero()),
    }
}

/// The store of a scheme over the given files, in the order listed.
pub open spec fn store_over(scheme: Scheme, files: Seq<Seq<u8>>) -> StoreView {
    match scheme {
        Scheme::Tree => StoreView::Tree(
            MerkleTreeView {
                root: tree_root(leaves_of(files)),
                data: node_map(tree_nodes(leaves_of(files))),
            },
        ),
        Scheme::Algebraic => StoreView::Algebraic(folder_hash(files)),
    }
}

/// The store after an update in place: under the additive scheme the
/// removed files' hashes are taken out of the root and the added ones put
/// in; a tree store stays as it is.
pub open spec fn store_updated(
    store: StoreView,
    added: Seq<Seq<u8>>,
    removed: Seq<Seq<u8>>,
) -> StoreView {
    match store {
        StoreView::Tree(_) => store,
        StoreView::Algebraic(root) => StoreView::Algebraic(
            updated(root, file_hashes(added), file_hashes(removed)),
        ),
    }
}

/// The aggregate that a store holds.
pub open spec fn aggregate_of(store: StoreView) -> AggregateView {
    match store {
        StoreView::Tree(tree) => AggregateView::Tree(tree.root),
        StoreView::Algebraic(root) => AggregateView::Algebraic(root),
    }
}

/// The hash of a file under a store's scheme.
pub open spec fn hash_by(store: StoreView, data: Seq<u8>) -> FileHashView {
    match store {
        StoreView::Tree(_) => FileHashView::Tree(blake3_hex(data)),
        StoreView::Algebraic(_) => FileHashView::Algebraic(file_hash(data)),
    }
}

/// The proof that a store makes for a file. Under the tree scheme it is
/// the sibling path of the file's leaf, empty where the tree has no such
/// leaf; under the additive scheme, the root less the file's hash.
pub open spec fn proof_by(store: StoreView, data: Seq<u8>) -> MembershipProofView {
    match store {
        StoreView::Tree(tree) => MembershipProofView::Tree(
            if tree.data.dom().contains(blake3_hex(data)) {
                sibling_path(tree.data, blake3_hex(data))
            } else {
                Seq::empty()
            },
        ),
        StoreView::Algebraic(root) => MembershipProofView::Algebraic(
            proof_for(root, file_hash(data)),
        ),
    }
}

/// Whether an aggregate accepts a file with a proof. A proof of the other
/// scheme is never accepted, and no file is accepted by the tree scheme's
/// aggregate over no files.
pub open spec fn accepts(
    aggregate: AggregateView,
    data: Seq<u8>,
    proof: MembershipProofView,
) -> bool {
    match (aggregate, proof) {
        (AggregateView::Tree(Some(root)), MembershipProofView::Tree(path)) => path_verifies(
            data,
            path,
            root,
        ),
        (AggregateView::Algebraic(root), MembershipProofView::Algebraic(witness)) => hash_verifies(
            file_hash(data),
            witness,
            root,
        ),
        _ => false,
    }
}

impl IntegrityStore {
    /// A store over no files.
    pub fn new(scheme: Scheme) -> (store: IntegrityStore)
        ensures
            store@ == empty_store(scheme),
    {
        match scheme {
            Scheme::Tree => IntegrityStore::Tree(MerkleTree::default()),
            Scheme::Algebraic => IntegrityStore::Algebraic(HashMatrixEx(0, 0, 0, 0)),
        }
    }

    /// The scheme that the store runs.
    pub fn scheme(&self) -> (scheme: Scheme)
        ensures
            scheme == scheme_of(self@),
    {
        match self {
            IntegrityStore::Tree(_) => Scheme::Tree,
            IntegrityStore::Algebraic(_) => Scheme::Algebraic,
        }
    }

    /// Recomputes the aggregate over the files now in the store, given by
    /// their contents in the caller's order.
    pub fn rebuild(&mut self, files: &Vec<Vec<u8>>)
        ensures
            final(self)@ == store_over(scheme_of(old(self)@), rows(files@)),
    {
        let rebuilt = match self {
            IntegrityStore::Tree(_) => IntegrityStore::Tree(MerkleTree::from_folder(files)),
            IntegrityStore::Algebraic(_) => IntegrityStore::Algebraic(get_folder_hash(files)),
        };
        *self = rebuilt;
    }

    /// Updates the aggregate for a change of the folder without a rescan,
    /// from the contents of the files that came and of those that went.
    /// Only the additive scheme can do so: a tree store is left as it is,
    /// and the result says `false`.
    pub fn update(&mut self, added: &Vec<Vec<u8>>, removed: &Vec<Vec<u8>>) -> (done: bool)
        ensures
            final(self)@ == store_updated(old(self)@, rows(added@), rows(removed@)),
            done == (scheme_of(old(self)@) == Scheme::Algebraic),
    {
        let root = match self {
            IntegrityStore::Tree(_) => {
                return false;
            },
            IntegrityStore::Algebraic(root) => *root,
        };
        let less = matsub(root, get_folder_hash(removed));
        *self = IntegrityStore::Algebraic(matadd(less, get_folder_hash(added)));
        true
    }

    /// The aggregate that the store holds now.
    pub fn aggregate(&self) -> (aggregate: Aggregate)
        ensures
            aggregate@ == aggregate_of(self@),
    {
        match self {
            IntegrityStore::Tree(tree) => Aggregate::Tree(tree.root()),
            IntegrityStore::Algebraic(root) => Aggregate::Algebraic(*root),
        }
    }

    /// The hash of a file under the store's scheme.
    pub fn file_hash(&self, data: &[u8]) -> (hash: FileHash)
        ensures
            hash@ == hash_by(self@, data@),
    {
        match self {
            IntegrityStore::Tree(_) => FileHash::Tree(MTNode::leaf(data).hash),
            IntegrityStore::Algebraic(_) => FileHash::Algebraic(hash_file(data)),
        }
    }

    /// The membership proof for a file against the current aggregate.
    pub fn prove(&self, data: &[u8]) -> (evidence: MembershipProof)
        ensures
            evidence@ == proof_by(self@, data@),
            self@ matches StoreView::Tree(tree) ==> acyclic(tree.data),
    {
        match self {
            IntegrityStore::Tree(tree) => {
                match tree.get_proof(data) {
                    Some(path) => MembershipProof::Tree(path),
                    None => {
                        let path: Vec<Vec<u8>> = Vec::new();
                        assert(rows(path@) =~= Seq::<Seq<u8>>::empty());
                        MembershipProof::Tree(path)
                    },
                }
            },
            IntegrityStore::Algebraic(root) => MembershipProof::Algebraic(make_proof(*root, data)),
        }
    }
}

impl Aggregate {
    /// The aggregate of a scheme over the given files: what a client
    /// captures from its own files before it uploads them.
    pub fn capture(scheme: Scheme, files: &Vec<Vec<u8>>) -> (aggregate: Aggregate)
        ensures
            aggregate@ == aggregate_of(store_over(scheme, rows(files@))),
    {
        let mut store = IntegrityStore::new(scheme);
        store.rebuild(files);
        store.aggregate()
    }

    /// Whether the aggregate accepts the file `data` with the proof given.
    pub fn verify(&self, data: &Vec<u8>, evidence: &MembershipProof) -> (r: bool)
        ensures
            r == accepts(self@, data@, evidence@),
    {
        match self {
            Aggregate::Tree(root) => match (root, evidence) {
                (Some(root), MembershipProof::Tree(path)) => {
                    let path = copy_rows(path);
                    MerkleTree::verify_data_with_proof(data, path, copy_bytes(root.as_slice()))
                },
                _ => false,
            },
            Aggregate::Algebraic(root) => match evidence {
                MembershipProof::Algebraic(witness) => verify(data.as_slice(), *witness, *root),
                _ => false,
            },
        }
    }
}

/// Under the additive scheme every file is accepted with the proof that
/// the store makes for it, whatever the store holds.
pub proof fn lemma_algebraic_round_trip(root: HashMatrixEx, data: Seq<u8>)
    ensures
        accepts(
            aggregate_of(StoreView::Algebraic(root)),
            data,
            proof_by(StoreView::Algebraic(root), data),
        ),
{
    crate::bromberg_hash::lemma_complement_inverts(root, file_hash(data));
}

/// Under the additive scheme a file whose hash differs from that of the
/// file a proof was made for is not accepted with that proof.
pub proof fn lemma_algebraic_tamper(root: HashMatrixEx, data: Seq<u8>, tampered: Seq<u8>)
    ensures
        file_hash(tampered) != file_hash(data) ==> !accepts(
            aggregate_of(StoreView::Algebraic(root)),
            tampered,
            proof_by(StoreView::Algebraic(root), data),
        ),
{
    crate::bromberg_hash::lemma_tamper_detected(data, tampered, root);
}

/// An update in place agrees with a rescan: an additive store over the
/// files `kept` and `removed`, updated, is the store over `kept` and
/// `added`.
pub proof fn lemma_update_is_rescan(
    kept: Seq<Seq<u8>>,
    removed: Seq<Seq<u8>>,
    added: Seq<Seq<u8>>,
)
    ensures
        store_updated(store_over(Scheme::Algebraic, kept + removed), added, removed) == store_over(
            Scheme::Algebraic,
            kept + added,
        ),
{
    assert(file_hashes(kept + removed) =~= file_hashes(kept) + file_hashes(removed));
    assert(file_hashes(kept + added) =~= file_hashes(kept) + file_hashes(added));
    crate::bromberg_hash::lemma_update_matches_rescan(
        file_hashes(kept),
        file_hashes(removed),
        file_hashes(added),
    );
}

/// Under the tree scheme a store over one file or over two accepts each of
/// its files with the proof that it makes for it.
pub proof fn lemma_tree_round_trip(files: Seq<Seq<u8>>, i: int)
    requires
        1 <= files.len() <= 2,
        0 <= i < files.len(),
    ensures
        accepts(
            aggregate_of(store_over(Scheme::Tree, files)),
            files[i],
            proof_by(store_over(Scheme::Tree, files), files[i]),
        ),
{
    let leaves = leaves_of(files);
    let key = blake3_hex(files[i]);
    if files.len() == 1 {
        assert(leaves =~= seq![leaves[0]]);
        crate::merkletree::lemma_single_leaf(leaves[0], files[i]);
    } else {
        assert(leaves =~= seq![leaves[0], leaves[1]]);
        crate::merkletree::lemma_two_leaves(leaves[0], leaves[1], files[i]);
        crate::merkletree::lemma_two_leaves_verify(leaves[0], leaves[1], files[i]);
        crate::merkletree::lemma_last_index(tree_nodes(leaves), key);
        assert(tree_nodes(leaves)[i].hash == key);
    }
}

/// A copy of a list of byte strings.
pub fn copy_rows(list: &Vec<Vec<u8>>) -> (r: Vec<Vec<u8>>)
    ensures
        rows(r@) == rows(list@),
{
    let mut r: Vec<Vec<u8>> = Vec::new();
    let mut i: usize = 0;
    while i < list.len()
        invariant
            i <= list.len(),
            rows(r@) == rows(list@).subrange(0, i as int),
        decreases list.len() - i,
    {
        let ghost before = rows(r@);
        r.push(copy_bytes(list[i].as_slice()));
        assert(rows(r@) =~= before.push(list@[i as int]@));
        assert(rows(r@) =~= rows(list@).subrange(0, i + 1));
        i += 1;
    }
    assert(rows(list@).subrange(0, list.len() as int) =~= rows(list@));
    r
}

} // verus!

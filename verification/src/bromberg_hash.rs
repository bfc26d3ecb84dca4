//! The additive digest: four independent 128-bit lanes under modular
//! addition, and the two-word arithmetic it is built from.

use crate::bytes::rows;
use crate::hex::{
    all_hex,
    hex_text,
    hex_value,
    is_hex,
    lemma_hex_text,
    lemma_pow16_of_32,
    read_u128,
    write_hex,
};
use vstd::prelude::*;

verus! {

/// Two to the power 128: the modulus of one lane.
pub open spec fn lane_modulus() -> int {
    0x1_0000_0000_0000_0000_0000_0000_0000_0000int
}

/// A 256-bit unsigned number, high word first.
#[derive(Clone, Copy, Debug, PartialEq, Eq, Structural)]
pub struct U256(pub u128, pub u128);

impl U256 {
    /// The number that the two words stand for.
    pub open spec fn value(self) -> int {
        self.0 as int * lane_modulus() + self.1 as int
    }
}

/// Whether adding the two low words carries into the high word.
pub open spec fn carries(x: u128, y: u128) -> bool {
    x as int + y as int >= lane_modulus()
}

/// Whether subtracting the low word `y` from `x` borrows from the high word.
pub open spec fn borrows(x: u128, y: u128) -> bool {
    (x as int) < y as int
}

/// Addition modulo 2^256: the low words are added first and their carry
/// goes into the sum of the high words; a carry out of the high word is
/// dropped.
pub fn add(x: U256, y: U256) -> (r: U256)
    ensures
        r.1 as int == (x.1 as int + y.1 as int) % lane_modulus(),
        r.0 as int == (x.0 as int + y.0 as int + if carries(x.1, y.1) { 1int } else { 0int })
            % lane_modulus(),
        r.value() == (x.value() + y.value()) % (lane_modulus() * lane_modulus()),
{
    let low: u128 = x.1.wrapping_add(y.1);
    let carry: u128 = if low < x.1 { 1 } else { 0 };
    let high: u128 = x.0.wrapping_add(y.0).wrapping_add(carry);
    let r = U256(high, low);
    proof {
        lemma_add_words(x, y, r);
    }
    r
}

proof fn lemma_add_words(x: U256, y: U256, r: U256)
    requires
        r.1 as int == (x.1 as int + y.1 as int) % lane_modulus(),
        r.0 as int == (x.0 as int + y.0 as int + if carries(x.1, y.1) { 1int } else { 0int })
            % lane_modulus(),
    ensures
        r.value() == (x.value() + y.value()) % (lane_modulus() * lane_modulus()),
{
    let m = lane_modulus();
    let c: int = if carries(x.1, y.1) { 1 } else { 0 };
    let hi = x.0 as int + y.0 as int + c;
    let q: int = if hi >= m { 1 } else { 0 };
    assert(r.1 as int == x.1 as int + y.1 as int - c * m);
    assert(r.0 as int == hi - q * m);
    assert(x.value() + y.value() == r.value() + q * (m * m)) by (nonlinear_arith)
        requires
            x.value() == x.0 as int * m + x.1 as int,
            y.value() == y.0 as int * m + y.1 as int,
            r.value() == r.0 as int * m + r.1 as int,
            r.1 as int == x.1 as int + y.1 as int - c * m,
            r.0 as int == x.0 as int + y.0 as int + c - q * m,
    ;
    assert(0 <= r.value() < m * m) by (nonlinear_arith)
        requires
            r.value() == r.0 as int * m + r.1 as int,
            0 <= r.0 as int <= m - 1,
            0 <= r.1 as int <= m - 1,
            m > 0,
    ;
    vstd::arithmetic::div_mod::lemma_fundamental_div_mod_converse(
        x.value() + y.value(),
        m * m,
        q,
        r.value(),
    );
}

/// Subtraction modulo 2^256: the low words are subtracted first and their
/// borrow is taken from the difference of the high words; a borrow out of
/// the high word is dropped.
pub fn substract2(x: U256, y: U256) -> (r: U256)
    ensures
        r.1 as int == (x.1 as int - y.1 as int) % lane_modulus(),
        r.0 as int == (x.0 as int - y.0 as int - if borrows(x.1, y.1) { 1int } else { 0int })
            % lane_modulus(),
        r.value() == (x.value() - y.value()) % (lane_modulus() * lane_modulus()),
{
    let low: u128 = x.1.wrapping_sub(y.1);
    let borrow: u128 = if x.1 < y.1 { 1 } else { 0 };
    let high: u128 = x.0.wrapping_sub(borrow).wrapping_sub(y.0);
    let r = U256(high, low);
    proof {
        lemma_sub_words(x, y, r);
    }
    r
}

proof fn lemma_sub_words(x: U256, y: U256, r: U256)
    requires
        r.1 as int == (x.1 as int - y.1 as int) % lane_modulus(),
        r.0 as int == (x.0 as int - y.0 as int - if borrows(x.1, y.1) { 1int } else { 0int })
            % lane_modulus(),
    ensures
        r.value() == (x.value() - y.value()) % (lane_modulus() * lane_modulus()),
{
    let m = lane_modulus();
    let b: int = if borrows(x.1, y.1) { 1 } else { 0 };
    let hi = x.0 as int - y.0 as int - b;
    let q: int = if hi < 0 { -1 } else { 0 };
    assert(r.1 as int == x.1 as int - y.1 as int + b * m);
    assert(r.0 as int == hi - q * m);
    assert(x.value() - y.value() == r.value() + q * (m * m)) by (nonlinear_arith)
        requires
            x.value() == x.0 as int * m + x.1 as int,
            y.value() == y.0 as int * m + y.1 as int,
            r.value() == r.0 as int * m + r.1 as int,
            r.1 as int == x.1 as int - y.1 as int + b * m,
            r.0 as int == x.0 as int - y.0 as int - b - q * m,
    ;
    assert(0 <= r.value() < m * m) by (nonlinear_arith)
        requires
            r.value() == r.0 as int * m + r.1 as int,
            0 <= r.0 as int <= m - 1,
            0 <= r.1 as int <= m - 1,
            m > 0,
    ;
    vstd::arithmetic::div_mod::lemma_fundamental_div_mod_converse(
        x.value() - y.value(),
        m * m,
        q,
        r.value(),
    );
}

/// The sum of two lanes modulo 2^128.
pub open spec fn lane_add(a: u128, b: u128) -> u128 {
    ((a + b) % lane_modulus()) as u128
}

/// The difference of two lanes modulo 2^128.
pub open spec fn lane_sub(a: u128, b: u128) -> u128 {
    ((a - b) % lane_modulus()) as u128
}

/// A lane sum wraps at most once.
pub proof fn lemma_lane_add(a: u128, b: u128)
    ensures
        lane_add(a, b) as int == if a + b >= lane_modulus() {
            a + b - lane_modulus()
        } else {
            a + b
        },
{
    let m = lane_modulus();
    if a + b >= m {
        vstd::arithmetic::div_mod::lemma_fundamental_div_mod_converse(a + b, m, 1, a + b - m);
    } else {
        vstd::arithmetic::div_mod::lemma_fundamental_div_mod_converse(a + b, m, 0, a + b);
    }
}

/// A lane difference wraps at most once.
pub proof fn lemma_lane_sub(a: u128, b: u128)
    ensures
        lane_sub(a, b) as int == if a - b < 0 {
            a - b + lane_modulus()
        } else {
            a - b
        },
{
    let m = lane_modulus();
    if a - b < 0 {
        vstd::arithmetic::div_mod::lemma_fundamental_div_mod_converse(a - b, m, -1, a - b + m);
    } else {
        vstd::arithmetic::div_mod::lemma_fundamental_div_mod_converse(a - b, m, 0, a - b);
    }
}

/// A value of the additive digest: four lanes of 128 bits, each on its own.
#[derive(Clone, Copy, Debug, PartialEq, Eq, Structural, Hash, PartialOrd, Ord)]
pub struct HashMatrixEx(pub u128, pub u128, pub u128, pub u128);

impl Default for HashMatrixEx {
    /// The identity of `combine`: every lane zero.
    fn default() -> (r: Self)
        ensures
            r == zero(),
    {
        HashMatrixEx(0, 0, 0, 0)
    }
}

/// The value with every lane zero.
pub open spec fn zero() -> HashMatrixEx {
    HashMatrixEx(0, 0, 0, 0)
}

/// Lane-wise sum modulo 2^128.
pub open spec fn combine(a: HashMatrixEx, b: HashMatrixEx) -> HashMatrixEx {
    HashMatrixEx(lane_add(a.0, b.0), lane_add(a.1, b.1), lane_add(a.2, b.2), lane_add(a.3, b.3))
}

/// Lane-wise difference modulo 2^128, with no borrow from lane to lane.
pub open spec fn complement(a: HashMatrixEx, b: HashMatrixEx) -> HashMatrixEx {
    HashMatrixEx(lane_sub(a.0, b.0), lane_sub(a.1, b.1), lane_sub(a.2, b.2), lane_sub(a.3, b.3))
}

/// The `combine` of all the values of a sequence, from the zero value on.
pub open spec fn digest(hashes: Seq<HashMatrixEx>) -> HashMatrixEx
    decreases hashes.len(),
{
    if hashes.len() == 0 {
        zero()
    } else {
        combine(digest(hashes.drop_last()), hashes.last())
    }
}

/// The proof that a file with hash `file_hash` belongs to the set with
/// digest `root`: the digest of all the other files.
pub open spec fn proof_for(root: HashMatrixEx, file_hash: HashMatrixEx) -> HashMatrixEx {
    complement(root, file_hash)
}

/// Whether a file hash and a proof add up to the root.
pub open spec fn hash_verifies(
    file_hash: HashMatrixEx,
    witness: HashMatrixEx,
    root: HashMatrixEx,
) -> bool {
    combine(witness, file_hash) == root
}

/// The digest after an update: the removed files taken out of the root, the
/// added ones put in.
pub open spec fn updated(
    root: HashMatrixEx,
    added: Seq<HashMatrixEx>,
    removed: Seq<HashMatrixEx>,
) -> HashMatrixEx {
    combine(complement(root, digest(removed)), digest(added))
}

/// Adds two values lane by lane, each lane through the two-word sum.
pub fn matadd(a: HashMatrixEx, b: HashMatrixEx) -> (r: HashMatrixEx)
    ensures
        r == combine(a, b),
{
    HashMatrixEx(
        self::add(U256(a.0, 0), U256(b.0, 0)).0,
        self::add(U256(a.1, 0), U256(b.1, 0)).0,
        self::add(U256(a.2, 0), U256(b.2, 0)).0,
        self::add(U256(a.3, 0), U256(b.3, 0)).0,
    )
}

/// Subtracts `b` from `a` lane by lane, each lane through the two-word
/// difference.
pub fn matsub(a: HashMatrixEx, b: HashMatrixEx) -> (r: HashMatrixEx)
    ensures
        r == complement(a, b),
{
    HashMatrixEx(
        substract2(U256(a.0, 0), U256(b.0, 0)).0,
        substract2(U256(a.1, 0), U256(b.1, 0)).0,
        substract2(U256(a.2, 0), U256(b.2, 0)).0,
        substract2(U256(a.3, 0), U256(b.3, 0)).0,
    )
}

/// `combine` does not depend on the order of its operands.
pub proof fn lemma_combine_commutative(a: HashMatrixEx, b: HashMatrixEx)
    ensures
        combine(a, b) == combine(b, a),
{
}

/// `combine` does not depend on how its operands are grouped.
pub proof fn lemma_combine_associative(a: HashMatrixEx, b: HashMatrixEx, c: HashMatrixEx)
    ensures
        combine(combine(a, b), c) == combine(a, combine(b, c)),
{
    lemma_lane_add_associative(a.0, b.0, c.0);
    lemma_lane_add_associative(a.1, b.1, c.1);
    lemma_lane_add_associative(a.2, b.2, c.2);
    lemma_lane_add_associative(a.3, b.3, c.3);
}

proof fn lemma_lane_add_associative(a: u128, b: u128, c: u128)
    ensures
        lane_add(lane_add(a, b), c) == lane_add(a, lane_add(b, c)),
{
    lemma_lane_add(a, b);
    lemma_lane_add(b, c);
    lemma_lane_add(lane_add(a, b), c);
    lemma_lane_add(a, lane_add(b, c));
}

/// The zero value is the identity of `combine`.
pub proof fn lemma_combine_zero(a: HashMatrixEx)
    ensures
        combine(a, zero()) == a,
        combine(zero(), a) == a,
{
    lemma_lane_add(a.0, 0);
    lemma_lane_add(a.1, 0);
    lemma_lane_add(a.2, 0);
    lemma_lane_add(a.3, 0);
    lemma_lane_add(0, a.0);
    lemma_lane_add(0, a.1);
    lemma_lane_add(0, a.2);
    lemma_lane_add(0, a.3);
}

/// `complement` undoes `combine`, and `combine` undoes `complement`.
pub proof fn lemma_complement_inverts(a: HashMatrixEx, b: HashMatrixEx)
    ensures
        complement(combine(a, b), b) == a,
        combine(complement(a, b), b) == a,
{
    lemma_lane_inverts(a.0, b.0);
    lemma_lane_inverts(a.1, b.1);
    lemma_lane_inverts(a.2, b.2);
    lemma_lane_inverts(a.3, b.3);
}

proof fn lemma_lane_inverts(a: u128, b: u128)
    ensures
        lane_sub(lane_add(a, b), b) == a,
        lane_add(lane_sub(a, b), b) == a,
{
    lemma_lane_add(a, b);
    lemma_lane_sub(lane_add(a, b), b);
    lemma_lane_sub(a, b);
    lemma_lane_add(lane_sub(a, b), b);
}

/// Adding the same value to two different values gives two different
/// values.
pub proof fn lemma_combine_cancels(w: HashMatrixEx, a: HashMatrixEx, b: HashMatrixEx)
    requires
        combine(w, a) == combine(w, b),
    ensures
        a == b,
{
    lemma_complement_inverts(a, w);
    lemma_complement_inverts(b, w);
    lemma_combine_commutative(w, a);
    lemma_combine_commutative(w, b);
}

/// Taking one value out of a sequence and adding it back gives the digest
/// of the whole sequence.
pub proof fn lemma_digest_remove(hashes: Seq<HashMatrixEx>, i: int)
    requires
        0 <= i < hashes.len(),
    ensures
        digest(hashes) == combine(digest(hashes.remove(i)), hashes[i]),
    decreases hashes.len(),
{
    if i == hashes.len() - 1 {
        assert(hashes.remove(i) =~= hashes.drop_last());
    } else {
        let front = hashes.drop_last();
        let last = hashes.last();
        lemma_digest_remove(front, i);
        assert(hashes.remove(i).drop_last() =~= front.remove(i));
        assert(hashes.remove(i).last() == last);
        let rest = digest(front.remove(i));
        lemma_combine_associative(rest, hashes[i], last);
        lemma_combine_commutative(hashes[i], last);
        lemma_combine_associative(rest, last, hashes[i]);
    }
}

/// The digest does not depend on the order in which the values are listed:
/// two sequences with the same values, each as often, have the same digest.
pub proof fn lemma_digest_permutation(first: Seq<HashMatrixEx>, second: Seq<HashMatrixEx>)
    requires
        first.to_multiset() == second.to_multiset(),
    ensures
        digest(first) == digest(second),
    decreases first.len(),
{
    broadcast use vstd::seq_lib::group_to_multiset_ensures;

    if first.len() == 0 {
        assert(first.to_multiset().len() == first.len());
        assert(second.to_multiset().len() == second.len());
    } else {
        let last = first.last();
        assert(first.contains(last));
        assert(second.to_multiset().count(last) > 0);
        assert(second.contains(last));
        let i = choose|i: int| 0 <= i < second.len() && second[i] == last;
        assert(first.drop_last() =~= first.remove(first.len() - 1));
        lemma_digest_permutation(first.drop_last(), second.remove(i));
        lemma_digest_remove(second, i);
    }
}

/// The digest of two sequences joined is the `combine` of their digests.
pub proof fn lemma_digest_concat(first: Seq<HashMatrixEx>, second: Seq<HashMatrixEx>)
    ensures
        digest(first + second) == combine(digest(first), digest(second)),
    decreases second.len(),
{
    if second.len() == 0 {
        assert(first + second =~= first);
        lemma_combine_zero(digest(first));
    } else {
        assert((first + second).drop_last() =~= first + second.drop_last());
        lemma_digest_concat(first, second.drop_last());
        lemma_combine_associative(digest(first), digest(second.drop_last()), second.last());
    }
}

/// An update in place agrees with a fresh digest: for a store that held
/// `kept` and `removed`, the updated root is the digest of `kept` and
/// `added`.
pub proof fn lemma_update_matches_rescan(
    kept: Seq<HashMatrixEx>,
    removed: Seq<HashMatrixEx>,
    added: Seq<HashMatrixEx>,
)
    ensures
        updated(digest(kept + removed), added, removed) == digest(kept + added),
{
    lemma_digest_concat(kept, removed);
    lemma_digest_concat(kept, added);
    lemma_complement_inverts(digest(kept), digest(removed));
}

/// Computes the digest of a list of file hashes.
pub fn digest_of(hashes: &Vec<HashMatrixEx>) -> (r: HashMatrixEx)
    ensures
        r == digest(hashes@),
{
    let mut acc = HashMatrixEx(0, 0, 0, 0);
    let mut i: usize = 0;
    while i < hashes.len()
        invariant
            i <= hashes.len(),
            acc == digest(hashes@.subrange(0, i as int)),
        decreases hashes.len() - i,
    {
        assert(hashes@.subrange(0, i + 1).drop_last() =~= hashes@.subrange(0, i as int));
        acc = matadd(acc, hashes[i]);
        i += 1;
    }
    assert(hashes@.subrange(0, hashes.len() as int) =~= hashes@);
    acc
}

/// Updates a root without a rescan: takes the removed files out and puts
/// the added ones in.
pub fn incremental_update(
    root: HashMatrixEx,
    added: &Vec<HashMatrixEx>,
    removed: &Vec<HashMatrixEx>,
) -> (r: HashMatrixEx)
    ensures
        r == updated(root, added@, removed@),
{
    matadd(matsub(root, digest_of(removed)), digest_of(added))
}

/// The proof for a file hash under a root.
pub fn proof_of_hash(root: HashMatrixEx, file_hash: HashMatrixEx) -> (r: HashMatrixEx)
    ensures
        r == proof_for(root, file_hash),
{
    matsub(root, file_hash)
}

/// Checks a file hash and its proof against a root.
pub fn verify_hash(file_hash: HashMatrixEx, witness: HashMatrixEx, root: HashMatrixEx) -> (r: bool)
    ensures
        r == hash_verifies(file_hash, witness, root),
{
    matadd(witness, file_hash) == root
}

/// Whether the text is the 128 lower-case hexadecimal digits of a value.
pub open spec fn is_matrix_hex(text: Seq<u8>) -> bool {
    text.len() == 128 && is_hex(text)
}

/// The lane that the text writes at place `lane`: its digits 32 * `lane`
/// to 32 * `lane` + 31, most significant first.
pub open spec fn lane_of_hex(text: Seq<u8>, lane: int) -> u128 {
    hex_value(text.subrange(32 * lane, 32 * lane + 32)) as u128
}

/// The value that 128 hexadecimal digits write, lane after lane.
pub open spec fn matrix_of_hex(text: Seq<u8>) -> HashMatrixEx {
    HashMatrixEx(
        lane_of_hex(text, 0),
        lane_of_hex(text, 1),
        lane_of_hex(text, 2),
        lane_of_hex(text, 3),
    )
}

/// The 128 hexadecimal digits of a value: 32 for each lane, lane after
/// lane.
pub open spec fn hex_of_matrix(m: HashMatrixEx) -> Seq<u8> {
    hex_text(m.0 as nat, 32) + hex_text(m.1 as nat, 32) + hex_text(m.2 as nat, 32) + hex_text(
        m.3 as nat,
        32,
    )
}

/// Reading the digits of a value gives the value back.
pub proof fn lemma_hex_round_trip(m: HashMatrixEx)
    ensures
        is_matrix_hex(hex_of_matrix(m)),
        matrix_of_hex(hex_of_matrix(m)) == m,
{
    let text = hex_of_matrix(m);
    lemma_hex_text(m.0 as nat, 32);
    lemma_hex_text(m.1 as nat, 32);
    lemma_hex_text(m.2 as nat, 32);
    lemma_hex_text(m.3 as nat, 32);
    lemma_pow16_of_32();
    assert(text.subrange(0, 32) =~= hex_text(m.0 as nat, 32));
    assert(text.subrange(32, 64) =~= hex_text(m.1 as nat, 32));
    assert(text.subrange(64, 96) =~= hex_text(m.2 as nat, 32));
    assert(text.subrange(96, 128) =~= hex_text(m.3 as nat, 32));
    assert forall|i: int| 0 <= i < text.len() implies (#[trigger] crate::hex::digit_value(
        text[i],
    )).is_some() by {
        if i < 32 {
            assert(text[i] == hex_text(m.0 as nat, 32)[i]);
        } else if i < 64 {
            assert(text[i] == hex_text(m.1 as nat, 32)[i - 32]);
        } else if i < 96 {
            assert(text[i] == hex_text(m.2 as nat, 32)[i - 64]);
        } else {
            assert(text[i] == hex_text(m.3 as nat, 32)[i - 96]);
        }
    }
    vstd::arithmetic::div_mod::lemma_small_mod(m.0 as nat, lane_modulus() as nat);
    vstd::arithmetic::div_mod::lemma_small_mod(m.1 as nat, lane_modulus() as nat);
    vstd::arithmetic::div_mod::lemma_small_mod(m.2 as nat, lane_modulus() as nat);
    vstd::arithmetic::div_mod::lemma_small_mod(m.3 as nat, lane_modulus() as nat);
}

/// The hash of `data` under the Bromberg-Shpilrain-Vdovina construction, as
/// the bytes of its hexadecimal text.
pub uninterp spec fn bromberg_hex(data: Seq<u8>) -> Seq<u8>;

/// Calls `bromberg_sl2::hash_par` and prints the result with `to_hex`.
/// Trusted: the result is a function of the input bytes alone, which the
/// contract names `bromberg_hex`, and it is 128 lower-case hexadecimal
/// digits, 32 for each of the four entries.
#[verifier::external_body]
fn hash_par_hex(data: &[u8]) -> (r: Vec<u8>)
    ensures
        r@ == bromberg_hex(data@),
        is_matrix_hex(r@),
{
    bromberg_sl2::DigestString::to_hex(bromberg_sl2::hash_par(data)).into_bytes()
}

/// The hash of a file's contents as a digest value.
pub open spec fn file_hash(data: Seq<u8>) -> HashMatrixEx {
    matrix_of_hex(bromberg_hex(data))
}

/// The file hashes of a list of blobs.
pub open spec fn file_hashes(files: Seq<Seq<u8>>) -> Seq<HashMatrixEx> {
    Seq::new(files.len(), |i: int| file_hash(files[i]))
}

/// The digest of a folder: the digest of the hashes of its files.
pub open spec fn folder_hash(files: Seq<Seq<u8>>) -> HashMatrixEx {
    digest(file_hashes(files))
}

/// Reads the four lanes of a text known to be a value's digits.
fn read_matrix(text: &[u8]) -> (r: HashMatrixEx)
    requires
        is_matrix_hex(text@),
    ensures
        r == matrix_of_hex(text@),
{
    proof {
        assert forall|lane: int| 0 <= lane < 4 implies is_hex(
            #[trigger] text@.subrange(32 * lane, 32 * lane + 32),
        ) by {
            let part = text@.subrange(32 * lane, 32 * lane + 32);
            assert forall|i: int| 0 <= i < part.len() implies (#[trigger] crate::hex::digit_value(
                part[i],
            )).is_some() by {
                assert(part[i] == text@[32 * lane + i]);
            }
        }
    }
    HashMatrixEx(read_u128(text, 0), read_u128(text, 32), read_u128(text, 64), read_u128(text, 96))
}

impl HashMatrixEx {
    /// Reads a value from its 128 lower-case hexadecimal digits; none for
    /// any other text.
    pub fn from_hex(text: &[u8]) -> (r: Option<HashMatrixEx>)
        ensures
            r == if is_matrix_hex(text@) {
                Some(matrix_of_hex(text@))
            } else {
                None
            },
    {
        if text.len() == 128 && all_hex(text) {
            Some(read_matrix(text))
        } else {
            None
        }
    }

    /// Writes the value as 128 lower-case hexadecimal digits, which
    /// `from_hex` reads back.
    pub fn to_hex(&self) -> (r: Vec<u8>)
        ensures
            r@ == hex_of_matrix(*self),
            is_matrix_hex(r@),
            matrix_of_hex(r@) == *self,
    {
        let mut text: Vec<u8> = Vec::new();
        write_hex(self.0, 32, &mut text);
        write_hex(self.1, 32, &mut text);
        write_hex(self.2, 32, &mut text);
        write_hex(self.3, 32, &mut text);
        proof {
            lemma_hex_round_trip(*self);
            assert(text@ =~= hex_of_matrix(*self));
        }
        text
    }

    /// The first lane.
    pub fn get0(&self) -> (r: u128)
        ensures
            r == self.0,
    {
        self.0
    }

    /// The second lane.
    pub fn get1(&self) -> (r: u128)
        ensures
            r == self.1,
    {
        self.1
    }

    /// The third lane.
    pub fn get2(&self) -> (r: u128)
        ensures
            r == self.2,
    {
        self.2
    }

    /// The fourth lane.
    pub fn get3(&self) -> (r: u128)
        ensures
            r == self.3,
    {
        self.3
    }
}

/// Hashes a file's contents to a digest value.
pub fn hash_file(data: &[u8]) -> (r: HashMatrixEx)
    ensures
        r == file_hash(data@),
{
    let text = hash_par_hex(data);
    read_matrix(text.as_slice())
}

/// The digest of a folder, from the contents of its files.
pub fn get_folder_hash(files: &Vec<Vec<u8>>) -> (r: HashMatrixEx)
    ensures
        r == folder_hash(rows(files@)),
{
    let mut leaves: Vec<HashMatrixEx> = Vec::new();
    let mut i: usize = 0;
    while i < files.len()
        invariant
            i <= files.len(),
            leaves@ == file_hashes(rows(files@)).subrange(0, i as int),
        decreases files.len() - i,
    {
        leaves.push(hash_file(files[i].as_slice()));
        assert(leaves@ =~= file_hashes(rows(files@)).subrange(0, i + 1));
        i += 1;
    }
    assert(file_hashes(rows(files@)).subrange(0, files.len() as int) =~= file_hashes(
        rows(files@),
    ));
    digest_of(&leaves)
}

/// The proof that the file `data` belongs to the set with digest `root`.
pub fn make_proof(root: HashMatrixEx, data: &[u8]) -> (r: HashMatrixEx)
    ensures
        r == proof_for(root, file_hash(data@)),
{
    proof_of_hash(root, hash_file(data))
}

/// Checks a file's contents and its proof against a root.
pub fn verify(data: &[u8], witness: HashMatrixEx, root: HashMatrixEx) -> (r: bool)
    ensures
        r == hash_verifies(file_hash(data@), witness, root),
{
    verify_hash(hash_file(data), witness, root)
}

/// Every file of a folder verifies against the folder's digest with the
/// proof made for it.
pub proof fn lemma_member_verifies(files: Seq<Seq<u8>>, i: int)
    requires
        0 <= i < files.len(),
    ensures
        hash_verifies(
            file_hash(files[i]),
            proof_for(folder_hash(files), file_hash(files[i])),
            folder_hash(files),
        ),
{
    lemma_complement_inverts(folder_hash(files), file_hash(files[i]));
}

/// A single blob verifies against the digest of the folder that holds it
/// alone.
pub proof fn lemma_single_file_verifies(data: Seq<u8>)
    ensures
        hash_verifies(
            file_hash(data),
            proof_for(folder_hash(seq![data]), file_hash(data)),
            folder_hash(seq![data]),
        ),
        folder_hash(seq![data]) == file_hash(data),
        proof_for(folder_hash(seq![data]), file_hash(data)) == zero(),
{
    lemma_member_verifies(seq![data], 0);
    let hashes = file_hashes(seq![data]);
    assert(hashes.drop_last() =~= Seq::<HashMatrixEx>::empty());
    assert(digest(hashes.drop_last()) == zero());
    lemma_combine_zero(file_hash(data));
    lemma_complement_inverts(zero(), file_hash(data));
}

/// The folder's digest does not depend on the order in which its files are
/// listed.
pub proof fn lemma_folder_hash_permutation(first: Seq<Seq<u8>>, second: Seq<Seq<u8>>)
    requires
        first.to_multiset() == second.to_multiset(),
    ensures
        folder_hash(first) == folder_hash(second),
    decreases first.len(),
{
    broadcast use vstd::seq_lib::group_to_multiset_ensures;

    if first.len() == 0 {
        assert(first.to_multiset().len() == first.len());
        assert(second.to_multiset().len() == second.len());
        assert(file_hashes(first) =~= file_hashes(second));
    } else {
        let last = first.last();
        assert(first.contains(last));
        assert(second.to_multiset().count(last) > 0);
        assert(second.contains(last));
        let i = choose|i: int| 0 <= i < second.len() && second[i] == last;
        assert(first.drop_last() =~= first.remove(first.len() - 1));
        lemma_folder_hash_permutation(first.drop_last(), second.remove(i));
        assert(file_hashes(first).drop_last() =~= file_hashes(first.drop_last()));
        assert(file_hashes(second).remove(i) =~= file_hashes(second.remove(i)));
        lemma_digest_remove(file_hashes(second), i);
    }
}

/// Tamper evidence of the additive scheme: the proof made for one file
/// hash verifies no other file hash against the same root.
pub proof fn lemma_other_hash_rejected(
    file_hash: HashMatrixEx,
    other: HashMatrixEx,
    root: HashMatrixEx,
)
    requires
        other != file_hash,
    ensures
        hash_verifies(file_hash, proof_for(root, file_hash), root),
        !hash_verifies(other, proof_for(root, file_hash), root),
{
    lemma_complement_inverts(root, file_hash);
    if hash_verifies(other, proof_for(root, file_hash), root) {
        lemma_combine_cancels(proof_for(root, file_hash), file_hash, other);
    }
}

/// Tamper evidence for blobs: the proof made for `data` verifies no blob
/// whose hash differs from that of `data`.
pub proof fn lemma_tamper_detected(data: Seq<u8>, tampered: Seq<u8>, root: HashMatrixEx)
    ensures
        self::file_hash(tampered) != self::file_hash(data) ==> !hash_verifies(
            self::file_hash(tampered),
            proof_for(root, self::file_hash(data)),
            root,
        ),
{
    if self::file_hash(tampered) != self::file_hash(data) {
        lemma_other_hash_rejected(self::file_hash(data), self::file_hash(tampered), root);
    }
}

} // verus!

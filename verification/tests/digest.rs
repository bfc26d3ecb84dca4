use bromberg_sl2::DigestString;
use filesync::bromberg_hash::{
    add, digest_of, get_folder_hash, hash_file, incremental_update, make_proof, matadd, matsub,
    proof_of_hash, substract2, verify, verify_hash, HashMatrixEx, U256,
};

const SAMPLE: &[u8] = b"hello, world! It's fun to hash stuff!";

#[test]
fn add_of_small_numbers() {
    assert_eq!(add(U256(0, 2), U256(0, 3)), U256(0, 5));
}

#[test]
fn add_carries_from_low_to_high() {
    assert_eq!(add(U256(1, u128::MAX), U256(2, 1)), U256(4, 0));
}

#[test]
fn add_drops_the_carry_out_of_the_high_word() {
    assert_eq!(add(U256(u128::MAX, u128::MAX), U256(0, 1)), U256(0, 0));
}

#[test]
fn add_is_commutative_on_a_sample() {
    let x = U256(7, u128::MAX - 3);
    let y = U256(u128::MAX, 9);
    assert_eq!(add(x, y), add(y, x));
    assert_eq!(add(x, y), U256(7, 5));
}

#[test]
fn substract2_of_small_numbers() {
    assert_eq!(substract2(U256(0, 5), U256(0, 3)), U256(0, 2));
}

#[test]
fn substract2_borrows_from_high() {
    assert_eq!(substract2(U256(5, 0), U256(2, 1)), U256(2, u128::MAX));
}

#[test]
fn substract2_wraps_below_zero() {
    assert_eq!(substract2(U256(0, 0), U256(0, 1)), U256(u128::MAX, u128::MAX));
}

#[test]
fn substract2_undoes_add() {
    let x = U256(u128::MAX - 1, 17);
    let y = U256(5, u128::MAX);
    assert_eq!(substract2(add(x, y), y), x);
}

#[test]
fn matadd_wraps_each_lane_alone() {
    let a = HashMatrixEx(u128::MAX, 1, 2, 3);
    let b = HashMatrixEx(1, 10, 20, 30);
    assert_eq!(matadd(a, b), HashMatrixEx(0, 11, 22, 33));
}

#[test]
fn matadd_has_no_carry_between_lanes() {
    let a = HashMatrixEx(0, u128::MAX, u128::MAX, 0);
    let b = HashMatrixEx(0, 1, 2, 0);
    assert_eq!(matadd(a, b), HashMatrixEx(0, 0, 1, 0));
}

#[test]
fn matsub_wraps_each_lane_alone() {
    let a = HashMatrixEx(0, 11, 22, 33);
    let b = HashMatrixEx(1, 10, 20, 30);
    assert_eq!(matsub(a, b), HashMatrixEx(u128::MAX, 1, 2, 3));
}

#[test]
fn zero_is_the_identity() {
    let a = HashMatrixEx(5, u128::MAX, 0, 77);
    assert_eq!(HashMatrixEx::default(), HashMatrixEx(0, 0, 0, 0));
    assert_eq!(matadd(a, HashMatrixEx::default()), a);
    assert_eq!(matadd(HashMatrixEx::default(), a), a);
    assert_eq!(matsub(a, HashMatrixEx::default()), a);
}

#[test]
fn combine_is_commutative_and_associative_on_samples() {
    let a = HashMatrixEx(u128::MAX, 2, 3, u128::MAX - 1);
    let b = HashMatrixEx(9, u128::MAX, 0, 5);
    let c = HashMatrixEx(1, 1, u128::MAX, u128::MAX);
    assert_eq!(matadd(a, b), matadd(b, a));
    assert_eq!(matadd(matadd(a, b), c), matadd(a, matadd(b, c)));
}

#[test]
fn complement_undoes_combine() {
    let a = HashMatrixEx(u128::MAX, 2, 3, u128::MAX - 1);
    let b = HashMatrixEx(9, u128::MAX, 0, 5);
    assert_eq!(matsub(matadd(a, b), b), a);
    assert_eq!(matadd(matsub(a, b), b), a);
}

#[test]
fn getters_give_the_lanes() {
    let a = HashMatrixEx(1, 2, 3, 4);
    assert_eq!(a.get0(), 1);
    assert_eq!(a.get1(), 2);
    assert_eq!(a.get2(), 3);
    assert_eq!(a.get3(), 4);
}

#[test]
fn digest_of_nothing_is_zero() {
    assert_eq!(digest_of(&vec![]), HashMatrixEx(0, 0, 0, 0));
}

#[test]
fn digest_adds_up_the_lanes() {
    let hashes = vec![
        HashMatrixEx(1, 2, 3, 4),
        HashMatrixEx(10, 20, 30, 40),
        HashMatrixEx(u128::MAX, 0, 0, 0),
    ];
    assert_eq!(digest_of(&hashes), HashMatrixEx(10, 22, 33, 44));
}

#[test]
fn digest_does_not_depend_on_the_order() {
    let a = HashMatrixEx(u128::MAX, 2, 3, 4);
    let b = HashMatrixEx(10, u128::MAX, 30, 40);
    let c = HashMatrixEx(7, 7, u128::MAX, 7);
    let expected = digest_of(&vec![a, b, c]);
    assert_eq!(digest_of(&vec![a, c, b]), expected);
    assert_eq!(digest_of(&vec![b, a, c]), expected);
    assert_eq!(digest_of(&vec![b, c, a]), expected);
    assert_eq!(digest_of(&vec![c, a, b]), expected);
    assert_eq!(digest_of(&vec![c, b, a]), expected);
}

#[test]
fn incremental_update_matches_a_fresh_digest() {
    let kept = HashMatrixEx(1, 2, 3, 4);
    let gone = HashMatrixEx(u128::MAX, 5, 6, 7);
    let new = HashMatrixEx(100, 200, 300, u128::MAX);
    let root = digest_of(&vec![kept, gone]);
    let updated = incremental_update(root, &vec![new], &vec![gone]);
    assert_eq!(updated, digest_of(&vec![kept, new]));
    assert_eq!(updated, HashMatrixEx(101, 202, 303, 3));
}

#[test]
fn incremental_update_with_nothing_changes_nothing() {
    let root = HashMatrixEx(1, 2, 3, 4);
    assert_eq!(incremental_update(root, &vec![], &vec![]), root);
}

#[test]
fn proof_of_hash_is_the_root_less_the_file() {
    let root = HashMatrixEx(10, 0, 30, 40);
    let file = HashMatrixEx(1, 1, 30, 50);
    assert_eq!(
        proof_of_hash(root, file),
        HashMatrixEx(9, u128::MAX, 0, u128::MAX - 9)
    );
    assert!(verify_hash(file, proof_of_hash(root, file), root));
}

#[test]
fn verify_hash_rejects_another_hash() {
    let root = HashMatrixEx(10, 0, 30, 40);
    let file = HashMatrixEx(1, 1, 30, 50);
    let other = HashMatrixEx(1, 1, 30, 51);
    assert!(!verify_hash(other, proof_of_hash(root, file), root));
}

#[test]
fn hash_file_gives_the_documented_value() {
    assert_eq!(
        hash_file(SAMPLE),
        HashMatrixEx(
            0x01c5cf590d32654c87228c0d66441b20,
            0x0aec1439e54e724f05cd3c6c260634e5,
            0x65594b61988933e826e9705de22884ce,
            0x007df0f733a371516ddd4ac9237f7a46,
        )
    );
}

#[test]
fn hash_file_of_nothing_is_the_identity_matrix() {
    assert_eq!(hash_file(b""), HashMatrixEx(1, 0, 0, 1));
}

#[test]
fn hash_file_agrees_with_the_serial_hash() {
    let data = b"Hello, world! This is file1.txt";
    let text = bromberg_sl2::hash(data).to_hex();
    assert_eq!(HashMatrixEx::from_hex(text.as_bytes()), Some(hash_file(data)));
}

#[test]
fn single_blob_verifies_against_its_own_digest() {
    let blob = b"one file alone".to_vec();
    let root = get_folder_hash(&vec![blob.clone()]);
    assert_eq!(root, hash_file(&blob));
    let witness = make_proof(root, &blob);
    assert_eq!(witness, HashMatrixEx(0, 0, 0, 0));
    assert!(verify(&blob, witness, root));
}

#[test]
fn every_file_of_a_folder_verifies() {
    let files: Vec<Vec<u8>> = vec![
        b"Hello, world! This is file1.txt".to_vec(),
        b"Hello, world! This is file2.txt".to_vec(),
        b"Hello, world! This is file3.txt".to_vec(),
        b"".to_vec(),
    ];
    let root = get_folder_hash(&files);
    for file in &files {
        assert!(verify(file, make_proof(root, file), root));
    }
}

#[test]
fn folder_hash_of_nothing_is_zero() {
    assert_eq!(get_folder_hash(&vec![]), HashMatrixEx(0, 0, 0, 0));
}

#[test]
fn folder_hash_does_not_depend_on_the_order() {
    let a = b"alpha".to_vec();
    let b = b"beta".to_vec();
    let c = b"gamma".to_vec();
    let expected = get_folder_hash(&vec![a.clone(), b.clone(), c.clone()]);
    assert_eq!(get_folder_hash(&vec![c.clone(), a.clone(), b.clone()]), expected);
    assert_eq!(get_folder_hash(&vec![b, c, a]), expected);
}

#[test]
fn folder_hash_is_the_sum_of_the_file_hashes() {
    let a = b"alpha".to_vec();
    let b = b"beta".to_vec();
    assert_eq!(
        get_folder_hash(&vec![a.clone(), b.clone()]),
        matadd(hash_file(&a), hash_file(&b))
    );
}

#[test]
fn tampered_data_is_rejected() {
    let files: Vec<Vec<u8>> = vec![b"alpha".to_vec(), b"beta".to_vec()];
    let root = get_folder_hash(&files);
    let witness = make_proof(root, &files[0]);
    assert!(verify(b"alpha", witness, root));
    assert!(!verify(b"alphb", witness, root));
    assert!(!verify(b"beta", witness, root));
}

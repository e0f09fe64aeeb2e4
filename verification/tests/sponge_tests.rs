use mpc_snarks::encode::{
    byte_list_to_sponge_bytes, bytes_with_len_to_sponge_bytes, fe_list_to_sponge_bytes,
    fe_to_sponge_bytes,
};
use mpc_snarks::{new_test_rng, poseidon_parameters_for_test, Fe, Sponge};

fn assert_different_encodings(a: &Vec<Fe>, b: &Vec<Fe>) {
    let bytes1 = fe_list_to_sponge_bytes(a);
    let bytes2 = fe_list_to_sponge_bytes(b);
    assert_ne!(bytes1, bytes2);

    let mut sponge1 = Sponge::new(poseidon_parameters_for_test());
    let mut sponge2 = Sponge::new(poseidon_parameters_for_test());

    sponge1.absorb_elems(a);
    sponge2.absorb_elems(b);

    assert_ne!(
        sponge1.squeeze_native_field_elements(3),
        sponge2.squeeze_native_field_elements(3)
    );
}

#[test]
fn single_field_element() {
    let mut rng = new_test_rng();
    let elem1 = Fe::rand(&mut rng);
    let elem2 = elem1.add_fe(&Fe::from_u64(1));

    assert_different_encodings(&vec![elem1], &vec![elem2])
}

#[test]
fn list_with_constant_size_element() {
    let mut rng = new_test_rng();
    let lst1: Vec<Fe> = (0..1024 * 8).map(|_| Fe::rand(&mut rng)).collect();
    let mut lst2 = lst1.to_vec();
    lst2[3] = lst2[3].add_fe(&Fe::from_u64(1));

    assert_different_encodings(&lst1, &lst2)
}

#[test]
fn list_with_nonconstant_size_element() {
    let lst1: Vec<Vec<u8>> = vec![vec![1u8, 2, 3, 4], vec![5, 6]];
    let lst2: Vec<Vec<u8>> = vec![vec![1u8, 2], vec![3, 4, 5, 6]];

    let bytes1 = byte_list_to_sponge_bytes(&lst1);
    let bytes2 = byte_list_to_sponge_bytes(&lst2);
    assert_ne!(bytes1, bytes2);

    let mut sponge1 = Sponge::new(poseidon_parameters_for_test());
    let mut sponge2 = Sponge::new(poseidon_parameters_for_test());
    for item in &lst1 {
        sponge1.absorb_bytes_with_length(item);
    }
    for item in &lst2 {
        sponge2.absorb_bytes_with_length(item);
    }
    assert_ne!(
        sponge1.squeeze_native_field_elements(3),
        sponge2.squeeze_native_field_elements(3)
    );
}

#[test]
fn test_squeeze_cast_native() {
    let mut rng = new_test_rng();
    let elem = Fe::rand(&mut rng);
    let mut sponge1 = Sponge::new(poseidon_parameters_for_test());
    sponge1.absorb_fe(&elem);
    let mut sponge2 = Sponge::new(poseidon_parameters_for_test());
    sponge2.absorb_fe(&elem);

    // those two should return same result
    let squeezed1 = sponge1.squeeze_native_field_elements(5);
    let squeezed2 = sponge2.squeeze_field_elements(5);

    assert_eq!(squeezed1, squeezed2);
}

#[test]
fn test_macros() {
    let mut sponge1 = Sponge::new(poseidon_parameters_for_test());
    let batch: Vec<Fe> = vec![1u64, 2, 3, 4, 5, 6]
        .into_iter()
        .map(Fe::from_u64)
        .collect();
    sponge1.absorb_elems(&batch);
    sponge1.absorb_fe(&Fe::from_u64(114514));

    let mut sponge2 = Sponge::new(poseidon_parameters_for_test());
    for x in &batch {
        sponge2.absorb_fe(x);
    }
    sponge2.absorb_fe(&Fe::from_u64(114514));

    let expected = sponge1.squeeze_native_field_elements(3);
    let actual = sponge2.squeeze_native_field_elements(3);

    assert_eq!(actual, expected);

    let list: Vec<Fe> = vec![6u64, 5, 4, 3, 2, 1]
        .into_iter()
        .map(Fe::from_u64)
        .collect();
    let mut expected: Vec<u8> = fe_list_to_sponge_bytes(&list);
    expected.extend(fe_to_sponge_bytes(&Fe::from_u64(42)));

    let mut actual: Vec<u8> = Vec::new();
    for x in &list {
        actual.extend(fe_to_sponge_bytes(x));
    }
    actual.extend(fe_to_sponge_bytes(&Fe::from_u64(42)));

    assert_eq!(actual, expected);
}

#[test]
fn sponge_determinism_on_bytes() {
    let msg: Vec<u8> = b"determinism check".to_vec();
    let mut sponge1 = Sponge::new(poseidon_parameters_for_test());
    let mut sponge2 = Sponge::new(poseidon_parameters_for_test());
    sponge1.absorb_bytes(&msg);
    sponge2.absorb_bytes(&msg);
    assert_eq!(
        sponge1.squeeze_native_field_elements(7),
        sponge2.squeeze_native_field_elements(7)
    );
}

#[test]
fn length_prefix_separates_same_bytes() {
    // Same content bytes, but absorbed at different logical lengths.
    let short: Vec<u8> = vec![9u8, 9];
    let long: Vec<u8> = vec![9u8, 9, 0];
    assert_ne!(
        bytes_with_len_to_sponge_bytes(&short),
        bytes_with_len_to_sponge_bytes(&long)
    );
    let mut sponge1 = Sponge::new(poseidon_parameters_for_test());
    let mut sponge2 = Sponge::new(poseidon_parameters_for_test());
    sponge1.absorb_bytes_with_length(&short);
    sponge2.absorb_bytes_with_length(&long);
    assert_ne!(
        sponge1.squeeze_native_field_elements(3),
        sponge2.squeeze_native_field_elements(3)
    );
}

#[test]
fn squeeze_buffers_across_requests() {
    // Squeezing 1 + 4 elements matches squeezing 5 at once from an equal
    // sponge: leftover elements of one permutation feed the next request.
    let mut sponge1 = Sponge::new(poseidon_parameters_for_test());
    let mut sponge2 = Sponge::new(poseidon_parameters_for_test());
    sponge1.absorb_fe(&Fe::from_u64(77));
    sponge2.absorb_fe(&Fe::from_u64(77));
    let mut first = sponge1.squeeze_native_field_elements(1);
    first.extend(sponge1.squeeze_native_field_elements(4));
    let all = sponge2.squeeze_native_field_elements(5);
    assert_eq!(first, all);
}

#[test]
fn interleaved_absorb_and_squeeze_is_deterministic() {
    let mut sponge1 = Sponge::new(poseidon_parameters_for_test());
    let mut sponge2 = Sponge::new(poseidon_parameters_for_test());
    sponge1.absorb_fe(&Fe::from_u64(3));
    sponge2.absorb_fe(&Fe::from_u64(3));
    let a1 = sponge1.squeeze_native_field_elements(2);
    let a2 = sponge2.squeeze_native_field_elements(2);
    assert_eq!(a1, a2);
    sponge1.absorb_fe(&Fe::from_u64(4));
    sponge2.absorb_fe(&Fe::from_u64(4));
    let b1 = sponge1.squeeze_native_field_elements(2);
    let b2 = sponge2.squeeze_native_field_elements(2);
    assert_eq!(b1, b2);
}

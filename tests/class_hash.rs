use sierra_class_hash::class_hash::compute_sierra_class_hash;
use sierra_class_hash::contract_class::{
    ContractAddressError, ContractEntryPoint, ContractEntryPoints, SierraContractClass,
};
use cairo_lang_starknet::contract::starknet_keccak;
use starknet_crypto::{poseidon_hash_many, FieldElement};

fn entry(selector: &[u8], function_idx: usize) -> ContractEntryPoint {
    ContractEntryPoint { selector: selector.to_vec(), function_idx }
}

fn class(
    program: Vec<Vec<u8>>,
    external: Vec<ContractEntryPoint>,
    l1_handler: Vec<ContractEntryPoint>,
    constructor: Vec<ContractEntryPoint>,
    abi: Option<&str>,
) -> SierraContractClass {
    SierraContractClass {
        sierra_program: program,
        entry_points_by_type: ContractEntryPoints { constructor, external, l1_handler },
        abi: abi.map(|a| a.to_string()),
    }
}

fn sample() -> SierraContractClass {
    class(
        vec![vec![1], vec![2, 3], vec![0]],
        vec![entry(&[0x12, 0x34], 0), entry(&[0x56], 2)],
        vec![entry(&[7], 1)],
        vec![entry(&[9, 9], 3)],
        Some(ABI),
    )
}

const ABI: &str = "[{\"type\": \"function\", \"name\": \"get\", \"inputs\": [], \"outputs\": [{\"type\": \"core::felt252\"}], \"state_mutability\": \"view\"}]";

fn abi_felt(text: &str) -> FieldElement {
    let digest = starknet_keccak(text.as_bytes());
    FieldElement::from_byte_slice_be(&digest.to_bytes_be()).unwrap()
}

fn felt(n: u64) -> FieldElement {
    FieldElement::from(n)
}

fn prime_bytes() -> Vec<u8> {
    let mut p = vec![0u8; 32];
    p[0] = 0x08;
    p[7] = 0x11;
    p[31] = 0x01;
    p
}

#[test]
fn hash_of_sample_class_matches_composition() {
    let tag = FieldElement::from_byte_slice_be(b"CONTRACT_CLASS_V0.1.0").unwrap();
    let external = poseidon_hash_many(&[felt(0x1234), felt(0), felt(0x56), felt(2)]);
    let l1 = poseidon_hash_many(&[felt(7), felt(1)]);
    let ctor = poseidon_hash_many(&[felt(0x0909), felt(3)]);
    let program = poseidon_hash_many(&[felt(1), felt(0x0203), felt(0)]);
    let expected = poseidon_hash_many(&[tag, external, l1, ctor, abi_felt(ABI), program]);
    let got = compute_sierra_class_hash(&sample()).ok().unwrap();
    assert_eq!(got, expected.to_bytes_be());
}

#[test]
fn hash_of_empty_class() {
    let tag = FieldElement::from_byte_slice_be(b"CONTRACT_CLASS_V0.1.0").unwrap();
    let empty = poseidon_hash_many(&[]);
    let expected = poseidon_hash_many(&[tag, empty, empty, empty, abi_felt("[]"), empty]);
    let c = class(vec![], vec![], vec![], vec![], Some("[]"));
    assert_eq!(compute_sierra_class_hash(&c).ok().unwrap(), expected.to_bytes_be());
}

#[test]
fn hashing_twice_gives_same_result() {
    let a = compute_sierra_class_hash(&sample()).ok().unwrap();
    let b = compute_sierra_class_hash(&sample()).ok().unwrap();
    assert_eq!(a, b);
}

#[test]
fn changing_a_program_word_changes_hash() {
    let a = compute_sierra_class_hash(&sample()).ok().unwrap();
    let mut c = sample();
    c.sierra_program[1] = vec![2, 4];
    let b = compute_sierra_class_hash(&c).ok().unwrap();
    assert_ne!(a, b);
}

#[test]
fn changing_selector_offset_or_abi_changes_hash() {
    let a = compute_sierra_class_hash(&sample()).ok().unwrap();
    let mut c = sample();
    c.entry_points_by_type.external[0].selector = vec![0x12, 0x35];
    assert_ne!(a, compute_sierra_class_hash(&c).ok().unwrap());
    let mut c = sample();
    c.entry_points_by_type.l1_handler[0].function_idx = 2;
    assert_ne!(a, compute_sierra_class_hash(&c).ok().unwrap());
    let mut c = sample();
    c.abi = Some(ABI.replace("get", "put"));
    assert_ne!(a, compute_sierra_class_hash(&c).ok().unwrap());
}

#[test]
fn entry_point_kinds_are_hashed_in_order() {
    let a = compute_sierra_class_hash(&sample()).ok().unwrap();
    let mut c = sample();
    let l1 = c.entry_points_by_type.l1_handler.clone();
    c.entry_points_by_type.l1_handler = c.entry_points_by_type.constructor.clone();
    c.entry_points_by_type.constructor = l1;
    assert_ne!(a, compute_sierra_class_hash(&c).ok().unwrap());
}

#[test]
fn offset_equal_to_program_length_is_accepted() {
    let c = class(vec![vec![1]], vec![entry(&[1], 1)], vec![], vec![], Some("[]"));
    assert!(compute_sierra_class_hash(&c).is_ok());
}

#[test]
fn offset_past_program_is_rejected() {
    let c = class(vec![vec![1]], vec![entry(&[1], 0)], vec![], vec![entry(&[2], 5)], Some("[]"));
    let r = compute_sierra_class_hash(&c);
    assert!(matches!(r, Err(ContractAddressError::InvalidOffset(5))));
}

#[test]
fn first_invalid_offset_in_hashing_order_is_reported() {
    let c = class(
        vec![vec![1]],
        vec![entry(&[1], 0)],
        vec![entry(&[2], 7)],
        vec![entry(&[3], 4)],
        None,
    );
    let r = compute_sierra_class_hash(&c);
    assert!(matches!(r, Err(ContractAddressError::InvalidOffset(7))));
}

#[test]
fn offset_checked_before_selector_cast() {
    let c = class(
        vec![],
        vec![entry(&[0xff; 33], 0)],
        vec![],
        vec![entry(&[3], 1)],
        Some("[]"),
    );
    let r = compute_sierra_class_hash(&c);
    assert!(matches!(r, Err(ContractAddressError::InvalidOffset(1))));
}

#[test]
fn missing_abi_is_an_error() {
    let mut c = sample();
    c.abi = None;
    assert!(matches!(compute_sierra_class_hash(&c), Err(ContractAddressError::MissingAbi)));
}

#[test]
fn selector_not_in_field_is_cast_error() {
    let mut c = sample();
    c.entry_points_by_type.constructor[0].selector = prime_bytes();
    assert!(matches!(compute_sierra_class_hash(&c), Err(ContractAddressError::Cast(_, _))));
}

#[test]
fn selector_cast_comes_before_missing_abi() {
    let mut c = sample();
    c.abi = None;
    c.entry_points_by_type.external[1].selector = vec![1; 33];
    assert!(matches!(compute_sierra_class_hash(&c), Err(ContractAddressError::Cast(_, _))));
}

#[test]
fn program_word_not_in_field_is_cast_error() {
    let mut c = sample();
    c.sierra_program.push(prime_bytes());
    assert!(matches!(compute_sierra_class_hash(&c), Err(ContractAddressError::Cast(_, _))));
}

#[test]
fn empty_abi_text_is_hashed() {
    let mut c = sample();
    c.abi = Some(String::new());
    let a = compute_sierra_class_hash(&c).ok().unwrap();
    assert_ne!(a, compute_sierra_class_hash(&sample()).ok().unwrap());
}

#[test]
fn largest_field_element_is_accepted() {
    let mut p = prime_bytes();
    p[31] = 0x00;
    let mut c = sample();
    c.sierra_program.push(p.clone());
    c.entry_points_by_type.external[0].selector = p;
    assert!(compute_sierra_class_hash(&c).is_ok());
}

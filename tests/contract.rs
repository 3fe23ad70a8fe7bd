use blake2::Digest;
use locutus::contract::{ContractData, ContractKey, ContractSpecification, EnvelopeError, HexError};
use locutus::interface::{ContractError, Parameters, State, StateDelta, StateSummary, UpdateResult};

fn envelope(params: &[u8], code: &[u8]) -> Vec<u8> {
    let mut out = Vec::new();
    out.extend_from_slice(&(params.len() as u64).to_le_bytes());
    out.extend_from_slice(params);
    out.extend_from_slice(&(code.len() as u64).to_le_bytes());
    out.extend_from_slice(code);
    out
}

#[test]
fn key_ser() {
    let key = ContractKey::derive(&[1, 2, 3, 4], &[9, 9]);
    let encoded = key.hex_encode();
    assert_eq!(encoded.len(), 128);
    assert!(encoded.chars().all(|c| c.is_ascii_hexdigit() && !c.is_ascii_uppercase()));
    let expected: String = key.bytes().iter().map(|b| format!("{:02x}", b)).collect();
    assert_eq!(encoded, expected);
    let code_hex: String = key.contract_part().iter().map(|b| format!("{:02x}", b)).collect();
    let decoded = ContractKey::hex_decode(code_hex.as_bytes(), &Parameters::from(vec![9, 9])).unwrap();
    assert_eq!(decoded, key);
    assert_eq!(decoded.hex_encode(), encoded);
}

#[test]
fn contract_ser() {
    let contract = ContractData::from(vec![0, 97, 115, 109, 1, 0, 0, 0]);
    let expected = ContractSpecification::new(contract, Parameters::from(vec![1, 2, 3]));
    let serialized = expected.to_envelope();
    assert_eq!(serialized, envelope(&[1, 2, 3], &[0, 97, 115, 109, 1, 0, 0, 0]));
    let deserialized = ContractSpecification::try_from(serialized).unwrap();
    assert!(deserialized == expected);
    assert_eq!(deserialized.parameters().as_ref(), &[1, 2, 3]);
    assert_eq!(deserialized.data().data(), &[0, 97, 115, 109, 1, 0, 0, 0]);
}

#[test]
fn key_is_hash_of_code_hash_and_parameters() {
    let code = b"contract code".to_vec();
    let params = b"params".to_vec();
    let code_hash = blake2::Blake2b512::digest(&code);
    let mut both = code_hash.to_vec();
    both.extend_from_slice(&params);
    let spec = blake2::Blake2b512::digest(&both);
    let key = ContractKey::derive(&code, &params);
    assert_eq!(key.contract_part().as_slice(), code_hash.as_slice());
    assert_eq!(key.bytes(), spec.as_slice());
    let data = ContractData::from(code.clone());
    assert_eq!(data.key().as_slice(), code_hash.as_slice());
    let from_parts = ContractKey::from_parts(&Parameters::from(params.clone()), &data);
    assert_eq!(from_parts, key);
}

#[test]
fn key_derivation_is_deterministic_and_sensitive() {
    let a = ContractKey::derive(&[1, 2, 3], &[4, 5]);
    let b = ContractKey::derive(&[1, 2, 3], &[4, 5]);
    assert_eq!(a, b);
    assert!(a.same_as(&b));
    let flipped_code = ContractKey::derive(&[1, 2, 2], &[4, 5]);
    let flipped_params = ContractKey::derive(&[1, 2, 3], &[4, 4]);
    assert_ne!(a, flipped_code);
    assert_ne!(a, flipped_params);
    assert_eq!(a.contract_part(), flipped_params.contract_part());
    assert!(!a.same_as(&flipped_params));
}

#[test]
fn contract_key_substitution() {
    let params = vec![7u8, 7];
    let key = ContractKey::derive(b"genuine", &params);
    let genuine = envelope(&params, b"genuine");
    let ok = ContractSpecification::try_from_checked(genuine, &key).unwrap();
    assert_eq!(*ok.key(), key);
    let forged = envelope(&params, b"forged!");
    assert_eq!(ContractSpecification::try_from_checked(forged, &key).unwrap_err(), EnvelopeError::KeyMismatch);
}

#[test]
fn truncated_envelopes_are_refused() {
    assert_eq!(ContractSpecification::try_from(vec![]).unwrap_err(), EnvelopeError::UnexpectedEof);
    assert_eq!(ContractSpecification::try_from(vec![1, 0, 0, 0, 0, 0, 0]).unwrap_err(), EnvelopeError::UnexpectedEof);
    let mut e = envelope(&[1, 2], &[3, 4, 5]);
    e.pop();
    assert_eq!(ContractSpecification::try_from(e).unwrap_err(), EnvelopeError::UnexpectedEof);
    let mut huge = envelope(&[1], &[2]);
    huge[7] = 0xff;
    assert_eq!(ContractSpecification::try_from(huge).unwrap_err(), EnvelopeError::UnexpectedEof);
    // bytes after the code are not read
    let mut extra = envelope(&[1], &[2]);
    extra.push(99);
    let spec = ContractSpecification::try_from(extra).unwrap();
    assert_eq!(spec.data().data(), &[2]);
}

#[test]
fn hex_decode_errors() {
    let p = Parameters::from(vec![]);
    assert_eq!(ContractKey::hex_decode(b"abc", &p).unwrap_err(), HexError::OddLength);
    assert_eq!(ContractKey::hex_decode(b"abcd", &p).unwrap_err(), HexError::InvalidStringLength);
    let mut text = vec![b'0'; 128];
    text[5] = b'g';
    text[9] = b'z';
    assert_eq!(ContractKey::hex_decode(&text, &p).unwrap_err(), HexError::InvalidHexCharacter { c: 'g', index: 5 });
    let upper = vec![b'F'; 128];
    let k = ContractKey::hex_decode(&upper, &p).unwrap();
    assert_eq!(k.contract_part(), &[0xff; 64]);
}

#[test]
fn contract_data_equality_by_hash() {
    let a = ContractData::from(vec![1, 2, 3]);
    let b = ContractData::from(vec![1, 2, 3]);
    let c = ContractData::from(vec![1, 2, 4]);
    assert!(a.eq(&b));
    assert!(!a.eq(&c));
    assert_eq!(c.into_data(), vec![1, 2, 4]);
}

#[test]
fn update_result_codes() {
    assert_eq!(UpdateResult::try_from(0), Ok(UpdateResult::ValidUpdate));
    assert_eq!(UpdateResult::try_from(1), Ok(UpdateResult::ValidNoChange));
    assert_eq!(UpdateResult::try_from(2), Ok(UpdateResult::Invalid));
    assert_eq!(UpdateResult::try_from(3), Err(()));
    assert_eq!(UpdateResult::try_from(-1), Err(()));
    assert_eq!(UpdateResult::from(ContractError::InvalidUpdate), UpdateResult::Invalid);
    assert_eq!(UpdateResult::ValidNoChange.code(), 1);
}

#[test]
fn byte_values() {
    let mut s = State::from(vec![1, 2, 3]);
    assert_eq!(s.size(), 3);
    s.to_mut().push(4);
    assert_eq!(s.as_ref(), &[1, 2, 3, 4]);
    assert_eq!(s.into_owned(), vec![1, 2, 3, 4]);
    let d = StateDelta::from(vec![5]);
    assert_eq!(d.size(), 1);
    assert_eq!(d.into_owned(), vec![5]);
    let sm = StateSummary::from(vec![6, 7]);
    assert_eq!(sm.size(), 2);
    assert_eq!(sm.into_owned(), vec![6, 7]);
    assert_eq!(Parameters::from(vec![1, 1]).size(), 2);
}

use graph_runtime_wasm::abi::{
    call_layout, contract_call_layout, encode_transaction, get_bool, get_bytes, get_fields,
    get_transaction, get_u32, log_layout, put_bool, put_bytes, put_u32, CallLayout,
    ContractCallLayout, LogLayout, TransactionRecord,
};
use graph_runtime_wasm::version::SemVer;

fn transaction() -> TransactionRecord {
    TransactionRecord {
        hash: vec![1, 2],
        index: vec![3],
        from: vec![4],
        to: Some(vec![5]),
        value: vec![6],
        gas_used: vec![],
        gas_price: vec![7],
        input: vec![8, 9],
    }
}

fn v1_bytes() -> Vec<u8> {
    let mut b = vec![1, 0, 0, 0];
    b.extend_from_slice(&[2, 0, 0, 0, 1, 2]);
    b.extend_from_slice(&[1, 0, 0, 0, 3]);
    b.extend_from_slice(&[1, 0, 0, 0, 4]);
    b.extend_from_slice(&[1, 0, 0, 0, 5]);
    b.extend_from_slice(&[1, 0, 0, 0, 6]);
    b.extend_from_slice(&[0, 0, 0, 0]);
    b.extend_from_slice(&[1, 0, 0, 0, 7]);
    b
}

#[test]
fn layouts_follow_the_api_version() {
    assert_eq!(log_layout(SemVer::new(0, 0, 1)), LogLayout::V1);
    assert_eq!(log_layout(SemVer::new(0, 0, 2)), LogLayout::V2Transaction);
    assert_eq!(call_layout(SemVer::new(0, 0, 2)), CallLayout::V1);
    assert_eq!(call_layout(SemVer::new(0, 0, 3)), CallLayout::V3Call);
    assert_eq!(contract_call_layout(SemVer::new(0, 0, 3)), ContractCallLayout::V1);
    assert_eq!(contract_call_layout(SemVer::new(0, 0, 4)), ContractCallLayout::V4Signature);
    assert_eq!(contract_call_layout(SemVer::new(0, 1, 0)), ContractCallLayout::V4Signature);
}

#[test]
fn log_record_layout_by_version() {
    let t = transaction();
    let v1 = encode_transaction(&t, log_layout(SemVer::new(0, 0, 1)));
    assert_eq!(v1, v1_bytes());
    let v2 = encode_transaction(&t, log_layout(SemVer::new(0, 0, 2)));
    let mut expected = v1_bytes();
    expected.extend_from_slice(&[2, 0, 0, 0, 8, 9]);
    assert_eq!(v2, expected);
}

#[test]
fn transaction_round_trip() {
    let t = transaction();
    let b = encode_transaction(&t, LogLayout::V2Transaction);
    let (back, end) = get_transaction(&b, 0, LogLayout::V2Transaction).unwrap();
    assert_eq!(end, b.len());
    assert_eq!(back.hash, t.hash);
    assert_eq!(back.to, t.to);
    assert_eq!(back.gas_used, t.gas_used);
    assert_eq!(back.input, t.input);

    let b = encode_transaction(&t, LogLayout::V1);
    let (back, end) = get_transaction(&b, 0, LogLayout::V1).unwrap();
    assert_eq!(end, b.len());
    assert_eq!(back.gas_price, t.gas_price);
    assert!(back.input.is_empty());
}

#[test]
fn transaction_without_recipient_round_trip() {
    let mut t = transaction();
    t.to = None;
    let mut b = vec![9, 9, 9];
    let start = b.len();
    graph_runtime_wasm::abi::put_transaction(&mut b, &t, LogLayout::V2Transaction);
    b.push(0xff);
    let (back, end) = get_transaction(&b, start, LogLayout::V2Transaction).unwrap();
    assert_eq!(back.to, None);
    assert_eq!(back.from, vec![4]);
    assert_eq!(end, b.len() - 1);
}

#[test]
fn truncated_transaction_is_refused() {
    let b = encode_transaction(&transaction(), LogLayout::V2Transaction);
    assert!(get_transaction(&b[..b.len() - 1].to_vec(), 0, LogLayout::V2Transaction).is_none());
    assert!(get_transaction(&v1_bytes(), 0, LogLayout::V2Transaction).is_none());
}

#[test]
fn u32_is_little_endian() {
    let mut b = Vec::new();
    put_u32(&mut b, 0x0403_0201);
    assert_eq!(b, vec![1, 2, 3, 4]);
    assert_eq!(get_u32(&b, 0), Some((0x0403_0201, 4)));
    assert_eq!(get_u32(&b, 1), None);
    assert_eq!(get_u32(&b, 7), None);
}

#[test]
fn primitive_round_trips() {
    let mut b = Vec::new();
    put_u32(&mut b, u32::MAX);
    put_bool(&mut b, true);
    put_bool(&mut b, false);
    put_bytes(&mut b, &vec![10, 20, 30]);
    put_bytes(&mut b, &vec![]);
    assert_eq!(get_u32(&b, 0), Some((u32::MAX, 4)));
    assert_eq!(get_bool(&b, 4), Some((true, 8)));
    assert_eq!(get_bool(&b, 8), Some((false, 12)));
    assert_eq!(get_bytes(&b, 12), Some((vec![10, 20, 30], 19)));
    assert_eq!(get_bytes(&b, 19), Some((vec![], 23)));
    let (fields, end) = get_fields(&b, 12, 2).unwrap();
    assert_eq!(fields, vec![vec![10, 20, 30], vec![]]);
    assert_eq!(end, 23);
}

#[test]
fn malformed_values_are_refused() {
    assert_eq!(get_bool(&vec![2, 0, 0, 0], 0), None);
    assert_eq!(get_bytes(&vec![5, 0, 0, 0, 1, 2], 0), None);
    assert_eq!(get_fields(&vec![0, 0, 0, 0], 0, 2), None);
}

#[test]
fn ordinary_transaction_fits() {
    assert!(graph_runtime_wasm::abi::transaction_fits(&transaction()));
}

use zero_tracer::types::{Hash256, BlockNumberOrTag};
use zero_tracer::store::TraceStore;
use zero_tracer::error::{DatabaseError, ZeroApiError, RpcErrorClass};

fn hash(n: u128) -> Hash256 {
    Hash256 { hi: n, lo: n + 1 }
}

#[test]
fn round_trip_by_hash_and_number() {
    let mut store = TraceStore::new();
    let blob = vec![1, 2, 3, 4];
    store.commit_block_trace(hash(1), 10, blob.clone()).unwrap();
    assert_eq!(store.get_block_trace_by_hash(&hash(1)).cloned(), Some(blob.clone()));
    assert_eq!(store.get_block_trace_by_number(10).cloned(), Some(blob));
}

#[test]
fn duplicate_hash_insert_is_refused() {
    let mut store = TraceStore::new();
    store.commit_block_trace(hash(1), 10, vec![1]).unwrap();
    let r = store.commit_block_trace(hash(1), 11, vec![2]);
    assert_eq!(r, Err(DatabaseError::FailedToInsertTrace));
    assert_eq!(store.get_block_trace_by_hash(&hash(1)).cloned(), Some(vec![1]));
}

#[test]
fn delete_leaves_unrelated_records_alone() {
    let mut store = TraceStore::new();
    store.commit_block_trace(hash(1), 10, vec![1]).unwrap();
    store.commit_block_trace(hash(2), 11, vec![2]).unwrap();
    store.delete_block_trace_by_hash(&hash(1));
    assert_eq!(store.get_block_trace_by_hash(&hash(1)), None);
    assert_eq!(store.get_block_trace_by_number(10), None);
    assert_eq!(store.get_block_trace_by_hash(&hash(2)).cloned(), Some(vec![2]));
    assert_eq!(store.get_block_trace_by_number(11).cloned(), Some(vec![2]));
}

#[test]
fn reverted_block_trace_transitions_to_not_found() {
    let mut store = TraceStore::new();
    store.commit_block_trace(hash(5), 50, vec![5, 5]).unwrap();
    store.commit_block_trace(hash(6), 51, vec![6, 6]).unwrap();
    assert!(store.zero_trace_block_by_hash(&hash(5)).is_ok());
    store.delete_block_trace_by_hash(&hash(5));
    assert_eq!(
        store.zero_trace_block_by_hash(&hash(5)),
        Err(ZeroApiError::TraceNotFoundForBlockHash(hash(5)))
    );
    assert_eq!(store.zero_trace_block_by_hash(&hash(6)), Ok(vec![6, 6]));
}

#[test]
fn symbolic_tag_is_rejected() {
    let mut store = TraceStore::new();
    store.commit_block_trace(hash(1), 10, vec![1]).unwrap();
    assert_eq!(
        store.zero_trace_block_by_number(BlockNumberOrTag::Latest),
        Err(ZeroApiError::UnsupportedBlockTag)
    );
    assert_eq!(
        store.zero_trace_block_by_number(BlockNumberOrTag::Pending),
        Err(ZeroApiError::UnsupportedBlockTag)
    );
    assert_eq!(store.zero_trace_block_by_number(BlockNumberOrTag::Number(10)), Ok(vec![1]));
    assert_eq!(
        store.zero_trace_block_by_number(BlockNumberOrTag::Number(99)),
        Err(ZeroApiError::TraceNotFoundForBlockNumber(99))
    );
}

#[test]
fn error_classes_split_client_from_server() {
    assert_eq!(
        ZeroApiError::TraceNotFoundForBlockNumber(1).rpc_class(),
        RpcErrorClass::InvalidParams
    );
    assert_eq!(
        ZeroApiError::TraceNotFoundForBlockHash(hash(1)).rpc_class(),
        RpcErrorClass::InvalidParams
    );
    assert_eq!(ZeroApiError::UnsupportedBlockTag.rpc_class(), RpcErrorClass::InvalidParams);
    assert_eq!(
        ZeroApiError::DatabaseError(DatabaseError::FailedToGetTrace).rpc_class(),
        RpcErrorClass::Internal
    );
    assert_eq!(
        ZeroApiError::DatabaseError(DatabaseError::FailedToDecodeTrace).rpc_class(),
        RpcErrorClass::Internal
    );
}

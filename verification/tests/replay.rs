use three_em_executor::cache::StateCache;
use three_em_executor::engine::{
    decode_interaction_input, execute_contract, prepare_vm_call, state_is_resumable,
    ExecuteResult, VmTrace, WasmAnswer,
};
use three_em_executor::interaction::{InteractionBlock, InteractionNode, InteractionTag};
use three_em_executor::loader::{ContractType, EngineError, LoadedContract};

fn json(s: &str) -> serde_json::Value {
    serde_json::from_str::<serde_json::Value>(s).unwrap()
}

fn inode(height: u64, block_id: &str, tx_id: &str, input: Option<&str>) -> InteractionNode {
    let mut tags = Vec::new();
    if let Some(v) = input {
        tags.push(InteractionTag { name: "Input".to_string(), value: v.to_string() });
    }
    InteractionNode {
        id: tx_id.to_string(),
        owner_address: "owner".to_string(),
        tags,
        block: InteractionBlock {
            height,
            id: block_id.to_string(),
            timestamp: "0".to_string(),
        },
    }
}

fn wasm_contract(init: &str) -> LoadedContract {
    LoadedContract {
        contract_type: ContractType::Wasm,
        contract_src: vec![0, 97, 115, 109],
        init_state: init.to_string(),
    }
}

fn js_contract(init: &str) -> LoadedContract {
    LoadedContract {
        contract_type: ContractType::Javascript,
        contract_src: b"export function handle(state, action) {}".to_vec(),
        init_state: init.to_string(),
    }
}

fn new_state(s: &str) -> WasmAnswer {
    WasmAnswer::NewState(s.as_bytes().to_vec())
}

#[test]
fn interaction_input_decodes_to_its_json_value() {
    let with = inode(1, "b", "t", Some("{\"a\":1}"));
    assert_eq!(decode_interaction_input(&with), Some(json("{\"a\":1}")));
    let missing = inode(1, "b", "t", None);
    assert_eq!(decode_interaction_input(&missing), None);
    let malformed = inode(1, "b", "t", Some("not json"));
    assert_eq!(decode_interaction_input(&malformed), None);
}

fn deeply_nested_value(depth: usize) -> serde_json::Value {
    let mut v = json("1");
    for _ in 0..depth {
        v = serde_json::Value::Array(vec![v]);
    }
    v
}

#[test]
fn vm_call_object_is_input_and_caller() {
    let node = inode(1, "b", "t", Some("{\"op\":\"inc\"}"));
    let call = prepare_vm_call(&node).unwrap();
    assert_eq!(call, json("{\"input\":{\"op\":\"inc\"},\"caller\":\"owner\"}"));
    let missing = inode(1, "b", "t", None);
    assert_eq!(prepare_vm_call(&missing), None);
    let malformed = inode(1, "b", "t", Some("not json"));
    assert_eq!(prepare_vm_call(&malformed), None);
}

#[test]
fn shallow_states_are_resumable_and_deep_ones_are_not() {
    assert!(state_is_resumable(&json("{\"counter\":2}")));
    // serializing has no depth limit, parsing does: such a state encodes
    // to bytes that do not parse back
    let deep = deeply_nested_value(200);
    assert!(serde_json::to_vec(&deep).is_ok());
    assert!(serde_json::from_slice::<serde_json::Value>(&serde_json::to_vec(&deep).unwrap())
        .is_err());
    assert!(!state_is_resumable(&deep));
}

#[test]
fn unresumable_cached_state_runs_cold() {
    let cid = "deep".to_string();
    let contract = wasm_contract("{\"n\":0}");
    let i1 = inode(1, "b", "d1", Some("{}"));
    let mut cache = StateCache::new();
    let mut stale = three_em_executor::validity::ValidityTable::new();
    stale.insert("d1".to_string(), false);
    cache.cache_states(cid.clone(), deeply_nested_value(200), stale, 1);
    // the entry cannot seed a resumption, so the replay runs cold: the
    // full list is applied from the parsed initial state
    let r = execute_contract(
        &cid,
        &contract,
        vec![i1],
        1,
        false,
        VmTrace::Wasm { answers: vec![new_state("{\"n\":1}")] },
        &mut cache,
        true,
    )
    .unwrap();
    match r {
        ExecuteResult::V8(state, validity) => {
            assert_eq!(state, json("{\"n\":1}"));
            assert_eq!(validity.get(&"d1".to_string()), Some(true));
        },
        _ => panic!("expected a V8 result"),
    }
}

#[test]
fn empty_interaction_list_returns_parsed_init_state() {
    let mut cache = StateCache::new();
    let r = execute_contract(
        &"c1".to_string(),
        &wasm_contract("{\"counter\":0}"),
        vec![],
        0,
        false,
        VmTrace::Wasm { answers: vec![] },
        &mut cache,
        false,
    )
    .unwrap();
    match r {
        ExecuteResult::V8(state, validity) => {
            assert_eq!(state, json("{\"counter\":0}"));
            assert_eq!(validity.get(&"anything".to_string()), None);
        },
        _ => panic!("expected a V8 result"),
    }
}

#[test]
fn wasm_counter_reaches_two() {
    let mut cache = StateCache::new();
    let i1 = inode(822061, "b1", "HBHs", Some("{}"));
    let i2 = inode(822062, "b2", "IlAr", Some("{}"));
    let r = execute_contract(
        &"counter-contract".to_string(),
        &wasm_contract("{\"counter\":0}"),
        vec![i2, i1],
        0,
        false,
        VmTrace::Wasm {
            answers: vec![new_state("{\"counter\":1}"), new_state("{\"counter\":2}")],
        },
        &mut cache,
        false,
    )
    .unwrap();
    match r {
        ExecuteResult::V8(state, validity) => {
            assert_eq!(state.get("counter").unwrap().as_i64().unwrap(), 2);
            assert_eq!(validity.get(&"HBHs".to_string()), Some(true));
            assert_eq!(validity.get(&"IlAr".to_string()), Some(true));
        },
        _ => panic!("expected a V8 result"),
    }
}

#[test]
fn js_community_state_is_snapshot() {
    let mut cache = StateCache::new();
    let i1 = inode(1, "b1", "j1", Some("{\"function\":\"join\"}"));
    let snapshot = json("{\"people\":[{\"username\":\"martonlederer\"}]}");
    let r = execute_contract(
        &"community".to_string(),
        &js_contract("{\"people\":[]}"),
        vec![i1],
        0,
        false,
        VmTrace::Js { call_results: vec![true], final_state: snapshot.clone() },
        &mut cache,
        false,
    )
    .unwrap();
    match r {
        ExecuteResult::V8(state, validity) => {
            assert_eq!(state, snapshot);
            assert!(state.get("people").unwrap().is_array());
            assert_eq!(validity.get(&"j1".to_string()), Some(true));
        },
        _ => panic!("expected a V8 result"),
    }
}

#[test]
fn missing_input_tag_marks_interaction_invalid() {
    let mut cache = StateCache::new();
    let no_input = inode(5, "b", "t1", None);
    let r = execute_contract(
        &"c".to_string(),
        &wasm_contract("{\"v\":1}"),
        vec![no_input],
        0,
        false,
        VmTrace::Wasm { answers: vec![new_state("{\"v\":9}")] },
        &mut cache,
        false,
    )
    .unwrap();
    match r {
        ExecuteResult::V8(state, validity) => {
            assert_eq!(state, json("{\"v\":1}"));
            assert_eq!(validity.get(&"t1".to_string()), Some(false));
        },
        _ => panic!("expected a V8 result"),
    }
}

#[test]
fn undecodable_input_marks_interaction_invalid() {
    let mut cache = StateCache::new();
    let bad = inode(5, "b", "t1", Some("not json"));
    let good = inode(6, "b", "t2", Some("{\"op\":\"inc\"}"));
    let r = execute_contract(
        &"c".to_string(),
        &wasm_contract("{\"v\":1}"),
        vec![bad, good],
        0,
        false,
        VmTrace::Wasm { answers: vec![WasmAnswer::Failed, new_state("{\"v\":2}")] },
        &mut cache,
        false,
    )
    .unwrap();
    match r {
        ExecuteResult::V8(state, validity) => {
            assert_eq!(state, json("{\"v\":2}"));
            assert_eq!(validity.get(&"t1".to_string()), Some(false));
            assert_eq!(validity.get(&"t2".to_string()), Some(true));
        },
        _ => panic!("expected a V8 result"),
    }
}

#[test]
fn failed_interaction_preserves_prior_state() {
    let mut cache = StateCache::new();
    let i1 = inode(1, "b", "i1", Some("{}"));
    let i2 = inode(2, "b", "i2", Some("{\"div\":0}"));
    let r = execute_contract(
        &"c".to_string(),
        &wasm_contract("{\"s\":0}"),
        vec![i1, i2],
        0,
        false,
        VmTrace::Wasm { answers: vec![new_state("{\"s\":1}"), WasmAnswer::Failed] },
        &mut cache,
        false,
    )
    .unwrap();
    match r {
        ExecuteResult::V8(state, validity) => {
            // the state after the failing second interaction is the state after the first
            assert_eq!(state, json("{\"s\":1}"));
            assert_eq!(validity.get(&"i1".to_string()), Some(true));
            assert_eq!(validity.get(&"i2".to_string()), Some(false));
        },
        _ => panic!("expected a V8 result"),
    }
}

#[test]
fn failure_isolation_with_following_interaction() {
    let mut cache = StateCache::new();
    let i1 = inode(1, "b", "i1", Some("{}"));
    let i2 = inode(2, "b", "i2", Some("{}"));
    let i3 = inode(3, "b", "i3", Some("{}"));
    let r = execute_contract(
        &"c".to_string(),
        &wasm_contract("{\"s\":0}"),
        vec![i1, i2, i3],
        0,
        false,
        VmTrace::Wasm {
            answers: vec![new_state("{\"s\":1}"), WasmAnswer::Failed, new_state("{\"s\":3}")],
        },
        &mut cache,
        false,
    )
    .unwrap();
    match r {
        ExecuteResult::V8(state, validity) => {
            assert_eq!(state, json("{\"s\":3}"));
            assert_eq!(validity.get(&"i1".to_string()), Some(true));
            assert_eq!(validity.get(&"i2".to_string()), Some(false));
            assert_eq!(validity.get(&"i3".to_string()), Some(true));
        },
        _ => panic!("expected a V8 result"),
    }
}

#[test]
fn garbage_state_buffer_counts_as_failure() {
    let mut cache = StateCache::new();
    let i1 = inode(1, "b", "i1", Some("{}"));
    let r = execute_contract(
        &"c".to_string(),
        &wasm_contract("{\"s\":0}"),
        vec![i1],
        0,
        false,
        VmTrace::Wasm { answers: vec![WasmAnswer::NewState(b"not a state".to_vec())] },
        &mut cache,
        false,
    )
    .unwrap();
    match r {
        ExecuteResult::V8(state, validity) => {
            assert_eq!(state, json("{\"s\":0}"));
            assert_eq!(validity.get(&"i1".to_string()), Some(false));
        },
        _ => panic!("expected a V8 result"),
    }
}

#[test]
fn malformed_init_state_is_fatal() {
    let mut cache = StateCache::new();
    let i1 = inode(1, "b", "i1", Some("{}"));
    let r = execute_contract(
        &"c".to_string(),
        &wasm_contract("not json"),
        vec![i1],
        0,
        false,
        VmTrace::Wasm { answers: vec![WasmAnswer::Failed] },
        &mut cache,
        false,
    );
    assert!(matches!(r, Err(EngineError::InitStateMalformed)));
    let rjs = execute_contract(
        &"c".to_string(),
        &js_contract(""),
        vec![],
        0,
        false,
        VmTrace::Js { call_results: vec![], final_state: json("null") },
        &mut cache,
        false,
    );
    assert!(matches!(rjs, Err(EngineError::InitStateMalformed)));
}

#[test]
fn evm_stub_returns_null_state_and_accumulated_validity() {
    let mut cache = StateCache::new();
    let loaded = LoadedContract {
        contract_type: ContractType::Evm,
        contract_src: vec![1, 2, 3],
        init_state: "{}".to_string(),
    };
    let r = execute_contract(
        &"evm".to_string(),
        &loaded,
        vec![inode(1, "b", "e1", Some("{}"))],
        0,
        false,
        VmTrace::Evm,
        &mut cache,
        false,
    )
    .unwrap();
    match r {
        ExecuteResult::Evm(bytes, validity) => {
            assert!(bytes.is_empty());
            assert_eq!(validity.get(&"e1".to_string()), None);
        },
        _ => panic!("expected an Evm result"),
    }
}

#[test]
fn cached_resumption_applies_only_the_new_suffix() {
    let mut cache = StateCache::new();
    let cid = "resume".to_string();
    let contract = wasm_contract("{\"counter\":0}");
    let i1 = inode(822061, "b1", "h1", Some("{}"));
    let i2 = inode(822062, "b2", "h2", Some("{}"));
    let first = execute_contract(
        &cid,
        &contract,
        vec![i1.clone(), i2.clone()],
        0,
        true,
        VmTrace::Wasm {
            answers: vec![new_state("{\"counter\":1}"), new_state("{\"counter\":2}")],
        },
        &mut cache,
        true,
    )
    .unwrap();
    let first_state = match first {
        ExecuteResult::V8(state, _) => state,
        _ => panic!("expected a V8 result"),
    };
    assert_eq!(first_state, json("{\"counter\":2}"));
    // a new interaction at a later height fails under the VM
    let i3 = inode(822063, "b3", "h3", Some("{}"));
    let second = execute_contract(
        &cid,
        &contract,
        vec![i1, i2, i3],
        2,
        true,
        VmTrace::Wasm { answers: vec![WasmAnswer::Failed] },
        &mut cache,
        true,
    )
    .unwrap();
    match second {
        ExecuteResult::V8(state, validity) => {
            assert_eq!(state, first_state);
            assert_eq!(validity.get(&"h1".to_string()), Some(true));
            assert_eq!(validity.get(&"h2".to_string()), Some(true));
            assert_eq!(validity.get(&"h3".to_string()), Some(false));
        },
        _ => panic!("expected a V8 result"),
    }
    // the committed entry covers the whole ordered list
    let entry = cache.find_state(&cid).unwrap();
    assert_eq!(entry.last_processed_index, 3);
    assert_eq!(entry.validity.get(&"h3".to_string()), Some(false));
}

#[test]
fn warm_cache_short_circuit_equals_cold_replay() {
    let contract = wasm_contract("{\"n\":0}");
    let cid = "equiv".to_string();
    let i1 = inode(1, "b", "q1", Some("{}"));
    // cold replay without a cache
    let mut nocache = StateCache::new();
    let plain = execute_contract(
        &cid,
        &contract,
        vec![i1.clone()],
        0,
        false,
        VmTrace::Wasm { answers: vec![new_state("{\"n\":1}")] },
        &mut nocache,
        false,
    )
    .unwrap();
    // cold cached replay, then a resumption with nothing new
    let mut cache = StateCache::new();
    let cold = execute_contract(
        &cid,
        &contract,
        vec![i1.clone()],
        0,
        true,
        VmTrace::Wasm { answers: vec![new_state("{\"n\":1}")] },
        &mut cache,
        true,
    )
    .unwrap();
    let warm = execute_contract(
        &cid,
        &contract,
        vec![i1],
        1,
        false,
        VmTrace::Wasm { answers: vec![] },
        &mut cache,
        true,
    )
    .unwrap();
    let states = |r: &ExecuteResult| match r {
        ExecuteResult::V8(state, validity) => {
            (state.clone(), validity.get(&"q1".to_string()))
        },
        _ => panic!("expected a V8 result"),
    };
    assert_eq!(states(&plain), states(&cold));
    assert_eq!(states(&plain), states(&warm));
}

#[test]
fn disabled_cache_is_never_read_nor_written() {
    let cid = "pure".to_string();
    let contract = wasm_contract("{\"n\":0}");
    let i1 = inode(1, "b", "p1", Some("{}"));
    // poison the cache with a wrong entry for the same contract
    let mut poisoned = StateCache::new();
    let mut wrong = three_em_executor::validity::ValidityTable::new();
    wrong.insert("p1".to_string(), false);
    poisoned.cache_states(cid.clone(), json("{\"n\":999}"), wrong, 77);
    let with_poison = execute_contract(
        &cid,
        &contract,
        vec![i1.clone()],
        0,
        true,
        VmTrace::Wasm { answers: vec![new_state("{\"n\":1}")] },
        &mut poisoned,
        false,
    )
    .unwrap();
    let mut fresh = StateCache::new();
    let clean = execute_contract(
        &cid,
        &contract,
        vec![i1],
        0,
        true,
        VmTrace::Wasm { answers: vec![new_state("{\"n\":1}")] },
        &mut fresh,
        false,
    )
    .unwrap();
    match (with_poison, clean) {
        (ExecuteResult::V8(s1, v1), ExecuteResult::V8(s2, v2)) => {
            assert_eq!(s1, s2);
            assert_eq!(s1, json("{\"n\":1}"));
            assert_eq!(v1.get(&"p1".to_string()), Some(true));
            assert_eq!(v2.get(&"p1".to_string()), Some(true));
        },
        _ => panic!("expected V8 results"),
    }
    // the poisoned entry is untouched
    let entry = poisoned.find_state(&cid).unwrap();
    assert_eq!(entry.last_processed_index, 77);
    assert_eq!(entry.state, json("{\"n\":999}"));
}

#[test]
fn interactions_are_applied_in_canonical_order() {
    let mut cache = StateCache::new();
    // fetched out of order; the replay must apply t1, t2, t0
    let a = inode(10, "b", "t2", Some("{}"));
    let b = inode(10, "a", "t1", Some("{}"));
    let c = inode(11, "a", "t0", Some("{}"));
    let r = execute_contract(
        &"ord".to_string(),
        &wasm_contract("{\"seen\":[]}"),
        vec![a, b, c],
        0,
        false,
        VmTrace::Wasm {
            answers: vec![
                new_state("{\"seen\":[\"t1\"]}"),
                new_state("{\"seen\":[\"t1\",\"t2\"]}"),
                new_state("{\"seen\":[\"t1\",\"t2\",\"t0\"]}"),
            ],
        },
        &mut cache,
        false,
    )
    .unwrap();
    match r {
        ExecuteResult::V8(state, _) => {
            assert_eq!(state, json("{\"seen\":[\"t1\",\"t2\",\"t0\"]}"));
        },
        _ => panic!("expected a V8 result"),
    }
}

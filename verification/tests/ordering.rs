use three_em_executor::interaction::{
    first_tag_value, get_input_from_interaction, has_multiple_interactions, InteractionBlock,
    InteractionNode, InteractionTag,
};
use three_em_executor::loader::{
    classify_content_type, determine_contract_type, source_tx_id, ContractType, EngineError,
};
use three_em_executor::order::sort_interactions;
use three_em_executor::validity::ValidityTable;

fn tag(name: &str, value: &str) -> InteractionTag {
    InteractionTag { name: name.to_string(), value: value.to_string() }
}

fn node(height: u64, block_id: &str, tx_id: &str, tags: Vec<InteractionTag>) -> InteractionNode {
    InteractionNode {
        id: tx_id.to_string(),
        owner_address: "owner".to_string(),
        tags,
        block: InteractionBlock {
            height,
            id: block_id.to_string(),
            timestamp: "0".to_string(),
        },
    }
}

fn ids(v: &[InteractionNode]) -> Vec<String> {
    v.iter().map(|n| n.id.clone()).collect()
}

#[test]
fn canonical_order_of_three_interactions() {
    let interactions = vec![
        node(10, "b", "t2", vec![]),
        node(10, "a", "t1", vec![]),
        node(11, "a", "t0", vec![]),
    ];
    let sorted = sort_interactions(interactions);
    assert_eq!(ids(&sorted), vec!["t1".to_string(), "t2".to_string(), "t0".to_string()]);
    assert_eq!(sorted[0].block.height, 10);
    assert_eq!(sorted[0].block.id, "a");
    assert_eq!(sorted[1].block.height, 10);
    assert_eq!(sorted[1].block.id, "b");
    assert_eq!(sorted[2].block.height, 11);
}

#[test]
fn sorting_sorted_list_is_noop() {
    let interactions = vec![
        node(1, "a", "x", vec![]),
        node(1, "b", "y", vec![]),
        node(2, "a", "z", vec![]),
    ];
    let before = ids(&interactions);
    let sorted = sort_interactions(interactions);
    assert_eq!(ids(&sorted), before);
}

#[test]
fn sorting_is_shuffle_insensitive() {
    let a = vec![
        node(5, "q", "i1", vec![]),
        node(3, "p", "i2", vec![]),
        node(5, "p", "i3", vec![]),
    ];
    let b = vec![
        node(5, "p", "i3", vec![]),
        node(5, "q", "i1", vec![]),
        node(3, "p", "i2", vec![]),
    ];
    assert_eq!(ids(&sort_interactions(a)), ids(&sort_interactions(b)));
}

#[test]
fn ties_break_on_tx_id() {
    let interactions = vec![node(7, "blk", "zz", vec![]), node(7, "blk", "aa", vec![])];
    let sorted = sort_interactions(interactions);
    assert_eq!(ids(&sorted), vec!["aa".to_string(), "zz".to_string()]);
}

#[test]
fn input_tag_is_extracted() {
    let n = node(1, "b", "t", vec![tag("Other", "x"), tag("Input", "{\"fn\":\"go\"}")]);
    assert_eq!(get_input_from_interaction(&n), "{\"fn\":\"go\"}");
}

#[test]
fn missing_input_tag_is_empty_string() {
    let n = node(1, "b", "t", vec![tag("Other", "x")]);
    assert_eq!(get_input_from_interaction(&n), "");
}

#[test]
fn first_input_tag_wins() {
    let n = node(1, "b", "t", vec![tag("Input", "1"), tag("Input", "2")]);
    assert_eq!(get_input_from_interaction(&n), "1");
}

#[test]
fn input_tag_name_is_case_sensitive() {
    let n = node(1, "b", "t", vec![tag("input", "1")]);
    assert_eq!(get_input_from_interaction(&n), "");
}

#[test]
fn multiple_contract_tags_detected() {
    let two = node(1, "b", "t", vec![tag("Contract", "a"), tag("Contract", "b")]);
    assert!(has_multiple_interactions(&two));
    let one = node(1, "b", "t", vec![tag("Contract", "a"), tag("Input", "{}")]);
    assert!(!has_multiple_interactions(&one));
    let none = node(1, "b", "t", vec![]);
    assert!(!has_multiple_interactions(&none));
}

#[test]
fn first_tag_value_finds_first_match() {
    let tags = vec![tag("A", "1"), tag("B", "2"), tag("A", "3")];
    assert_eq!(first_tag_value(&tags, &"A".to_string()), Some("1".to_string()));
    assert_eq!(first_tag_value(&tags, &"B".to_string()), Some("2".to_string()));
    assert_eq!(first_tag_value(&tags, &"C".to_string()), None);
}

#[test]
fn content_types_classify() {
    assert_eq!(
        classify_content_type(&"application/javascript".to_string()),
        Some(ContractType::Javascript)
    );
    assert_eq!(
        classify_content_type(&"application/typescript".to_string()),
        Some(ContractType::Javascript)
    );
    assert_eq!(classify_content_type(&"application/wasm".to_string()), Some(ContractType::Wasm));
    assert_eq!(
        classify_content_type(&"application/octet-stream".to_string()),
        Some(ContractType::Evm)
    );
    assert_eq!(classify_content_type(&"text/plain".to_string()), None);
}

#[test]
fn unsupported_content_type_is_an_error() {
    let tags = vec![tag("Content-Type", "text/plain")];
    assert_eq!(
        determine_contract_type(&tags, &None),
        Err(EngineError::UnsupportedContractType)
    );
    assert_eq!(
        determine_contract_type(&vec![], &None),
        Err(EngineError::UnsupportedContractType)
    );
}

#[test]
fn content_type_override_wins() {
    let tags = vec![tag("Content-Type", "application/wasm")];
    assert_eq!(determine_contract_type(&tags, &None), Ok(ContractType::Wasm));
    assert_eq!(
        determine_contract_type(&tags, &Some("application/javascript".to_string())),
        Ok(ContractType::Javascript)
    );
}

#[test]
fn contract_src_tag_redirects_source() {
    let cid = "contract".to_string();
    let with = vec![tag("Contract-Src", "srctx")];
    assert_eq!(source_tx_id(&cid, &with), "srctx");
    let without = vec![tag("Input", "{}")];
    assert_eq!(source_tx_id(&cid, &without), "contract");
}

#[test]
fn sort_key_layout() {
    let key = three_em_executor::sort_key::get_sort_key(822062, "blk", "tx");
    assert_eq!(key, b"000000822062,blk,tx".to_vec());
    let zero = three_em_executor::sort_key::get_sort_key(0, "", "");
    assert_eq!(zero, b"000000000000,,".to_vec());
}

#[test]
fn sort_key_orders_byte_wise() {
    let lower = three_em_executor::sort_key::get_sort_key(9, "b", "t");
    let higher = three_em_executor::sort_key::get_sort_key(10, "a", "a");
    assert!(lower < higher);
    let same_height_a = three_em_executor::sort_key::get_sort_key(10, "a", "t2");
    let same_height_b = three_em_executor::sort_key::get_sort_key(10, "b", "t1");
    assert!(same_height_a < same_height_b);
    let tie_a = three_em_executor::sort_key::get_sort_key(10, "a", "t1");
    let tie_b = three_em_executor::sort_key::get_sort_key(10, "a", "t2");
    assert!(tie_a < tie_b);
}

#[test]
fn validity_table_records_and_overrides() {
    let mut t = ValidityTable::new();
    assert_eq!(t.get(&"a".to_string()), None);
    t.insert("a".to_string(), true);
    t.insert("b".to_string(), false);
    assert_eq!(t.get(&"a".to_string()), Some(true));
    assert_eq!(t.get(&"b".to_string()), Some(false));
    assert!(t.contains(&"a".to_string()));
    assert!(!t.contains(&"c".to_string()));
    t.insert("a".to_string(), false);
    assert_eq!(t.get(&"a".to_string()), Some(false));
    let copy = t.clone();
    assert_eq!(copy.get(&"b".to_string()), Some(false));
}

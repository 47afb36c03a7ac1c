//! The replay engine: folds a contract's interactions, in canonical order,
//! into a final state and a validity table, consulting the state cache for
//! incremental resumption.
//!
//! The embedded VMs are outside collaborators: the engine decides which
//! interactions to apply, with which decoded inputs, and how outcomes are
//! recorded; the VM's own answers reach the engine as a [`VmTrace`].  Every
//! decision is verified for every possible trace.

use vstd::prelude::*;
use vstd::utf8::encode_utf8;
use crate::cache::{CacheEntry, CacheEntryModel, StateCache};
use crate::interaction::{get_input_from_interaction, spec_input, InteractionNode};
use crate::json::{
    call_input_of, clone_value, json_encode, json_parse_bytes, make_call_input, parse_json_bytes,
    value_to_bytes,
};
use crate::loader::{ContractType, EngineError, LoadedContract};
use crate::order::{sort_interactions, sort_spec};
use crate::validity::ValidityTable;

verus! {

/// What a replay returns: the final state and the validity table.
pub enum ExecuteResult {
    V8(serde_json::Value, ValidityTable),
    Evm(Vec<u8>, ValidityTable),
}

/// The spec-level shape of a replay result.
pub enum ResultModel {
    V8M(serde_json::Value, Map<Seq<char>, bool>),
    EvmM(Seq<u8>, Map<Seq<char>, bool>),
}

impl View for ExecuteResult {
    type V = ResultModel;

    open spec fn view(&self) -> ResultModel {
        match self {
            ExecuteResult::V8(v, t) => ResultModel::V8M(*v, t@),
            ExecuteResult::Evm(b, t) => ResultModel::EvmM(b@, t@),
        }
    }
}

/// A replay outcome with the result abstracted to its model.
pub open spec fn result_model(r: Result<ExecuteResult, EngineError>) -> Result<
    ResultModel,
    EngineError,
> {
    match r {
        Ok(x) => Ok(x@),
        Err(e) => Err(e),
    }
}

/// The bytecode VM's answer to one applied interaction.
pub enum WasmAnswer {
    /// The handler returned a new JSON-encoded state buffer.
    NewState(Vec<u8>),
    /// The handler trapped or rejected the call.
    Failed,
}

/// The embedded VM's part of a replay.  The engine owns every other
/// decision; a driver performs the VM calls the engine directs and hands
/// their outcomes back in this shape.
pub enum VmTrace {
    /// One success flag per applied interaction, and the state snapshot the
    /// scripted runtime reports after the fold.
    Js { call_results: Vec<bool>, final_state: serde_json::Value },
    /// One answer per applied interaction.
    Wasm { answers: Vec<WasmAnswer> },
    /// The bytecode-VM stub runs nothing.
    Evm,
}

/// The JSON value an interaction's input decodes to, if it is well-formed.
pub open spec fn spec_input_value(n: InteractionNode) -> Option<serde_json::Value> {
    json_parse_bytes(encode_utf8(spec_input(n.tags@)))
}

/// The validity table after the scripted runtime has applied the first `k`
/// interactions: an interaction is valid iff its input decodes and its call
/// succeeded; a failure changes nothing else.
pub open spec fn js_fold(
    v: Map<Seq<char>, bool>,
    nodes: Seq<InteractionNode>,
    oks: Seq<bool>,
    k: int,
) -> Map<Seq<char>, bool>
    decreases k,
{
    if k <= 0 {
        v
    } else {
        let prev = js_fold(v, nodes, oks, k - 1);
        prev.insert(nodes[k - 1].id@, spec_input_value(nodes[k - 1]) is Some && oks[k - 1])
    }
}

/// The running state of a bytecode replay: the validity so far and the
/// JSON-encoded state buffer.
pub struct WasmFold {
    pub validity: Map<Seq<char>, bool>,
    pub state: Seq<u8>,
}

/// One bytecode application: an interaction whose input does not decode, or
/// whose call fails, or whose answer is not a well-formed state buffer, is
/// recorded invalid and leaves the state exactly as it was.
pub open spec fn wasm_step(st: WasmFold, n: InteractionNode, ans: WasmAnswer) -> WasmFold {
    if spec_input_value(n) is None {
        WasmFold { validity: st.validity.insert(n.id@, false), state: st.state }
    } else {
        match ans {
            WasmAnswer::NewState(b) => if json_parse_bytes(b@) is Some {
                WasmFold { validity: st.validity.insert(n.id@, true), state: b@ }
            } else {
                WasmFold { validity: st.validity.insert(n.id@, false), state: st.state }
            },
            WasmAnswer::Failed => WasmFold {
                validity: st.validity.insert(n.id@, false),
                state: st.state,
            },
        }
    }
}

/// The bytecode replay state after the first `k` interactions.
pub open spec fn wasm_fold(
    st: WasmFold,
    nodes: Seq<InteractionNode>,
    answers: Seq<WasmAnswer>,
    k: int,
) -> WasmFold
    decreases k,
{
    if k <= 0 {
        st
    } else {
        wasm_step(wasm_fold(st, nodes, answers, k - 1), nodes[k - 1], answers[k - 1])
    }
}

/// The JSON value a well-formed state buffer holds.
pub open spec fn spec_value_of(b: Seq<u8>) -> serde_json::Value {
    match json_parse_bytes(b) {
        Some(v) => v,
        None => vstd::pervasive::arbitrary(),
    }
}

/// A cached state can seed a bytecode resumption: it re-encodes, and the
/// encoding parses back to the same value.  serde_json enforces a nesting
/// limit when parsing but none when serializing, so the second condition
/// is a real one, checked at run time.
pub open spec fn spec_resumable(v: serde_json::Value) -> bool {
    &&& json_encode(v) is Some
    &&& json_parse_bytes(json_encode(v)->0) == Some(v)
}

/// The cache entry a replay starts from, if any: the cache must be enabled
/// and hold the contract; a bytecode entry whose state cannot seed a
/// resumption is discarded, so that the replay runs cold instead.
pub open spec fn spec_cache_hit(
    cache0: Map<Seq<char>, CacheEntryModel>,
    contract_id: Seq<char>,
    cache_enabled: bool,
    ctype: ContractType,
) -> Option<CacheEntryModel> {
    if cache_enabled && cache0.contains_key(contract_id) && (ctype != ContractType::Wasm
        || spec_resumable(cache0[contract_id].state)) {
        Some(cache0[contract_id])
    } else {
        None
    }
}

/// Whether the replay must run the fold at all: always without a cache
/// entry; with one, only when the ledger reported new interactions.
pub open spec fn spec_needs_processing(hit: Option<CacheEntryModel>, are_there_new: bool) -> bool {
    match hit {
        Some(_) => are_there_new,
        None => true,
    }
}

/// Where in the canonically ordered list the fold starts: at the ledger's
/// new-interaction offset when resuming from a cache entry, else at zero.
pub open spec fn spec_start_index(
    hit: Option<CacheEntryModel>,
    are_there_new: bool,
    new_index: int,
) -> int {
    match hit {
        Some(_) => if are_there_new {
            new_index
        } else {
            0
        },
        None => 0,
    }
}

/// The validity table the fold starts from.
pub open spec fn spec_base_validity(hit: Option<CacheEntryModel>) -> Map<Seq<char>, bool> {
    match hit {
        Some(e) => e.validity,
        None => Map::empty(),
    }
}

/// How many interactions the replay hands to the VM.
pub open spec fn spec_applied_count(
    ctype: ContractType,
    nodes: Seq<InteractionNode>,
    new_index: int,
    are_there_new: bool,
    contract_id: Seq<char>,
    cache0: Map<Seq<char>, CacheEntryModel>,
    cache_enabled: bool,
) -> int {
    let hit = spec_cache_hit(cache0, contract_id, cache_enabled, ctype);
    if ctype == ContractType::Evm || !spec_needs_processing(hit, are_there_new) {
        0
    } else {
        nodes.len() - spec_start_index(hit, are_there_new, new_index)
    }
}

/// The replay's result, as a function of the ledger's answers, the cache
/// and the VM trace.  This is the whole observable behaviour of a replay:
/// two replays agree whenever these arguments agree.  A trace of the wrong
/// variant never reaches the engine — [`execute_contract`] requires one
/// matching the contract's runtime — so those arms are immaterial.
pub open spec fn spec_execute(
    ctype: ContractType,
    init_state: Seq<char>,
    nodes: Seq<InteractionNode>,
    new_index: int,
    are_there_new: bool,
    contract_id: Seq<char>,
    cache0: Map<Seq<char>, CacheEntryModel>,
    cache_enabled: bool,
    trace: VmTrace,
) -> Result<ResultModel, EngineError> {
    let hit = spec_cache_hit(cache0, contract_id, cache_enabled, ctype);
    let start = spec_start_index(hit, are_there_new, new_index);
    let suffix = sort_spec(nodes).skip(start);
    let k = suffix.len() as int;
    match ctype {
        ContractType::Evm => Ok(ResultModel::EvmM(Seq::empty(), spec_base_validity(hit))),
        ContractType::Javascript => match hit {
            Some(e) => if !are_there_new {
                Ok(ResultModel::V8M(e.state, e.validity))
            } else {
                match trace {
                    VmTrace::Js { call_results, final_state } => Ok(
                        ResultModel::V8M(
                            final_state,
                            js_fold(e.validity, suffix, call_results@, k),
                        ),
                    ),
                    _ => Err(EngineError::UnsupportedContractType),
                }
            },
            None => if json_parse_bytes(encode_utf8(init_state)) is None {
                Err(EngineError::InitStateMalformed)
            } else {
                match trace {
                    VmTrace::Js { call_results, final_state } => Ok(
                        ResultModel::V8M(
                            final_state,
                            js_fold(Map::empty(), suffix, call_results@, k),
                        ),
                    ),
                    _ => Err(EngineError::UnsupportedContractType),
                }
            },
        },
        ContractType::Wasm => match hit {
            Some(e) => if !are_there_new {
                Ok(ResultModel::V8M(e.state, e.validity))
            } else {
                match trace {
                    VmTrace::Wasm { answers } => {
                        let st0 = WasmFold {
                            validity: e.validity,
                            state: match json_encode(e.state) {
                                Some(b) => b,
                                None => Seq::empty(),
                            },
                        };
                        let stf = wasm_fold(st0, suffix, answers@, k);
                        Ok(ResultModel::V8M(spec_value_of(stf.state), stf.validity))
                    },
                    _ => Err(EngineError::UnsupportedContractType),
                }
            },
            None => if json_parse_bytes(encode_utf8(init_state)) is None {
                Err(EngineError::InitStateMalformed)
            } else {
                match trace {
                    VmTrace::Wasm { answers } => {
                        let st0 = WasmFold {
                            validity: Map::empty(),
                            state: encode_utf8(init_state),
                        };
                        let stf = wasm_fold(st0, suffix, answers@, k);
                        Ok(ResultModel::V8M(spec_value_of(stf.state), stf.validity))
                    },
                    _ => Err(EngineError::UnsupportedContractType),
                }
            },
        },
    }
}

/// The cache after a replay: untouched unless the replay was enabled, ran
/// the fold and completed cleanly, in which case the contract's entry is
/// overwritten with the final state, the full validity table and the length
/// of the canonically ordered interaction list.
pub open spec fn spec_cache_after(
    ctype: ContractType,
    init_state: Seq<char>,
    nodes: Seq<InteractionNode>,
    new_index: int,
    are_there_new: bool,
    contract_id: Seq<char>,
    cache0: Map<Seq<char>, CacheEntryModel>,
    cache_enabled: bool,
    trace: VmTrace,
) -> Map<Seq<char>, CacheEntryModel> {
    let hit = spec_cache_hit(cache0, contract_id, cache_enabled, ctype);
    if !cache_enabled || !spec_needs_processing(hit, are_there_new) {
        cache0
    } else {
        match spec_execute(
            ctype,
            init_state,
            nodes,
            new_index,
            are_there_new,
            contract_id,
            cache0,
            cache_enabled,
            trace,
        ) {
            Ok(ResultModel::V8M(v, t)) => cache0.insert(
                contract_id,
                CacheEntryModel {
                    state: v,
                    validity: t,
                    last_processed_index: nodes.len() as int,
                },
            ),
            _ => cache0,
        }
    }
}

/// Decodes the action payload of one interaction: the JSON value of its
/// `Input` tag, or nothing when the tag is missing or its text is not
/// well-formed JSON.  This is exactly the input the engine hands the VM
/// for that interaction; an interaction that decodes to nothing is
/// recorded invalid without a VM call.
pub fn decode_interaction_input(node: &InteractionNode) -> (r: Option<serde_json::Value>)
    ensures
        r == spec_input_value(*node),
{
    let input = get_input_from_interaction(node);
    parse_json_bytes(input.as_str().as_bytes())
}

/// What the engine hands the VM for one interaction: the call object
/// `{"input": <decoded input>, "caller": <owner address>}`, or nothing
/// when the input does not decode — the interaction is then recorded
/// invalid without a VM call.  A driver must pass the VM exactly this.
pub fn prepare_vm_call(node: &InteractionNode) -> (r: Option<serde_json::Value>)
    ensures
        spec_input_value(*node) is None ==> r is None,
        spec_input_value(*node) matches Some(v) ==> r == Some(
            call_input_of(v, node.owner_address@),
        ),
{
    match decode_interaction_input(node) {
        Some(v) => Some(make_call_input(&v, node.owner_address.as_str())),
        None => None,
    }
}

/// Whether a state value could seed a bytecode resumption if it were
/// cached: lets a driver establish exactly which interactions a
/// cache-enabled replay will apply.
pub fn state_is_resumable(v: &serde_json::Value) -> (r: bool)
    ensures
        r == spec_resumable(*v),
{
    match value_to_bytes(v) {
        Some(bytes) => {
            let parsed = parse_json_bytes(bytes.as_slice());
            parsed.is_some()
        },
        None => false,
    }
}

/// Runs the scripted-runtime fold from `start` over the sorted list.
fn js_replay(
    contract_id: &String,
    sorted: Vec<InteractionNode>,
    start: usize,
    base_validity: ValidityTable,
    call_results: Vec<bool>,
    final_state: serde_json::Value,
    cache: &mut StateCache,
    cache_enabled: bool,
) -> (r: ExecuteResult)
    requires
        start <= sorted@.len(),
        call_results@.len() == sorted@.len() - start,
    ensures
        r@ == ResultModel::V8M(
            final_state,
            js_fold(
                base_validity@,
                sorted@.skip(start as int),
                call_results@,
                sorted@.len() - start,
            ),
        ),
        final(cache)@ == if cache_enabled {
            old(cache)@.insert(
                contract_id@,
                CacheEntryModel {
                    state: final_state,
                    validity: js_fold(
                        base_validity@,
                        sorted@.skip(start as int),
                        call_results@,
                        sorted@.len() - start,
                    ),
                    last_processed_index: sorted@.len() as int,
                },
            )
        } else {
            old(cache)@
        },
{
    let ghost sorted_view = sorted@;
    let ghost base = base_validity@;
    let total = sorted.len();
    let mut rest = sorted;
    let suffix = rest.split_off(start);
    proof {
        assert(suffix@ =~= sorted_view.skip(start as int));
    }
    let ghost suffix_view = suffix@;
    let n = suffix.len();
    let mut validity = base_validity;
    let mut i: usize = 0;
    while i < n
        invariant
            i <= n,
            n == suffix_view.len(),
            suffix@ == suffix_view,
            call_results@.len() == n,
            validity@ == js_fold(base, suffix_view, call_results@, i as int),
        decreases n - i,
    {
        let parsed = decode_interaction_input(&suffix[i]);
        let ok = match parsed {
            Some(_) => call_results[i],
            None => false,
        };
        validity.insert(suffix[i].id.clone(), ok);
        i = i + 1;
    }
    if cache_enabled {
        cache.cache_states(contract_id.clone(), clone_value(&final_state), validity.clone(), total);
    }
    ExecuteResult::V8(final_state, validity)
}

/// Runs the bytecode fold from `start` over the sorted list.
fn wasm_replay(
    contract_id: &String,
    sorted: Vec<InteractionNode>,
    start: usize,
    base_validity: ValidityTable,
    state0: Vec<u8>,
    answers: Vec<WasmAnswer>,
    cache: &mut StateCache,
    cache_enabled: bool,
) -> (r: ExecuteResult)
    requires
        start <= sorted@.len(),
        answers@.len() == sorted@.len() - start,
        json_parse_bytes(state0@) is Some,
    ensures
        ({
            let stf = wasm_fold(
                WasmFold { validity: base_validity@, state: state0@ },
                sorted@.skip(start as int),
                answers@,
                sorted@.len() - start,
            );
            r@ == ResultModel::V8M(spec_value_of(stf.state), stf.validity) && json_parse_bytes(
                stf.state,
            ) is Some && final(cache)@ == if cache_enabled {
                old(cache)@.insert(
                    contract_id@,
                    CacheEntryModel {
                        state: spec_value_of(stf.state),
                        validity: stf.validity,
                        last_processed_index: sorted@.len() as int,
                    },
                )
            } else {
                old(cache)@
            }
        }),
{
    let ghost sorted_view = sorted@;
    let ghost st0 = WasmFold { validity: base_validity@, state: state0@ };
    let ghost ganswers = answers@;
    let total = sorted.len();
    let mut rest = sorted;
    let suffix = rest.split_off(start);
    proof {
        assert(suffix@ =~= sorted_view.skip(start as int));
    }
    let ghost suffix_view = suffix@;
    let n = suffix.len();
    let mut validity = base_validity;
    let mut state = state0;
    let mut pending = answers;
    let mut i: usize = 0;
    proof {
        assert(ganswers.skip(0) =~= ganswers);
    }
    while i < n
        invariant
            i <= n,
            n == suffix_view.len(),
            suffix@ == suffix_view,
            ganswers.len() == n,
            pending@ == ganswers.skip(i as int),
            (WasmFold { validity: validity@, state: state@ }) == wasm_fold(
                st0,
                suffix_view,
                ganswers,
                i as int,
            ),
            json_parse_bytes(state@) is Some,
        decreases n - i,
    {
        let parsed = decode_interaction_input(&suffix[i]);
        let ans = pending.remove(0);
        proof {
            assert(ganswers.skip(i as int)[0] == ganswers[i as int]);
            assert(ganswers.skip(i as int).remove(0) =~= ganswers.skip(i + 1));
        }
        let mut ok = false;
        if parsed.is_some() {
            match ans {
                WasmAnswer::NewState(b) => {
                    let pb = parse_json_bytes(b.as_slice());
                    if pb.is_some() {
                        state = b;
                        ok = true;
                    }
                },
                WasmAnswer::Failed => {},
            }
        }
        validity.insert(suffix[i].id.clone(), ok);
        i = i + 1;
    }
    let final_value = match parse_json_bytes(state.as_slice()) {
        Some(v) => v,
        None => vstd::pervasive::unreached(),
    };
    if cache_enabled {
        cache.cache_states(contract_id.clone(), clone_value(&final_value), validity.clone(), total);
    }
    ExecuteResult::V8(final_value, validity)
}

/// Replays a contract: sorts the fetched interactions canonically, consults
/// the cache, folds the VM's answers into a final state and a validity
/// table, and commits the completed replay back to the cache.
///
/// The ledger client's part (the fetched contract, interaction list and
/// new-interaction offset) and the embedded VM's part (the trace) are the
/// caller's; everything the engine decides is pinned by [`spec_execute`]
/// and [`spec_cache_after`], whatever those collaborators answered.
pub fn execute_contract(
    contract_id: &String,
    loaded: &LoadedContract,
    interactions: Vec<InteractionNode>,
    new_interaction_index: usize,
    are_there_new_interactions: bool,
    trace: VmTrace,
    cache: &mut StateCache,
    cache_enabled: bool,
) -> (r: Result<ExecuteResult, EngineError>)
    requires
        new_interaction_index <= interactions@.len(),
        ({
            let cnt = spec_applied_count(
                loaded.contract_type,
                interactions@,
                new_interaction_index as int,
                are_there_new_interactions,
                contract_id@,
                old(cache)@,
                cache_enabled,
            );
            match trace {
                VmTrace::Js { call_results, final_state } => loaded.contract_type
                    == ContractType::Javascript && call_results@.len() == cnt,
                VmTrace::Wasm { answers } => loaded.contract_type == ContractType::Wasm
                    && answers@.len() == cnt,
                VmTrace::Evm => loaded.contract_type == ContractType::Evm,
            }
        }),
    ensures
        result_model(r) == spec_execute(
            loaded.contract_type,
            loaded.init_state@,
            interactions@,
            new_interaction_index as int,
            are_there_new_interactions,
            contract_id@,
            old(cache)@,
            cache_enabled,
            trace,
        ),
        final(cache)@ == spec_cache_after(
            loaded.contract_type,
            loaded.init_state@,
            interactions@,
            new_interaction_index as int,
            are_there_new_interactions,
            contract_id@,
            old(cache)@,
            cache_enabled,
            trace,
        ),
{
    let ghost gnodes = interactions@;
    let ghost cache0 = cache@;
    let ghost hit = spec_cache_hit(cache0, contract_id@, cache_enabled, loaded.contract_type);
    let sorted = sort_interactions(interactions);
    let mut hit_entry: Option<CacheEntry> = None;
    let mut cached_bytes: Option<Vec<u8>> = None;
    if cache_enabled {
        match cache.find_state(contract_id) {
            Some(entry) => {
                if loaded.contract_type == ContractType::Wasm {
                    match value_to_bytes(&entry.state) {
                        Some(b) => {
                            // the encoding must parse back, or the entry
                            // cannot seed a resumption: run cold instead
                            let parsed_back = parse_json_bytes(b.as_slice());
                            if parsed_back.is_some() {
                                cached_bytes = Some(b);
                                hit_entry = Some(entry);
                            }
                        },
                        None => {},
                    }
                } else {
                    hit_entry = Some(entry);
                }
            },
            None => {},
        }
    }
    proof {
        if hit_entry is Some {
            assert(hit == Some(hit_entry->0@));
        } else {
            assert(hit is None);
        }
    }
    match loaded.contract_type {
        ContractType::Evm => {
            let validity = match hit_entry {
                Some(e) => e.validity,
                None => ValidityTable::new(),
            };
            let empty_state: Vec<u8> = Vec::new();
            proof {
                assert(empty_state@ =~= Seq::<u8>::empty());
            }
            Ok(ExecuteResult::Evm(empty_state, validity))
        },
        ContractType::Javascript => match trace {
            VmTrace::Js { call_results, final_state } => match hit_entry {
                Some(e) => {
                    if !are_there_new_interactions {
                        return Ok(ExecuteResult::V8(e.state, e.validity));
                    }
                    Ok(
                        js_replay(
                            contract_id,
                            sorted,
                            new_interaction_index,
                            e.validity,
                            call_results,
                            final_state,
                            cache,
                            cache_enabled,
                        ),
                    )
                },
                None => {
                    let init_parsed = parse_json_bytes(loaded.init_state.as_str().as_bytes());
                    if init_parsed.is_none() {
                        return Err(EngineError::InitStateMalformed);
                    }
                    Ok(
                        js_replay(
                            contract_id,
                            sorted,
                            0,
                            ValidityTable::new(),
                            call_results,
                            final_state,
                            cache,
                            cache_enabled,
                        ),
                    )
                },
            },
            _ => vstd::pervasive::unreached(),
        },
        ContractType::Wasm => match trace {
            VmTrace::Wasm { answers } => match hit_entry {
                Some(e) => {
                    if !are_there_new_interactions {
                        return Ok(ExecuteResult::V8(e.state, e.validity));
                    }
                    let state0 = match cached_bytes {
                        Some(b) => b,
                        None => vstd::pervasive::unreached(),
                    };
                    Ok(
                        wasm_replay(
                            contract_id,
                            sorted,
                            new_interaction_index,
                            e.validity,
                            state0,
                            answers,
                            cache,
                            cache_enabled,
                        ),
                    )
                },
                None => {
                    let init_bytes = loaded.init_state.as_str().as_bytes_vec();
                    let init_parsed = parse_json_bytes(init_bytes.as_slice());
                    if init_parsed.is_none() {
                        return Err(EngineError::InitStateMalformed);
                    }
                    Ok(
                        wasm_replay(
                            contract_id,
                            sorted,
                            0,
                            ValidityTable::new(),
                            init_bytes,
                            answers,
                            cache,
                            cache_enabled,
                        ),
                    )
                },
            },
            _ => vstd::pervasive::unreached(),
        },
    }
}

} // verus!

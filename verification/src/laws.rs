//! The replay engine's laws, proved from the contracts of this crate:
//! determinism, cache behaviour, ordering insensitivity, monotone validity
//! and failure isolation.

use vstd::prelude::*;
use vstd::utf8::encode_utf8;
use crate::cache::CacheEntryModel;
use crate::engine::{
    js_fold, result_model, spec_cache_after, spec_cache_hit, spec_execute, spec_input_value,
    spec_needs_processing, spec_resumable, wasm_fold, wasm_step, ExecuteResult, ResultModel,
    VmTrace, WasmAnswer, WasmFold,
};
use crate::interaction::InteractionNode;
use crate::json::json_parse_bytes;
use crate::loader::{ContractType, EngineError};
use crate::order::{distinct_keys, lemma_sort_shuffle_insensitive, sort_spec};

verus! {

/// Determinism: two replays that saw the same ledger answers, the same
/// cache and the same VM trace returned the same result.  The replay is a
/// pure function of those collaborators' answers.
pub proof fn lemma_replay_deterministic(
    r1: Result<ExecuteResult, EngineError>,
    r2: Result<ExecuteResult, EngineError>,
    ctype: ContractType,
    init_state: Seq<char>,
    nodes: Seq<InteractionNode>,
    new_index: int,
    are_there_new: bool,
    contract_id: Seq<char>,
    cache0: Map<Seq<char>, CacheEntryModel>,
    cache_enabled: bool,
    trace: VmTrace,
)
    requires
        result_model(r1) == spec_execute(
            ctype,
            init_state,
            nodes,
            new_index,
            are_there_new,
            contract_id,
            cache0,
            cache_enabled,
            trace,
        ),
        result_model(r2) == spec_execute(
            ctype,
            init_state,
            nodes,
            new_index,
            are_there_new,
            contract_id,
            cache0,
            cache_enabled,
            trace,
        ),
    ensures
        result_model(r1) == result_model(r2),
{
}

/// No-cache purity: with the cache disabled, the replay never reads the
/// cache — its result is the same whatever the cache holds — and it leaves
/// the cache untouched.
pub proof fn lemma_no_cache_purity(
    ctype: ContractType,
    init_state: Seq<char>,
    nodes: Seq<InteractionNode>,
    new_index: int,
    are_there_new: bool,
    contract_id: Seq<char>,
    cache1: Map<Seq<char>, CacheEntryModel>,
    cache2: Map<Seq<char>, CacheEntryModel>,
    trace: VmTrace,
)
    ensures
        spec_execute(
            ctype,
            init_state,
            nodes,
            new_index,
            are_there_new,
            contract_id,
            cache1,
            false,
            trace,
        ) == spec_execute(
            ctype,
            init_state,
            nodes,
            new_index,
            are_there_new,
            contract_id,
            cache2,
            false,
            trace,
        ),
        spec_cache_after(
            ctype,
            init_state,
            nodes,
            new_index,
            are_there_new,
            contract_id,
            cache1,
            false,
            trace,
        ) == cache1,
{
}

/// Cache equivalence, first half: on a cold cache, enabling the cache
/// changes nothing about the result.
pub proof fn lemma_cold_cache_transparent(
    ctype: ContractType,
    init_state: Seq<char>,
    nodes: Seq<InteractionNode>,
    new_index: int,
    are_there_new: bool,
    contract_id: Seq<char>,
    cache0: Map<Seq<char>, CacheEntryModel>,
    trace: VmTrace,
)
    requires
        !cache0.contains_key(contract_id),
    ensures
        spec_execute(
            ctype,
            init_state,
            nodes,
            new_index,
            are_there_new,
            contract_id,
            cache0,
            true,
            trace,
        ) == spec_execute(
            ctype,
            init_state,
            nodes,
            new_index,
            are_there_new,
            contract_id,
            cache0,
            false,
            trace,
        ),
{
}

/// Cache equivalence, second half: a replay resumed from the entry a cold
/// cached replay wrote, when the ledger reports no new interactions,
/// returns exactly the cold result — whatever contract body, interaction
/// list and trace the second fetch produced — and writes nothing back.
/// A bytecode entry is resumed from only when its state re-encodes and the
/// encoding parses back.
pub proof fn lemma_cached_resumption(
    ctype: ContractType,
    init_state: Seq<char>,
    nodes: Seq<InteractionNode>,
    new_index: int,
    are_there_new: bool,
    contract_id: Seq<char>,
    cache0: Map<Seq<char>, CacheEntryModel>,
    trace: VmTrace,
    init_state2: Seq<char>,
    nodes2: Seq<InteractionNode>,
    new_index2: int,
    trace2: VmTrace,
    state: serde_json::Value,
    validity: Map<Seq<char>, bool>,
)
    requires
        spec_execute(
            ctype,
            init_state,
            nodes,
            new_index,
            are_there_new,
            contract_id,
            cache0,
            true,
            trace,
        ) == Ok::<ResultModel, EngineError>(ResultModel::V8M(state, validity)),
        spec_needs_processing(
            spec_cache_hit(cache0, contract_id, true, ctype),
            are_there_new,
        ),
        ctype == ContractType::Wasm ==> spec_resumable(state),
    ensures
        ({
            let cache1 = spec_cache_after(
                ctype,
                init_state,
                nodes,
                new_index,
                are_there_new,
                contract_id,
                cache0,
                true,
                trace,
            );
            spec_execute(
                ctype,
                init_state2,
                nodes2,
                new_index2,
                false,
                contract_id,
                cache1,
                true,
                trace2,
            ) == Ok::<ResultModel, EngineError>(ResultModel::V8M(state, validity))
                && spec_cache_after(
                ctype,
                init_state2,
                nodes2,
                new_index2,
                false,
                contract_id,
                cache1,
                true,
                trace2,
            ) == cache1
        }),
{
    let cache1 = spec_cache_after(
        ctype,
        init_state,
        nodes,
        new_index,
        are_there_new,
        contract_id,
        cache0,
        true,
        trace,
    );
    let written = CacheEntryModel {
        state: state,
        validity: validity,
        last_processed_index: nodes.len() as int,
    };
    assert(cache1 == cache0.insert(contract_id, written));
    assert(cache1.contains_key(contract_id));
    assert(cache1[contract_id] == written);
    assert(spec_cache_hit(cache1, contract_id, true, ctype) == Some(written));
}

/// Ordering insensitivity: shuffling the fetched interaction list before
/// the replay changes neither its result nor the cache it leaves behind,
/// provided no two interactions share a sort key.
pub proof fn lemma_replay_shuffle_insensitive(
    ctype: ContractType,
    init_state: Seq<char>,
    nodes1: Seq<InteractionNode>,
    nodes2: Seq<InteractionNode>,
    new_index: int,
    are_there_new: bool,
    contract_id: Seq<char>,
    cache0: Map<Seq<char>, CacheEntryModel>,
    cache_enabled: bool,
    trace: VmTrace,
)
    requires
        nodes1.to_multiset() == nodes2.to_multiset(),
        distinct_keys(nodes1),
    ensures
        spec_execute(
            ctype,
            init_state,
            nodes1,
            new_index,
            are_there_new,
            contract_id,
            cache0,
            cache_enabled,
            trace,
        ) == spec_execute(
            ctype,
            init_state,
            nodes2,
            new_index,
            are_there_new,
            contract_id,
            cache0,
            cache_enabled,
            trace,
        ),
        spec_cache_after(
            ctype,
            init_state,
            nodes1,
            new_index,
            are_there_new,
            contract_id,
            cache0,
            cache_enabled,
            trace,
        ) == spec_cache_after(
            ctype,
            init_state,
            nodes2,
            new_index,
            are_there_new,
            contract_id,
            cache0,
            cache_enabled,
            trace,
        ),
{
    broadcast use vstd::seq_lib::group_to_multiset_ensures;

    lemma_sort_shuffle_insensitive(nodes1, nodes2);
    assert(nodes1.len() == nodes2.len()) by {
        assert(nodes1.to_multiset().len() == nodes1.len());
        assert(nodes2.to_multiset().len() == nodes2.len());
    }
}

/// Which ids a fold can have touched: only those of the interactions it
/// applied.
proof fn lemma_js_fold_dom(
    v: Map<Seq<char>, bool>,
    nodes: Seq<InteractionNode>,
    oks: Seq<bool>,
    k: int,
    key: Seq<char>,
)
    requires
        js_fold(v, nodes, oks, k).contains_key(key),
    ensures
        v.contains_key(key) || exists|i: int| 0 <= i < k && nodes[i].id@ == key,
    decreases k,
{
    if k > 0 {
        if nodes[k - 1].id@ == key {
        } else {
            lemma_js_fold_dom(v, nodes, oks, k - 1, key);
        }
    }
}

/// Monotone validity for the scripted runtime: folding further
/// interactions only adds entries — no recorded verdict disappears or
/// flips — provided the applied interactions carry fresh, pairwise
/// distinct transaction ids.  With a duplicated id a later application
/// would overwrite the earlier verdict.
pub proof fn lemma_js_fold_monotone(
    v: Map<Seq<char>, bool>,
    nodes: Seq<InteractionNode>,
    oks: Seq<bool>,
    k1: int,
    k2: int,
)
    requires
        0 <= k1 <= k2 <= nodes.len(),
        forall|i: int, j: int| 0 <= i < j < nodes.len() ==> nodes[i].id@ != nodes[j].id@,
        forall|i: int| 0 <= i < nodes.len() ==> !v.contains_key(#[trigger] nodes[i].id@),
    ensures
        js_fold(v, nodes, oks, k1).submap_of(js_fold(v, nodes, oks, k2)),
    decreases k2 - k1,
{
    if k1 < k2 {
        lemma_js_fold_monotone(v, nodes, oks, k1, k2 - 1);
        let prev = js_fold(v, nodes, oks, k2 - 1);
        let fst = js_fold(v, nodes, oks, k1);
        assert forall|key: Seq<char>| fst.contains_key(key) implies prev.insert(
            nodes[k2 - 1].id@,
            spec_input_value(nodes[k2 - 1]) is Some && oks[k2 - 1],
        ).contains_key(key) && prev.insert(
            nodes[k2 - 1].id@,
            spec_input_value(nodes[k2 - 1]) is Some && oks[k2 - 1],
        )[key] == fst[key] by {
            lemma_js_fold_dom(v, nodes, oks, k1, key);
            if v.contains_key(key) {
                assert(!v.contains_key(nodes[k2 - 1].id@));
            } else {
                let i = choose|i: int| 0 <= i < k1 && nodes[i].id@ == key;
                assert(nodes[i].id@ != nodes[k2 - 1].id@);
            }
            assert(key != nodes[k2 - 1].id@);
            assert(fst.submap_of(prev));
            assert(prev.contains_key(key));
            assert(prev[key] == fst[key]);
        }
    }
}

proof fn lemma_wasm_fold_dom(
    st: WasmFold,
    nodes: Seq<InteractionNode>,
    answers: Seq<WasmAnswer>,
    k: int,
    key: Seq<char>,
)
    requires
        wasm_fold(st, nodes, answers, k).validity.contains_key(key),
    ensures
        st.validity.contains_key(key) || exists|i: int| 0 <= i < k && nodes[i].id@ == key,
    decreases k,
{
    if k > 0 {
        if nodes[k - 1].id@ == key {
        } else {
            lemma_wasm_fold_dom(st, nodes, answers, k - 1, key);
        }
    }
}

/// Monotone validity for the bytecode runtime, under the same freshness
/// hypotheses.
pub proof fn lemma_wasm_fold_monotone(
    st: WasmFold,
    nodes: Seq<InteractionNode>,
    answers: Seq<WasmAnswer>,
    k1: int,
    k2: int,
)
    requires
        0 <= k1 <= k2 <= nodes.len(),
        forall|i: int, j: int| 0 <= i < j < nodes.len() ==> nodes[i].id@ != nodes[j].id@,
        forall|i: int| 0 <= i < nodes.len() ==> !st.validity.contains_key(#[trigger] nodes[i].id@),
    ensures
        wasm_fold(st, nodes, answers, k1).validity.submap_of(
            wasm_fold(st, nodes, answers, k2).validity,
        ),
    decreases k2 - k1,
{
    if k1 < k2 {
        lemma_wasm_fold_monotone(st, nodes, answers, k1, k2 - 1);
        let prev = wasm_fold(st, nodes, answers, k2 - 1);
        let nxt = wasm_step(prev, nodes[k2 - 1], answers[k2 - 1]);
        let fst = wasm_fold(st, nodes, answers, k1);
        assert forall|key: Seq<char>| fst.validity.contains_key(key) implies nxt
            .validity
            .contains_key(key) && nxt.validity[key] == fst.validity[key] by {
            lemma_wasm_fold_dom(st, nodes, answers, k1, key);
            if st.validity.contains_key(key) {
                assert(!st.validity.contains_key(nodes[k2 - 1].id@));
            } else {
                let i = choose|i: int| 0 <= i < k1 && nodes[i].id@ == key;
                assert(nodes[i].id@ != nodes[k2 - 1].id@);
            }
            assert(key != nodes[k2 - 1].id@);
            assert(fst.validity.submap_of(prev.validity));
            assert(prev.validity.contains_key(key));
            assert(prev.validity[key] == fst.validity[key]);
        }
    }
}

/// A fold reads only the interactions it applies: two fetches agreeing on
/// the first `k` interactions and call outcomes fold identically up to `k`.
/// With monotonicity this gives monotone validity across ceiling heights:
/// a fetch at a higher ceiling extends the lower fetch's list, so no
/// verdict recorded at the lower ceiling disappears or flips.
pub proof fn lemma_js_fold_prefix_agreement(
    v: Map<Seq<char>, bool>,
    nodes1: Seq<InteractionNode>,
    nodes2: Seq<InteractionNode>,
    oks1: Seq<bool>,
    oks2: Seq<bool>,
    k: int,
)
    requires
        forall|i: int| 0 <= i < k ==> nodes1[i] == nodes2[i],
        forall|i: int| 0 <= i < k ==> oks1[i] == oks2[i],
    ensures
        js_fold(v, nodes1, oks1, k) == js_fold(v, nodes2, oks2, k),
    decreases k,
{
    if k > 0 {
        lemma_js_fold_prefix_agreement(v, nodes1, nodes2, oks1, oks2, k - 1);
    }
}

/// The bytecode counterpart of the prefix-agreement law.
pub proof fn lemma_wasm_fold_prefix_agreement(
    st: WasmFold,
    nodes1: Seq<InteractionNode>,
    nodes2: Seq<InteractionNode>,
    answers1: Seq<WasmAnswer>,
    answers2: Seq<WasmAnswer>,
    k: int,
)
    requires
        forall|i: int| 0 <= i < k ==> nodes1[i] == nodes2[i],
        forall|i: int| 0 <= i < k ==> answers1[i] == answers2[i],
    ensures
        wasm_fold(st, nodes1, answers1, k) == wasm_fold(st, nodes2, answers2, k),
    decreases k,
{
    if k > 0 {
        lemma_wasm_fold_prefix_agreement(st, nodes1, nodes2, answers1, answers2, k - 1);
    }
}

/// Whether the bytecode runtime accepted an interaction: its input must
/// decode and the handler must have returned a well-formed state buffer.
pub open spec fn wasm_answer_accepted(n: InteractionNode, ans: WasmAnswer) -> bool {
    spec_input_value(n) is Some && match ans {
        WasmAnswer::NewState(b) => json_parse_bytes(b@) is Some,
        WasmAnswer::Failed => false,
    }
}

/// Failure isolation, one step: an interaction the runtime did not accept
/// is recorded invalid and leaves the state bit-for-bit as it was.
pub proof fn lemma_wasm_failure_isolation(st: WasmFold, n: InteractionNode, ans: WasmAnswer)
    requires
        !wasm_answer_accepted(n, ans),
    ensures
        wasm_step(st, n, ans).state == st.state,
        wasm_step(st, n, ans).validity == st.validity.insert(n.id@, false),
{
}

/// Failure isolation, in a replay: when interaction `k` fails, the state
/// the next interaction observes equals the state before `k` ran.
pub proof fn lemma_wasm_fold_failure_isolation(
    st: WasmFold,
    nodes: Seq<InteractionNode>,
    answers: Seq<WasmAnswer>,
    k: int,
)
    requires
        1 <= k,
        !wasm_answer_accepted(nodes[k - 1], answers[k - 1]),
    ensures
        wasm_fold(st, nodes, answers, k).state == wasm_fold(st, nodes, answers, k - 1).state,
{
}

/// An empty replay of a bytecode contract: the final state is exactly the
/// parsed initial state and the validity table is empty.
pub proof fn lemma_empty_replay_wasm(
    init_state: Seq<char>,
    new_index: int,
    are_there_new: bool,
    contract_id: Seq<char>,
    cache0: Map<Seq<char>, CacheEntryModel>,
    trace: VmTrace,
)
    requires
        json_parse_bytes(encode_utf8(init_state)) is Some,
        !cache0.contains_key(contract_id),
        trace is Wasm,
    ensures
        spec_execute(
            ContractType::Wasm,
            init_state,
            Seq::empty(),
            new_index,
            are_there_new,
            contract_id,
            cache0,
            true,
            trace,
        ) == Ok::<ResultModel, EngineError>(
            ResultModel::V8M(
                json_parse_bytes(encode_utf8(init_state))->0,
                Map::<Seq<char>, bool>::empty(),
            ),
        ),
{
    let suffix = sort_spec(Seq::<InteractionNode>::empty()).skip(0);
    assert(suffix.len() == 0);
}

/// An empty replay of a scripted contract: the validity table is empty and
/// the state is whatever the runtime's snapshot reported — with zero
/// interactions, the initial state it was instantiated with.
pub proof fn lemma_empty_replay_js(
    init_state: Seq<char>,
    new_index: int,
    are_there_new: bool,
    contract_id: Seq<char>,
    cache0: Map<Seq<char>, CacheEntryModel>,
    call_results: Vec<bool>,
    snapshot: serde_json::Value,
)
    requires
        json_parse_bytes(encode_utf8(init_state)) is Some,
        !cache0.contains_key(contract_id),
    ensures
        spec_execute(
            ContractType::Javascript,
            init_state,
            Seq::empty(),
            new_index,
            are_there_new,
            contract_id,
            cache0,
            true,
            VmTrace::Js { call_results, final_state: snapshot },
        ) == Ok::<ResultModel, EngineError>(
            ResultModel::V8M(snapshot, Map::<Seq<char>, bool>::empty()),
        ),
{
    let suffix = sort_spec(Seq::<InteractionNode>::empty()).skip(0);
    assert(suffix.len() == 0);
}

} // verus!

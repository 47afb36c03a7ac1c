//! The contract loader's decisions: classifying a contract transaction by
//! its content type and resolving which transaction carries its source.

use vstd::prelude::*;
use crate::interaction::{InteractionTag, first_tag_value, spec_tag_value};

verus! {

/// How a contract is executed.
#[derive(Clone, Copy, PartialEq, Eq, Structural, Debug)]
pub enum ContractType {
    Javascript,
    Wasm,
    Evm,
}

/// Fatal replay errors; interaction-local failures never surface here,
/// they only show as `false` entries in the validity table.
#[derive(Clone, Copy, PartialEq, Eq, Structural, Debug)]
pub enum EngineError {
    /// The contract's content type names no supported runtime.
    UnsupportedContractType,
    /// The contract's initial state is not well-formed JSON.
    InitStateMalformed,
}

/// A contract ready to replay: its runtime, source and initial state.
pub struct LoadedContract {
    pub contract_type: ContractType,
    pub contract_src: Vec<u8>,
    pub init_state: String,
}

/// The runtime a content type names, if any.
pub open spec fn spec_classify(ct: Seq<char>) -> Option<ContractType> {
    if ct == "application/javascript"@ || ct == "application/typescript"@ {
        Some(ContractType::Javascript)
    } else if ct == "application/wasm"@ {
        Some(ContractType::Wasm)
    } else if ct == "application/octet-stream"@ {
        Some(ContractType::Evm)
    } else {
        None
    }
}

/// The content type the loader goes by: an explicit override wins, else the
/// contract transaction's `Content-Type` tag.
pub open spec fn spec_content_type(tags: Seq<InteractionTag>, override_ct: Option<Seq<char>>) -> Option<
    Seq<char>,
> {
    match override_ct {
        Some(c) => Some(c),
        None => spec_tag_value(tags, "Content-Type"@),
    }
}

/// What the loader decides: the runtime, or `UnsupportedContractType` when
/// the effective content type is missing or names none.
pub open spec fn spec_contract_type(tags: Seq<InteractionTag>, override_ct: Option<Seq<char>>) -> Result<
    ContractType,
    EngineError,
> {
    match spec_content_type(tags, override_ct) {
        Some(ct) => match spec_classify(ct) {
            Some(t) => Ok(t),
            None => Err(EngineError::UnsupportedContractType),
        },
        None => Err(EngineError::UnsupportedContractType),
    }
}

/// Classifies a content type string.
pub fn classify_content_type(ct: &String) -> (r: Option<ContractType>)
    ensures
        r == spec_classify(ct@),
{
    let js = "application/javascript".to_owned();
    let ts = "application/typescript".to_owned();
    let wasm = "application/wasm".to_owned();
    let evm = "application/octet-stream".to_owned();
    if *ct == js || *ct == ts {
        Some(ContractType::Javascript)
    } else if *ct == wasm {
        Some(ContractType::Wasm)
    } else if *ct == evm {
        Some(ContractType::Evm)
    } else {
        None
    }
}

/// Determines the runtime of a contract transaction from its tags, or from
/// an explicit content type override.
pub fn determine_contract_type(
    tags: &Vec<InteractionTag>,
    content_type_override: &Option<String>,
) -> (r: Result<ContractType, EngineError>)
    ensures
        r == spec_contract_type(tags@, content_type_override.deep_view()),
{
    let ct: Option<String> = match content_type_override {
        Some(c) => Some(c.clone()),
        None => {
            let needle = "Content-Type".to_owned();
            first_tag_value(tags, &needle)
        },
    };
    match ct {
        Some(c) => match classify_content_type(&c) {
            Some(t) => Ok(t),
            None => Err(EngineError::UnsupportedContractType),
        },
        None => Err(EngineError::UnsupportedContractType),
    }
}

/// Which transaction carries the contract's source: the target of a
/// `Contract-Src` tag when present, else the contract transaction itself.
pub fn source_tx_id(contract_id: &String, tags: &Vec<InteractionTag>) -> (r: String)
    ensures
        r@ == match spec_tag_value(tags@, "Contract-Src"@) {
            Some(v) => v,
            None => contract_id@,
        },
{
    let needle = "Contract-Src".to_owned();
    match first_tag_value(tags, &needle) {
        Some(v) => v,
        None => contract_id.clone(),
    }
}

} // verus!

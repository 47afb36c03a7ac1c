//! Interactions: ledger transactions addressed to a contract, and the
//! tag conventions the engine reads off them.

use vstd::prelude::*;

verus! {

/// One name/value tag attached to a ledger transaction.
#[derive(Clone)]
pub struct InteractionTag {
    pub name: String,
    pub value: String,
}

/// Block metadata of an interaction, as the ledger reports it.
#[derive(Clone)]
pub struct InteractionBlock {
    pub height: u64,
    pub id: String,
    pub timestamp: String,
}

/// An interaction transaction addressed to a contract.
#[derive(Clone)]
pub struct InteractionNode {
    pub id: String,
    pub owner_address: String,
    pub tags: Vec<InteractionTag>,
    pub block: InteractionBlock,
}

/// The value of the first tag named `name`, if any.  Tag names are matched
/// case-sensitively and only the first occurrence counts.
pub open spec fn spec_tag_value(tags: Seq<InteractionTag>, name: Seq<char>) -> Option<Seq<char>>
    decreases tags.len(),
{
    if tags.len() == 0 {
        None
    } else if tags[0].name@ == name {
        Some(tags[0].value@)
    } else {
        spec_tag_value(tags.drop_first(), name)
    }
}

/// The input carried by an interaction: the first `Input` tag's value,
/// or the empty string when the tag is absent.
pub open spec fn spec_input(tags: Seq<InteractionTag>) -> Seq<char> {
    match spec_tag_value(tags, "Input"@) {
        Some(v) => v,
        None => Seq::empty(),
    }
}

/// How many tags carry the given name.
pub open spec fn spec_count_tag(tags: Seq<InteractionTag>, name: Seq<char>) -> nat
    decreases tags.len(),
{
    if tags.len() == 0 {
        0
    } else {
        spec_count_tag(tags.drop_last(), name) + if tags.last().name@ == name {
            1nat
        } else {
            0nat
        }
    }
}

/// Returns a copy of the value of the first tag named `name`, if any.
pub fn first_tag_value(tags: &Vec<InteractionTag>, name: &String) -> (r: Option<String>)
    ensures
        match r {
            Some(v) => spec_tag_value(tags@, name@) == Some(v@),
            None => spec_tag_value(tags@, name@) is None,
        },
{
    let n = tags.len();
    let mut i: usize = 0;
    proof {
        assert(tags@.skip(0) =~= tags@);
    }
    while i < n
        invariant
            n == tags@.len(),
            i <= n,
            spec_tag_value(tags@, name@) == spec_tag_value(tags@.skip(i as int), name@),
        decreases n - i,
    {
        if tags[i].name == *name {
            proof {
                assert(tags@.skip(i as int)[0] == tags@[i as int]);
            }
            return Some(tags[i].value.clone());
        }
        proof {
            assert(tags@.skip(i as int).drop_first() =~= tags@.skip(i + 1));
        }
        i = i + 1;
    }
    proof {
        assert(tags@.skip(n as int) =~= Seq::<InteractionTag>::empty());
    }
    None
}

/// The action payload of an interaction: the first `Input` tag's value,
/// treated as the empty string when the tag is missing.
pub fn get_input_from_interaction(interaction_tx: &InteractionNode) -> (r: String)
    ensures
        r@ == spec_input(interaction_tx.tags@),
{
    let needle = "Input".to_owned();
    match first_tag_value(&interaction_tx.tags, &needle) {
        Some(v) => v,
        None => String::new(),
    }
}

/// Whether the transaction addresses more than one contract: it is a
/// multi-contract interaction iff the `Contract` tag occurs more than once.
pub fn has_multiple_interactions(interaction_tx: &InteractionNode) -> (r: bool)
    ensures
        r == (spec_count_tag(interaction_tx.tags@, "Contract"@) > 1),
{
    let needle = "Contract".to_owned();
    let tags = &interaction_tx.tags;
    let n = tags.len();
    let mut count: usize = 0;
    let mut i: usize = 0;
    while i < n
        invariant
            n == tags@.len(),
            i <= n,
            count <= i,
            count == spec_count_tag(tags@.take(i as int), needle@),
            needle@ == "Contract"@,
        decreases n - i,
    {
        proof {
            assert(tags@.take(i + 1).drop_last() =~= tags@.take(i as int));
            assert(tags@.take(i + 1).last() == tags@[i as int]);
        }
        if tags[i].name == needle {
            count = count + 1;
        }
        i = i + 1;
    }
    proof {
        assert(tags@.take(n as int) =~= tags@);
    }
    count > 1
}

} // verus!

//! The text in which the actions of a tick leave the engine.
//!
//! The actions are written as one object with a field per worker that has an
//! action. The field's name is the worker's id. Its value is
//! `{"Pass":{"pearl_id":P,"to_worker":W}}` or `{"Nom":P}`. A tick without
//! actions is written as `{}`.

use vstd::prelude::*;
use crate::models::action::ActionType;
use crate::text::decimal;

verus! {

/// The field for one worker: its id in quotes, a colon, and its action.
pub open spec fn action_text(worker_id: u32, action: ActionType) -> Seq<char> {
    match action {
        ActionType::Pass(pass) => "\""@ + decimal(worker_id as nat)
            + "\":{\"Pass\":{\"pearl_id\":"@ + decimal(pass.pearl_id as nat)
            + ",\"to_worker\":"@ + decimal(pass.to_id as nat) + "}}"@,
        ActionType::Nom(nom) => "\""@ + decimal(worker_id as nat) + "\":{\"Nom\":"@ + decimal(
            nom.pearl_id as nat,
        ) + "}"@,
    }
}

/// The fields of the workers in `order`, with commas between them.
pub open spec fn fields_text(actions: Map<u32, ActionType>, order: Seq<u32>) -> Seq<char>
    decreases order.len(),
{
    if order.len() == 0 {
        Seq::empty()
    } else if order.len() == 1 {
        action_text(order[0], actions[order[0]])
    } else {
        fields_text(actions, order.drop_last()) + ","@ + action_text(
            order.last(),
            actions[order.last()],
        )
    }
}

/// The whole object, with the fields in the given order.
pub open spec fn actions_text(actions: Map<u32, ActionType>, order: Seq<u32>) -> Seq<char> {
    "{"@ + fields_text(actions, order) + "}"@
}

/// Every worker in `order` has an action.
pub open spec fn all_have_actions(actions: Map<u32, ActionType>, order: Seq<u32>) -> bool {
    forall|k: int| 0 <= k < order.len() ==> actions.contains_key(#[trigger] order[k])
}

/// `order` names every worker that has an action, each once.
pub open spec fn lists_all_keys(actions: Map<u32, ActionType>, order: Seq<u32>) -> bool {
    order.no_duplicates() && order.to_set() == actions.dom()
}

/// Without actions the text is `{}`, whatever the order.
pub proof fn lemma_no_actions_text(actions: Map<u32, ActionType>, order: Seq<u32>)
    requires
        actions.dom().finite(),
        actions.len() == 0,
        lists_all_keys(actions, order),
    ensures
        order.len() == 0,
        actions_text(actions, order) == "{}"@,
{
    order.unique_seq_to_set();
    reveal_strlit("{");
    reveal_strlit("}");
    reveal_strlit("{}");
    assert(actions_text(actions, order) =~= "{}"@);
}

/// With a single action there is one order and one text.
pub proof fn lemma_single_action_text(actions: Map<u32, ActionType>, order: Seq<u32>, id: u32)
    requires
        actions.dom() == set![id],
        lists_all_keys(actions, order),
    ensures
        order == seq![id],
        actions_text(actions, order) == "{"@ + action_text(id, actions[id]) + "}"@,
{
    order.unique_seq_to_set();
    assert(set![id].len() == 1) by {
        assert(set![id] =~= Set::<u32>::empty().insert(id));
    }
    assert(order.to_set().contains(order[0]));
    assert(order =~= seq![id]);
}

} // verus!

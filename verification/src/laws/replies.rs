//! Laws of the decisions of the model: which orders a reply stands for, and how a round is
//! logged.

use vstd::prelude::*;

use crate::decision;
use crate::decision::{ActionView, ModelReply};
use crate::intent::{IntentView, OrderSide};
use crate::ledger::LedgerView;
use crate::text;

verus! {

/// Whether an action asks for shares: it says to buy or to sell, and how many, one at least.
pub open spec fn asks_for_shares(a: ActionView) -> bool {
    &&& a.action == seq!['b', 'u', 'y'] || a.action == seq!['s', 'e', 'l', 'l']
    &&& a.quantity is Some
    &&& a.quantity->0 > 0
}

/// An action that asks for shares stands for an order of its stock, its side and its number;
/// any other stands for none.
pub proof fn orders_say_what_the_action_says(a: ActionView)
    ensures
        decision::order_of(a) is Some <==> asks_for_shares(a),
        decision::order_of(a) matches Some(order) ==> {
            &&& order.thscode == a.symbol
            &&& order.quantity == a.quantity->0
            &&& order.side == OrderSide::Buy <==> a.action == seq!['b', 'u', 'y']
            &&& order.side == OrderSide::Sell <==> a.action == seq!['s', 'e', 'l', 'l']
            &&& order.decision_id is None
        },
{
    reveal_strlit("buy");
    reveal_strlit("sell");
    assert("buy"@ =~= seq!['b', 'u', 'y']);
    assert("sell"@ =~= seq!['s', 'e', 'l', 'l']);
    assert(seq!['b', 'u', 'y'].len() != seq!['s', 'e', 'l', 'l'].len());
}

/// The orders of a reply come in the order of its actions: a further action adds its order at
/// the end, or nothing.
pub proof fn orders_come_in_the_order_of_the_actions(actions: Seq<ActionView>, a: ActionView)
    ensures
        decision::orders_of(Seq::empty()).len() == 0,
        asks_for_shares(a) ==> {
            let after = decision::orders_of(actions.push(a));
            &&& after.len() == decision::orders_of(actions).len() + 1
            &&& after.drop_last() == decision::orders_of(actions)
            &&& after.last().thscode == a.symbol
            &&& after.last().quantity == a.quantity->0
        },
        !asks_for_shares(a) ==> decision::orders_of(actions.push(a)) == decision::orders_of(actions),
{
    assert(actions.push(a).drop_last() =~= actions);
    orders_say_what_the_action_says(a);
    if asks_for_shares(a) {
        assert(decision::orders_of(actions.push(a)).drop_last() =~= decision::orders_of(actions));
    }
}

/// A reply that was read ends as executed where it asks for shares and as a hold where it does
/// not; a reply that failed or cannot be read ends as an error, and orders nothing. Each is
/// logged once, under the next number, with the reply as it came.
pub proof fn rounds_are_logged_once(
    books: LedgerView,
    model: Seq<char>,
    ctx: Seq<char>,
    reply: ModelReply,
    now_ms: i64,
)
    requires
        books.last_decision_id < i64::MAX,
    ensures
        ({
            let (after, result) = decision::concluded(books, model, ctx, reply, now_ms);
            let entry = after.decisions.last();
            &&& after.decisions.len() == books.decisions.len() + 1
            &&& after.decisions.drop_last() == books.decisions
            &&& after.last_decision_id == books.last_decision_id + 1
            &&& after.trades == books.trades
            &&& after.positions == books.positions
            &&& after.account == books.account
            &&& entry.id == books.last_decision_id + 1
            &&& entry.ts_ms == now_ms
            &&& entry.model == model
            &&& entry.context == ctx
            &&& entry.status == result.status
            &&& entry.raw_response == result.raw_response
            &&& result.log_id == entry.id
            &&& match reply {
                ModelReply::Failed(_) => result.status == "error"@ && result.intents.len() == 0
                    && result.raw_response.len() == 0,
                ModelReply::Unreadable(raw, _) => result.status == "error"@ && result.intents.len()
                    == 0 && result.raw_response == raw@,
                ModelReply::Read(raw, output) => {
                    let orders = decision::orders_of(decision::action_views(output.actions@));
                    &&& result.raw_response == raw@
                    &&& result.intents.len() == orders.len()
                    &&& orders.len() > 0 ==> result.status == "executed"@
                    &&& orders.len() == 0 ==> result.status == "hold"@
                    &&& entry.actions == output.actions_json@
                    &&& entry.note == output.comment@
                },
            }
        }),
{
    reveal_strlit("");
    let (after, result) = decision::concluded(books, model, ctx, reply, now_ms);
    assert(after.decisions.drop_last() =~= books.decisions);
}

/// The orders of a round are those of the reply, each with the number of the decision.
pub proof fn orders_carry_their_decision(orders: Seq<IntentView>, id: i64, i: int)
    requires
        0 <= i < orders.len(),
    ensures
        decision::tagged(orders, id).len() == orders.len(),
        decision::tagged(orders, id)[i].decision_id == Some(id),
        decision::tagged(orders, id)[i].thscode == orders[i].thscode,
        decision::tagged(orders, id)[i].side == orders[i].side,
        decision::tagged(orders, id)[i].quantity == orders[i].quantity,
{
}

/// A text between back quotes is the text itself, with or without a tag, whatever white space
/// stands around it.
pub proof fn fences_are_taken_off(body: Seq<char>)
    requires
        text::trimmed(body) == body,
        body.len() > 0,
        body[0] != '`',
        body[0] != 'j',
        !text::is_white(body[0]),
    ensures
        decision::unfenced(seq!['`', '`', '`'] + body + seq!['`', '`', '`']) == body,
        decision::unfenced(body) == body,
        decision::json_part(body) == body,
{
    reveal_strlit("```");
    reveal_strlit("json");
    let fence = seq!['`', '`', '`'];
    assert("```"@ =~= fence);
    let whole = fence + body + fence;
    assert(fence =~= whole.subrange(0, 3));
    let inner = whole.skip(3);
    assert(inner =~= body + fence);
    assert(fence =~= inner.subrange(inner.len() - 3, inner.len() as int));
    assert(inner.take(inner.len() - 3) =~= body);
    assert(!fence.is_prefix_of(body)) by {
        if fence.is_prefix_of(body) {
            assert(body.subrange(0, 3)[0] == body[0]);
            assert(fence[0] == '`');
        }
    }
    assert(!"json"@.is_prefix_of(body)) by {
        if "json"@.is_prefix_of(body) {
            assert(body.subrange(0, 4)[0] == body[0]);
            assert("json"@[0] == 'j');
        }
    }
}

/// A tag for the kind of text before the text of a reply, and a fence around both, are taken
/// off.
pub proof fn tags_are_taken_off(body: Seq<char>)
    requires
        text::trimmed(body) == body,
        body.len() > 0,
        !text::is_white(body[0]),
        !text::is_white(body.last()),
    ensures
        decision::json_part(seq!['j', 's', 'o', 'n'] + body) == body,
{
    reveal_strlit("```");
    reveal_strlit("json");
    let tag = seq!['j', 's', 'o', 'n'];
    assert("json"@ =~= tag);
    let whole = tag + body;
    assert(text::trimmed_start(whole) == whole);
    assert(whole.last() == body.last());
    assert(text::trimmed_end(whole) == whole);
    assert(!"```"@.is_prefix_of(whole)) by {
        if "```"@.is_prefix_of(whole) {
            assert(whole.subrange(0, 3)[0] == 'j');
            assert("```"@[0] == '`');
        }
    }
    assert(tag =~= whole.subrange(0, 4));
    assert(whole.skip(4) =~= body);
}

} // verus!

//! What holds of every session of a concatenating future.
//!
//! A session is the life of one future, told by two sequences of one length:
//! the answers that the stream gave, and for each of them what the future
//! told its driver. It starts with a fresh future, and the future is never
//! polled after it has completed.

use crate::concat::{Advance, ConcatView, Pulled};
use crate::container::{
    absorbed_in_order, is_concat_of, lemma_concat_elems_absorbs_in_order, Container,
};
use vstd::prelude::*;

verus! {

/// The items among the answers of `script`, in the order of their arrival.
pub open spec fn items_of<C>(script: Seq<Pulled<C>>) -> Seq<C>
    decreases script.len(),
{
    if script.len() == 0 {
        Seq::empty()
    } else {
        match script.last() {
            Pulled::Item(e) => items_of(script.drop_last()).push(e),
            _ => items_of(script.drop_last()),
        }
    }
}

/// The state of a fresh future after the first `i` answers of `script`.
pub open spec fn state_before<C: Container>(script: Seq<Pulled<C>>, i: int) -> ConcatView<C> {
    ConcatView::<C>::start().run(script.take(i))
}

/// Whether the `i`-th reply of `told` is one that a future may give: the
/// future has not completed before the `i`-th answer of `script`, and the
/// reply fits that answer and the state it comes in.
pub open spec fn replied_at<C: Container>(
    script: Seq<Pulled<C>>,
    told: Seq<Advance<C>>,
    i: int,
) -> bool {
    &&& !state_before(script, i).completed
    &&& state_before(script, i).answers(script[i], told[i])
}

/// Whether `told` is what a future may tell its driver over the answers of
/// `script`, from its creation on.
pub open spec fn session<C: Container>(script: Seq<Pulled<C>>, told: Seq<Advance<C>>) -> bool {
    &&& told.len() == script.len()
    &&& forall|i: int| 0 <= i < script.len() ==> #[trigger] replied_at(script, told, i)
}

/// Whether `script` and `told` are a session that the end of the stream
/// closes.
pub open spec fn finished<C: Container>(script: Seq<Pulled<C>>, told: Seq<Advance<C>>) -> bool {
    &&& session(script, told)
    &&& script.len() > 0
    &&& script.last() is Ended
}

/// Whether the poll with the `i`-th answer of `script` was called on a
/// future that had not completed, took it from `states[i]` to
/// `states[i + 1]`, and replied `told[i]` as a poll does.
pub open spec fn polled_at<C: Container>(
    states: Seq<ConcatView<C>>,
    script: Seq<Pulled<C>>,
    told: Seq<Advance<C>>,
    i: int,
) -> bool {
    &&& !states[i].completed
    &&& states[i + 1] == states[i].step(script[i])
    &&& states[i].answers(script[i], told[i])
}

/// Whether `states` are the states that a future went through, from its
/// creation on, while it was polled with the answers of `script` and
/// replied `told`.
pub open spec fn polled_through<C: Container>(
    states: Seq<ConcatView<C>>,
    script: Seq<Pulled<C>>,
    told: Seq<Advance<C>>,
) -> bool {
    &&& states.len() == script.len() + 1
    &&& told.len() == script.len()
    &&& states[0] == ConcatView::<C>::start()
    &&& forall|i: int| 0 <= i < script.len() ==> #[trigger] polled_at(states, script, told, i)
}

/// The state before the `i`-th poll of a future is that of a fresh future
/// after the answers before the `i`-th.
pub proof fn lemma_state_before_poll<C: Container>(
    states: Seq<ConcatView<C>>,
    script: Seq<Pulled<C>>,
    told: Seq<Advance<C>>,
    i: int,
)
    requires
        polled_through(states, script, told),
        0 <= i <= script.len(),
    ensures
        state_before(script, i) == states[i],
    decreases i,
{
    if i > 0 {
        lemma_state_before_poll(states, script, told, i - 1);
        assert(polled_at(states, script, told, i - 1));
        assert(script.take(i).drop_last() =~= script.take(i - 1));
        assert(script.take(i).last() == script[i - 1]);
    }
}

/// The polls of one future, from its creation on, make a session.
pub proof fn lemma_polls_make_session<C: Container>(
    states: Seq<ConcatView<C>>,
    script: Seq<Pulled<C>>,
    told: Seq<Advance<C>>,
)
    requires
        polled_through(states, script, told),
    ensures
        session(script, told),
{
    assert forall|i: int| 0 <= i < script.len() implies #[trigger] replied_at(script, told, i) by {
        lemma_state_before_poll(states, script, told, i);
        assert(polled_at(states, script, told, i));
    }
}

/// A future has received the items it started with and those among the
/// answers since, in the order of their arrival; suspensions and the end of
/// the stream add nothing.
pub proof fn lemma_run_receives_items<C: Container>(from: ConcatView<C>, script: Seq<Pulled<C>>)
    ensures
        from.run(script).received == from.received + items_of(script),
    decreases script.len(),
{
    if script.len() == 0 {
        assert(from.received + items_of(script) =~= from.received);
    } else {
        lemma_run_receives_items(from, script.drop_last());
        match script.last() {
            Pulled::Item(e) => {
                assert((from.received + items_of(script.drop_last())).push(e) =~= from.received
                    + items_of(script.drop_last()).push(e));
            },
            _ => {},
        }
    }
}

/// The future is ready exactly when the stream ends, and the stream ends
/// with the last answer of a session or not at all: before that, and in a
/// session that is cut short, the driver is handed no container.
pub proof fn law_ready_exactly_at_end<C: Container>(
    script: Seq<Pulled<C>>,
    told: Seq<Advance<C>>,
    i: int,
)
    requires
        session(script, told),
        0 <= i < script.len(),
    ensures
        told[i] is Ready <==> script[i] is Ended,
        script[i] is Ended ==> i == script.len() - 1,
        script[i] is NotReady <==> told[i] is Suspend,
        script[i] is Item <==> told[i] is PullAgain,
{
    assert(replied_at(script, told, i));
    if script[i] is Ended && i < script.len() - 1 {
        assert(script.take(i + 1).drop_last() =~= script.take(i));
        assert(script.take(i + 1).last() == script[i]);
        assert(state_before(script, i + 1).completed);
        assert(replied_at(script, told, i + 1));
    }
}

/// When the stream has ended, the future is ready with the concatenation of
/// the items that the stream handed out: their elements in the order of
/// arrival, and where there was one item only, that item.
pub proof fn law_output_is_concatenation<C: Container>(script: Seq<Pulled<C>>, told: Seq<Advance<C>>)
    requires
        finished(script, told),
    ensures
        told.last() is Ready,
        is_concat_of(told.last()->Ready_0, items_of(script)),
{
    let n: int = script.len() - 1;
    assert(replied_at(script, told, n));
    assert(script.take(n) =~= script.drop_last());
    lemma_run_receives_items(ConcatView::<C>::start(), script.drop_last());
    assert(Seq::<C>::empty() + items_of(script.drop_last()) =~= items_of(script.drop_last()));
}

/// When the stream has ended, the container handed out holds what a
/// container holds that started out empty and absorbed every item of the
/// stream in the order of its arrival.
pub proof fn law_output_absorbs_items_in_order<C: Container>(
    script: Seq<Pulled<C>>,
    told: Seq<Advance<C>>,
)
    requires
        finished(script, told),
    ensures
        told.last() is Ready,
        told.last()->Ready_0.elems() == absorbed_in_order(items_of(script)),
{
    law_output_is_concatenation(script, told);
    lemma_concat_elems_absorbs_in_order(items_of(script));
}

/// A stream that ends without an item gives the empty container.
pub proof fn law_no_item_gives_empty<C: Container>(script: Seq<Pulled<C>>, told: Seq<Advance<C>>)
    requires
        finished(script, told),
        items_of(script).len() == 0,
    ensures
        told.last() is Ready,
        told.last()->Ready_0.elems() == Seq::<C::Elem>::empty(),
{
    law_output_absorbs_items_in_order(script, told);
}

/// A stream that ends after one item gives that item itself.
pub proof fn law_single_item_is_output<C: Container>(
    script: Seq<Pulled<C>>,
    told: Seq<Advance<C>>,
    item: C,
)
    requires
        finished(script, told),
        items_of(script) == seq![item],
    ensures
        told.last() == Advance::Ready(item),
{
    law_output_is_concatenation(script, told);
}

/// Suspensions do not show in the result: two sessions in which the stream
/// handed out the same items end with the same elements in the same order,
/// however often the stream was not ready in one of them and never in the
/// other.
pub proof fn law_suspensions_keep_output<C: Container>(
    script: Seq<Pulled<C>>,
    told: Seq<Advance<C>>,
    other_script: Seq<Pulled<C>>,
    other_told: Seq<Advance<C>>,
)
    requires
        finished(script, told),
        finished(other_script, other_told),
        items_of(other_script) == items_of(script),
    ensures
        told.last() is Ready,
        other_told.last() is Ready,
        told.last()->Ready_0.elems() == other_told.last()->Ready_0.elems(),
        items_of(script).len() == 1 ==> told.last() == other_told.last(),
{
    law_output_is_concatenation(script, told);
    law_output_is_concatenation(other_script, other_told);
}

} // verus!

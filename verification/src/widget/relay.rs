//! How a view makes one answer of the answers of its elements.
//!
//! The elements are asked from the top of the stack down. The first that
//! does not ignore the event decides: its answer is the view's answer, but
//! for the exit of an element that is not terminal, which removes the
//! element and leaves the view's caller with `Ignored`.

use crate::events::{Answer, Broadcast, StringError};
use vstd::prelude::*;

verus! {

/// What a view's dispatch returns once an element has answered: nothing yet
/// where the element ignored the event, else the answer, with the exit of an
/// element that is not terminal turned into `Ignored`.
pub open spec fn verdict<R>(terminal: bool, answer: Answer<R>) -> Option<
    Answer<R>,
> {
    match answer {
        Ok(Broadcast::Ignored) => None,
        Ok(Broadcast::Exited) => if terminal {
            Some(Ok(Broadcast::Exited))
        } else {
            Some(Ok(Broadcast::Ignored))
        },
        other => Some(other),
    }
}

/// Whether the answer removes the element that gave it: an exit does, unless
/// the element is terminal.
pub open spec fn removes<R>(terminal: bool, answer: Answer<R>) -> bool {
    answer matches Ok(Broadcast::Exited) && !terminal
}

/// What a view's dispatch makes of the answers of its elements, `answers[i]`
/// being what the element at `i` answers if it is asked. The elements at
/// `above` and higher have ignored the event; those below are asked from the
/// top down. Gives the terminal flags of the elements that stay, and the
/// view's own answer.
pub open spec fn relay_below<R>(
    terminals: Seq<bool>,
    answers: Seq<Answer<R>>,
    above: int,
) -> (Seq<bool>, Answer<R>)
    decreases above,
{
    if above <= 0 {
        (terminals, Ok(Broadcast::Ignored))
    } else {
        match verdict(terminals[above - 1], answers[above - 1]) {
            None => relay_below(terminals, answers, above - 1),
            Some(answer) => (
                if removes(terminals[above - 1], answers[above - 1]) {
                    terminals.remove(above - 1)
                } else {
                    terminals
                },
                answer,
            ),
        }
    }
}

/// What a view's dispatch makes of the answers of its elements: the first
/// answer from the top that is not `Ignored` decides.
pub open spec fn relay<R>(
    terminals: Seq<bool>,
    answers: Seq<Answer<R>>,
) -> (Seq<bool>, Answer<R>) {
    relay_below(terminals, answers, terminals.len() as int)
}

/// The position of the topmost element below `above` that does not ignore
/// the event, or -1 where all of them ignore it.
pub open spec fn claimant_below<R>(
    answers: Seq<Answer<R>>,
    above: int,
) -> int
    decreases above,
{
    if above <= 0 {
        -1
    } else if answers[above - 1] matches Ok(Broadcast::Ignored) {
        claimant_below(answers, above - 1)
    } else {
        above - 1
    }
}

/// The position of the topmost element that does not ignore the event, or
/// -1 where all of them ignore it.
pub open spec fn claimant<R>(answers: Seq<Answer<R>>) -> int {
    claimant_below(answers, answers.len() as int)
}

/// The element at `i` was asked: it is the claimant, or stands above it.
pub open spec fn was_asked<R>(answers: Seq<Answer<R>>, i: int) -> bool {
    0 <= i < answers.len() && claimant(answers) <= i
}

/// Elements that ignore the event leave the decision to those below them.
pub proof fn lemma_relay_skips_ignored<R>(
    terminals: Seq<bool>,
    answers: Seq<Answer<R>>,
    below: int,
    above: int,
)
    requires
        0 <= below <= above <= answers.len(),
        forall|i: int| below <= i < above ==> (#[trigger] answers[i]) matches Ok(Broadcast::Ignored),
    ensures
        relay_below(terminals, answers, above) == relay_below(terminals, answers, below),
    decreases above - below,
{
    if below < above {
        lemma_relay_skips_ignored(terminals, answers, below, above - 1);
    }
}

/// Elements that ignore the event are not the claimant.
pub proof fn lemma_claimant_skips_ignored<R>(
    answers: Seq<Answer<R>>,
    below: int,
    above: int,
)
    requires
        0 <= below <= above <= answers.len(),
        forall|i: int| below <= i < above ==> (#[trigger] answers[i]) matches Ok(Broadcast::Ignored),
    ensures
        claimant_below(answers, above) == claimant_below(answers, below),
    decreases above - below,
{
    if below < above {
        lemma_claimant_skips_ignored(answers, below, above - 1);
    }
}

/// The exit of an element that is not terminal, with every element above it
/// ignoring the event, removes exactly that element, and the view answers
/// `Ignored`: the exit does not reach the view's caller.
pub proof fn exit_of_plain_element_is_absorbed<R>(
    terminals: Seq<bool>,
    answers: Seq<Answer<R>>,
    at: int,
)
    requires
        answers.len() == terminals.len(),
        0 <= at < terminals.len(),
        answers[at] matches Ok(Broadcast::Exited),
        !terminals[at],
        forall|i: int| at < i < answers.len() ==> (#[trigger] answers[i]) matches Ok(Broadcast::Ignored),
    ensures
        relay(terminals, answers) == (terminals.remove(at), Ok::<Broadcast<R>, StringError>(
            Broadcast::Ignored,
        )),
{
    lemma_relay_skips_ignored(terminals, answers, at + 1, answers.len() as int);
}

/// The exit of a terminal element, with every element above it ignoring the
/// event, is the view's own answer, and no element leaves.
pub proof fn exit_of_terminal_element_cascades<R>(
    terminals: Seq<bool>,
    answers: Seq<Answer<R>>,
    at: int,
)
    requires
        answers.len() == terminals.len(),
        0 <= at < terminals.len(),
        answers[at] matches Ok(Broadcast::Exited),
        terminals[at],
        forall|i: int| at < i < answers.len() ==> (#[trigger] answers[i]) matches Ok(Broadcast::Ignored),
    ensures
        relay(terminals, answers) == (terminals, Ok::<Broadcast<R>, StringError>(
            Broadcast::Exited,
        )),
{
    lemma_relay_skips_ignored(terminals, answers, at + 1, answers.len() as int);
}

/// A view answers `Exited` only where one of its terminal elements does.
pub proof fn view_exits_only_with_a_terminal_element<R>(
    terminals: Seq<bool>,
    answers: Seq<Answer<R>>,
)
    requires
        answers.len() == terminals.len(),
        relay(terminals, answers).1 matches Ok(Broadcast::Exited),
    ensures
        exists|at: int|
            0 <= at < terminals.len() && #[trigger] terminals[at] && answers[at] matches Ok(Broadcast::Exited),
{
    lemma_exit_has_a_source(terminals, answers, terminals.len() as int);
}

proof fn lemma_exit_has_a_source<R>(
    terminals: Seq<bool>,
    answers: Seq<Answer<R>>,
    above: int,
)
    requires
        answers.len() == terminals.len(),
        0 <= above <= terminals.len(),
        relay_below(terminals, answers, above).1 matches Ok(Broadcast::Exited),
    ensures
        exists|at: int|
            0 <= at < above && #[trigger] terminals[at] && answers[at] matches Ok(Broadcast::Exited),
    decreases above,
{
    if above > 0 {
        if verdict(terminals[above - 1], answers[above - 1]) is None {
            lemma_exit_has_a_source(terminals, answers, above - 1);
        }
    }
}

/// The round of answers makes an element that is not terminal exit: the
/// topmost answer that is not `Ignored` is `Exited`, from such an element.
pub open spec fn is_plain_exit<R>(
    terminals: Seq<bool>,
    answers: Seq<Answer<R>>,
) -> bool {
    let at = claimant_below(answers, answers.len() as int);
    &&& answers.len() == terminals.len()
    &&& at >= 0
    &&& answers[at] matches Ok(Broadcast::Exited)
    &&& !terminals[at]
}

/// Every round of `rounds`, dispatched one after another, is the exit of an
/// element that is not terminal.
pub open spec fn are_plain_exits<R>(
    terminals: Seq<bool>,
    rounds: Seq<Seq<Answer<R>>>,
) -> bool
    decreases rounds.len(),
{
    rounds.len() > 0 ==> is_plain_exit(terminals, rounds[0]) && are_plain_exits(
        relay(terminals, rounds[0]).0,
        rounds.drop_first(),
    )
}

/// The terminal flags that are left after the rounds of answers of `rounds`
/// have been dispatched one after another, and the view's answer to each.
pub open spec fn relay_all<R>(
    terminals: Seq<bool>,
    rounds: Seq<Seq<Answer<R>>>,
) -> (Seq<bool>, Seq<Answer<R>>)
    decreases rounds.len(),
{
    if rounds.len() == 0 {
        (terminals, Seq::empty())
    } else {
        let first = relay(terminals, rounds[0]);
        let rest = relay_all(first.0, rounds.drop_first());
        (rest.0, seq![first.1] + rest.1)
    }
}

/// However many elements that are not terminal exit one after another, each
/// exit removes one element, and the view answers `Ignored` every time: none
/// of the exits reaches the view's caller.
pub proof fn plain_exits_are_absorbed<R>(
    terminals: Seq<bool>,
    rounds: Seq<Seq<Answer<R>>>,
)
    requires
        are_plain_exits(terminals, rounds),
    ensures
        relay_all(terminals, rounds).0.len() == terminals.len() - rounds.len(),
        relay_all(terminals, rounds).1.len() == rounds.len(),
        forall|k: int|
            0 <= k < rounds.len() ==> #[trigger] relay_all(terminals, rounds).1[k] matches Ok(Broadcast::Ignored),
    decreases rounds.len(),
{
    if rounds.len() > 0 {
        let answers = rounds[0];
        let at = claimant_below(answers, answers.len() as int);
        lemma_claimant_is_topmost(answers, answers.len() as int);
        exit_of_plain_element_is_absorbed(terminals, answers, at);
        plain_exits_are_absorbed(terminals.remove(at), rounds.drop_first());
    }
}

/// Above the claimant every element ignores the event.
proof fn lemma_claimant_is_topmost<R>(
    answers: Seq<Answer<R>>,
    above: int,
)
    requires
        0 <= above <= answers.len(),
    ensures
        -1 <= claimant_below(answers, above) < above,
        forall|i: int|
            claimant_below(answers, above) < i < above ==> (#[trigger] answers[i]) matches Ok(Broadcast::Ignored),
        claimant_below(answers, above) >= 0 ==> answers[claimant_below(answers, above)] != Ok::<
            Broadcast<R>,
            StringError,
        >(Broadcast::Ignored),
    decreases above,
{
    if above > 0 {
        lemma_claimant_is_topmost(answers, above - 1);
    }
}

} // verus!

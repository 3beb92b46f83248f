//! Merging neighbouring transactions.

use vstd::prelude::*;

use crate::ident::Ident;
use crate::types::{action_views, extend_actions, instruction_views, Action, ActionView, ExecutionInstruction, InstructionView};

verus! {

/// The instructions with one more: left out where it is a transaction without
/// actions, merged into the last where that goes to the same receiver.
pub open spec fn with_merged(done: Seq<InstructionView>, next: InstructionView) -> Seq<InstructionView> {
    match next {
        InstructionView::Transaction { receiver, actions } => if actions.len() == 0 {
            done
        } else if done.len() > 0 {
            match done.last() {
                InstructionView::Transaction { receiver: last, actions: before } => if last == receiver {
                    done.drop_last().push(InstructionView::Transaction { receiver, actions: before + actions })
                } else {
                    done.push(next)
                },
                InstructionView::Quote { .. } => done.push(next),
            }
        } else {
            done.push(next)
        },
        InstructionView::Quote { .. } => done.push(next),
    }
}

/// The instructions with neighbouring transactions to one receiver merged.
pub open spec fn merged(instructions: Seq<InstructionView>) -> Seq<InstructionView>
    decreases instructions.len(),
{
    if instructions.len() == 0 {
        Seq::empty()
    } else {
        with_merged(merged(instructions.drop_last()), instructions.last())
    }
}

/// Merges all neighbouring transactions to the same receiver, and leaves out
/// those without actions.
pub fn optimize_execution_instructions(execution_instructions: &Vec<ExecutionInstruction>) -> (r: Vec<
    ExecutionInstruction,
>)
    ensures
        instruction_views(r@) == merged(instruction_views(execution_instructions@)),
{
    let mut out: Vec<ExecutionInstruction> = Vec::new();
    let mut i: usize = 0;
    let ghost all = instruction_views(execution_instructions@);
    proof {
        assert(all.take(0) =~= Seq::empty());
        assert(instruction_views(out@) =~= merged(all.take(0)));
    }
    while i < execution_instructions.len()
        invariant
            i <= execution_instructions@.len(),
            all == instruction_views(execution_instructions@),
            instruction_views(out@) == merged(all.take(i as int)),
        decreases execution_instructions@.len() - i,
    {
        let ghost before = out@;
        let next: &ExecutionInstruction = &execution_instructions[i];
        proof {
            assert(all.take(i + 1).drop_last() =~= all.take(i as int));
            assert(all.take(i + 1).last() == next@);
        }
        add_merged(&mut out, next);
        i = i + 1;
    }
    assert(all.take(all.len() as int) =~= all);
    out
}

/// Adds one instruction.
fn add_merged(out: &mut Vec<ExecutionInstruction>, next: &ExecutionInstruction)
    ensures
        instruction_views(final(out)@) == with_merged(instruction_views(old(out)@), next@),
{
    let ghost before = out@;
    match next {
        ExecutionInstruction::NearTransaction { receiver_id, actions } => {
            if actions.len() == 0 {
                return;
            }
            match out.pop() {
                None => {
                    out.push(next.duplicate());
                    assert(instruction_views(out@) =~= with_merged(instruction_views(before), next@));
                },
                Some(last) => {
                    assert(instruction_views(before).last() == last@);
                    assert(instruction_views(before).drop_last() =~= instruction_views(out@));
                    let ghost kept = out@;
                    match last {
                        ExecutionInstruction::NearTransaction { receiver_id: last_receiver, actions: last_actions } => {
                            if last_receiver.same(receiver_id) {
                                let mut all_actions: Vec<Action> = last_actions;
                                extend_actions(&mut all_actions, actions);
                                out.push(
                                    ExecutionInstruction::NearTransaction {
                                        receiver_id: last_receiver,
                                        actions: all_actions,
                                    },
                                );
                                assert(instruction_views(out@) =~= instruction_views(kept).push(
                                    InstructionView::Transaction {
                                        receiver: receiver_id@,
                                        actions: action_views(last_actions@) + action_views(actions@),
                                    },
                                ));
                            } else {
                                out.push(
                                    ExecutionInstruction::NearTransaction {
                                        receiver_id: last_receiver,
                                        actions: last_actions,
                                    },
                                );
                                out.push(next.duplicate());
                                assert(instruction_views(out@) =~= instruction_views(before).push(next@));
                            }
                        },
                        quote => {
                            out.push(quote);
                            out.push(next.duplicate());
                            assert(instruction_views(out@) =~= instruction_views(before).push(next@));
                        },
                    }
                },
            }
        },
        ExecutionInstruction::IntentsQuote { .. } => {
            out.push(next.duplicate());
            assert(instruction_views(out@) =~= instruction_views(before).push(next@));
        },
    }
}

/// What is done, one thing after the other.
pub enum StepView {
    Call { receiver: Seq<char>, action: ActionView },
    Quote { message: Seq<char>, hash: Seq<char> },
}

/// What an instruction does, one thing after the other.
pub open spec fn steps_of(instruction: InstructionView) -> Seq<StepView> {
    match instruction {
        InstructionView::Transaction { receiver, actions } => Seq::new(
            actions.len(),
            |i: int| StepView::Call { receiver, action: actions[i] },
        ),
        InstructionView::Quote { message, hash } => seq![StepView::Quote { message, hash }],
    }
}

/// What the instructions do, one thing after the other.
pub open spec fn steps(instructions: Seq<InstructionView>) -> Seq<StepView>
    decreases instructions.len(),
{
    if instructions.len() == 0 {
        Seq::empty()
    } else {
        steps(instructions.drop_last()) + steps_of(instructions.last())
    }
}

/// Whether no transaction is empty, and no two neighbours go to one receiver.
pub open spec fn tidy(instructions: Seq<InstructionView>) -> bool {
    &&& forall|i: int|
        0 <= i < instructions.len() ==> (#[trigger] instructions[i] matches InstructionView::Transaction {
            actions,
            ..
        } ==> actions.len() > 0)
    &&& forall|i: int, j: int|
        #![trigger instructions[i], instructions[j]]
        0 <= i && j == i + 1 && j < instructions.len() ==> !same_receiver(instructions[i], instructions[j])
}

/// Whether both are transactions to one receiver.
pub open spec fn same_receiver(a: InstructionView, b: InstructionView) -> bool {
    match (a, b) {
        (
            InstructionView::Transaction { receiver: x, .. },
            InstructionView::Transaction { receiver: y, .. },
        ) => x == y,
        _ => false,
    }
}

/// Merging does not change what is done, nor in which order.
pub proof fn merging_keeps_the_steps(instructions: Seq<InstructionView>)
    ensures
        steps(merged(instructions)) == steps(instructions),
    decreases instructions.len(),
{
    if instructions.len() > 0 {
        let next = instructions.last();
        let done = merged(instructions.drop_last());
        merging_keeps_the_steps(instructions.drop_last());
        let now = with_merged(done, next);
        if now == done.push(next) {
            assert(now.drop_last() =~= done);
        }
        match next {
            InstructionView::Transaction { receiver, actions } => {
                if actions.len() == 0 {
                    assert(steps_of(next) =~= Seq::empty());
                    assert(steps(now) =~= steps(done) + steps_of(next));
                } else if done.len() > 0 && same_receiver(done.last(), next) {
                    assert(now.drop_last() =~= done.drop_last());
                    assert(steps_of(now.last()) =~= steps_of(done.last()) + steps_of(next));
                    assert(steps(now) =~= steps(done) + steps_of(next));
                }
            },
            InstructionView::Quote { .. } => {},
        }
    }
}

/// After merging no transaction is empty, and no two neighbours go to the
/// same receiver.
pub proof fn merged_is_tidy(instructions: Seq<InstructionView>)
    ensures
        tidy(merged(instructions)),
    decreases instructions.len(),
{
    if instructions.len() > 0 {
        let next = instructions.last();
        let done = merged(instructions.drop_last());
        merged_is_tidy(instructions.drop_last());
        let now = merged(instructions);
        if done.len() > 0 {
            let last = done.last();
            assert forall|i: int, j: int|
                #![trigger now[i], now[j]]
                0 <= i && j == i + 1 && j < now.len() implies !same_receiver(now[i], now[j]) by {
                if j < done.len() - 1 {
                    assert(now[i] == done[i] && now[j] == done[j]);
                } else if j == done.len() - 1 {
                    assert(now[i] == done[i]);
                    assert(!same_receiver(done[i], done[j]));
                } else {
                    assert(now[i] == done[i]);
                }
            }
            assert forall|i: int| 0 <= i < now.len() implies (#[trigger] now[i] matches InstructionView::Transaction {
                actions,
                ..
            } ==> actions.len() > 0) by {
                if i < done.len() {
                    assert(done[i] matches InstructionView::Transaction { actions, .. } ==> actions.len() > 0);
                }
            }
        }
    }
}

/// Merging leaves instructions alone that need no merging.
pub proof fn tidy_is_left_alone(instructions: Seq<InstructionView>)
    requires
        tidy(instructions),
    ensures
        merged(instructions) == instructions,
    decreases instructions.len(),
{
    if instructions.len() > 0 {
        let rest = instructions.drop_last();
        assert forall|i: int| 0 <= i < rest.len() implies (#[trigger] rest[i] matches InstructionView::Transaction {
            actions,
            ..
        } ==> actions.len() > 0) by {
            assert(rest[i] == instructions[i]);
        }
        assert forall|i: int, j: int|
            #![trigger rest[i], rest[j]]
            0 <= i && j == i + 1 && j < rest.len() implies !same_receiver(rest[i], rest[j]) by {
            assert(rest[i] == instructions[i] && rest[j] == instructions[j]);
        }
        tidy_is_left_alone(rest);
        let n = instructions.len() as int;
        let next = instructions.last();
        assert(next == instructions[n - 1]);
        if n > 1 {
            assert(!same_receiver(instructions[n - 2], instructions[n - 1]));
            assert(rest.last() == instructions[n - 2]);
        }
        assert(instructions =~= rest.push(next));
    }
}

/// Merging twice is merging once.
pub proof fn merging_twice_is_merging_once(instructions: Seq<InstructionView>)
    ensures
        merged(merged(instructions)) == merged(instructions),
{
    merged_is_tidy(instructions);
    tidy_is_left_alone(merged(instructions));
}

/// One step as an instruction.
spec fn single(step: StepView) -> InstructionView {
    match step {
        StepView::Call { receiver, action } => InstructionView::Transaction { receiver, actions: seq![action] },
        StepView::Quote { message, hash } => InstructionView::Quote { message, hash },
    }
}

/// The instructions that steps are merged into, one step at a time.
spec fn regrouped(steps: Seq<StepView>) -> Seq<InstructionView>
    decreases steps.len(),
{
    if steps.len() == 0 {
        Seq::empty()
    } else {
        with_merged(regrouped(steps.drop_last()), single(steps.last()))
    }
}

/// Merging an instruction is merging its steps one at a time.
proof fn lemma_regrouped(before: Seq<StepView>, next: InstructionView)
    ensures
        regrouped(before + steps_of(next)) == with_merged(regrouped(before), next),
    decreases steps_of(next).len(),
{
    let more = steps_of(next);
    let all = before + more;
    match next {
        InstructionView::Quote { message, hash } => {
            assert(all.drop_last() =~= before);
            assert(single(all.last()) == next);
        },
        InstructionView::Transaction { receiver, actions } => {
            if actions.len() == 0 {
                assert(all =~= before);
            } else {
                let fewer = actions.drop_last();
                let action = actions.last();
                let shorter = InstructionView::Transaction { receiver, actions: fewer };
                lemma_regrouped(before, shorter);
                assert(all.drop_last() =~= before + steps_of(shorter));
                let last = InstructionView::Transaction { receiver, actions: seq![action] };
                assert(single(all.last()) == last);
                let done = regrouped(before);
                let then = with_merged(done, shorter);
                assert(actions =~= fewer + seq![action]);
                if fewer.len() == 0 {
                    assert(actions =~= seq![action]);
                } else if done.len() > 0 && same_receiver(done.last(), next) {
                    let earlier = done.last()->actions;
                    assert(then.last() == InstructionView::Transaction { receiver, actions: earlier + fewer });
                    assert((earlier + fewer) + seq![action] =~= earlier + actions);
                    assert(then.drop_last() =~= done.drop_last());
                } else {
                    assert(then == done.push(shorter));
                    assert(then.last() == shorter);
                    assert(then.drop_last() =~= done);
                }
            }
        },
    }
}

/// Merging depends on the steps alone.
proof fn lemma_merged_by_steps(instructions: Seq<InstructionView>)
    ensures
        merged(instructions) == regrouped(steps(instructions)),
    decreases instructions.len(),
{
    if instructions.len() > 0 {
        lemma_merged_by_steps(instructions.drop_last());
        lemma_regrouped(steps(instructions.drop_last()), instructions.last());
    }
}

/// Merging does not add instructions.
proof fn lemma_merged_len(instructions: Seq<InstructionView>)
    ensures
        merged(instructions).len() <= instructions.len(),
    decreases instructions.len(),
{
    if instructions.len() > 0 {
        lemma_merged_len(instructions.drop_last());
    }
}

/// No other instructions that do the same, in the same order, are fewer.
pub proof fn merged_is_shortest(instructions: Seq<InstructionView>, others: Seq<InstructionView>)
    requires
        steps(others) == steps(instructions),
    ensures
        merged(others) == merged(instructions),
        merged(instructions).len() <= others.len(),
{
    lemma_merged_by_steps(instructions);
    lemma_merged_by_steps(others);
    lemma_merged_len(others);
}

} // verus!

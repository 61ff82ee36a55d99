//! What pruning keeps and what it removes.

use vstd::prelude::*;

use crate::reduction::{
    leaves_unchanged, part_useless, pruned, pruned_part, step_useless, PartModel, StepModel,
    StepTypeMask,
};

verus! {

/// Pruning treats every part by itself: a list in two pieces is pruned piece by
/// piece.
pub proof fn lemma_pruned_in_pieces(
    front: Seq<PartModel>,
    back: Seq<PartModel>,
    hide_states: bool,
    mask: StepTypeMask,
)
    ensures
        pruned(front + back, hide_states, mask) == pruned(front, hide_states, mask) + pruned(
            back,
            hide_states,
            mask,
        ),
    decreases front.len(),
{
    if front.len() == 0 {
        assert(front + back =~= back);
        assert(pruned(front, hide_states, mask) + pruned(back, hide_states, mask) =~= pruned(
            back,
            hide_states,
            mask,
        ));
    } else {
        lemma_pruned_in_pieces(front.skip(1), back, hide_states, mask);
        assert((front + back).skip(1) =~= front.skip(1) + back);
        assert((front + back)[0] == front[0]);
        let rest = pruned(front.skip(1), hide_states, mask);
        let tail = pruned(back, hide_states, mask);
        assert((seq![pruned_part(front[0], hide_states, mask)] + rest) + tail =~= seq![
            pruned_part(front[0], hide_states, mask),
        ] + (rest + tail));
    }
}

/// A list of one part after pruning: empty when the part is useless, the
/// pruned part otherwise.
pub proof fn lemma_pruned_single(part: PartModel, hide_states: bool, mask: StepTypeMask)
    ensures
        pruned(seq![part], hide_states, mask) == if part_useless(part, hide_states, mask) {
            Seq::empty()
        } else {
            seq![pruned_part(part, hide_states, mask)]
        },
{
    let single = seq![part];
    assert(single.skip(1) =~= Seq::empty());
    assert(pruned(single.skip(1), hide_states, mask) =~= Seq::empty());
    assert(seq![pruned_part(part, hide_states, mask)] + Seq::empty() =~= seq![
        pruned_part(part, hide_states, mask),
    ]);
}

/// A useless part is removed wherever it stands, with all that it holds; a
/// part that is not useless stays in its place.
pub proof fn lemma_pruned_around(
    front: Seq<PartModel>,
    part: PartModel,
    back: Seq<PartModel>,
    hide_states: bool,
    mask: StepTypeMask,
)
    ensures
        part_useless(part, hide_states, mask) ==> pruned(
            front + seq![part] + back,
            hide_states,
            mask,
        ) == pruned(front, hide_states, mask) + pruned(back, hide_states, mask),
        !part_useless(part, hide_states, mask) ==> pruned(
            front + seq![part] + back,
            hide_states,
            mask,
        ) == pruned(front, hide_states, mask) + seq![pruned_part(part, hide_states, mask)] + pruned(
            back,
            hide_states,
            mask,
        ),
{
    lemma_pruned_in_pieces(front + seq![part], back, hide_states, mask);
    lemma_pruned_in_pieces(front, seq![part], hide_states, mask);
    lemma_pruned_single(part, hide_states, mask);
    assert(pruned(front, hide_states, mask) + Seq::empty() =~= pruned(front, hide_states, mask));
}

/// A step without parts that leaves the expression as it was is removed,
/// wherever it stands and whatever the configuration is.
pub proof fn lemma_unchanged_leaf_is_removed(
    front: Seq<PartModel>,
    step: StepModel,
    back: Seq<PartModel>,
    hide_states: bool,
    mask: StepTypeMask,
)
    requires
        step.parts.len() == 0,
        leaves_unchanged(step),
    ensures
        part_useless(PartModel::Substep(step), hide_states, mask),
        pruned(front + seq![PartModel::Substep(step)] + back, hide_states, mask) == pruned(
            front,
            hide_states,
            mask,
        ) + pruned(back, hide_states, mask),
{
    lemma_pruned_around(front, PartModel::Substep(step), back, hide_states, mask);
}

/// The part that is reached from `parts` by going down along `path`: the first
/// index chooses a part of the list, each further index a part of the step that
/// was reached.
pub open spec fn part_along(parts: Seq<PartModel>, path: Seq<int>) -> Option<PartModel>
    decreases path.len(),
{
    if path.len() == 0 || !(0 <= path[0] < parts.len()) {
        None
    } else if path.len() == 1 {
        Some(parts[path[0]])
    } else {
        match parts[path[0]] {
            PartModel::Substep(step) => part_along(step.parts, path.skip(1)),
            PartModel::State(..) => None,
        }
    }
}

/// A step that holds a part that is not useless, at whatever depth, is not
/// useless itself.
pub proof fn lemma_useful_part_makes_step_useful(
    step: StepModel,
    path: Seq<int>,
    hide_states: bool,
    mask: StepTypeMask,
)
    requires
        part_along(step.parts, path) matches Some(part) && !part_useless(part, hide_states, mask),
    ensures
        !step_useless(step, hide_states, mask),
    decreases path.len(),
{
    let first = step.parts[path[0]];
    if path.len() > 1 {
        match first {
            PartModel::Substep(nested) => {
                lemma_useful_part_makes_step_useful(nested, path.skip(1), hide_states, mask);
            },
            PartModel::State(..) => {},
        }
    }
    assert(!part_useless(first, hide_states, mask));
}

/// A step that holds a part that is not useless, at whatever depth, stays, with
/// its own parts pruned.
pub proof fn lemma_step_with_useful_part_is_kept(
    front: Seq<PartModel>,
    step: StepModel,
    back: Seq<PartModel>,
    path: Seq<int>,
    hide_states: bool,
    mask: StepTypeMask,
)
    requires
        part_along(step.parts, path) matches Some(part) && !part_useless(part, hide_states, mask),
    ensures
        pruned(front + seq![PartModel::Substep(step)] + back, hide_states, mask) == pruned(
            front,
            hide_states,
            mask,
        ) + seq![
            PartModel::Substep(StepModel { parts: pruned(step.parts, hide_states, mask), ..step }),
        ] + pruned(back, hide_states, mask),
{
    lemma_useful_part_makes_step_useful(step, path, hide_states, mask);
    lemma_pruned_around(front, PartModel::Substep(step), back, hide_states, mask);
}

/// A step with parts, every one of which is useless, is removed with all that
/// it holds.
pub proof fn lemma_step_of_useless_parts_is_removed(
    front: Seq<PartModel>,
    step: StepModel,
    back: Seq<PartModel>,
    hide_states: bool,
    mask: StepTypeMask,
)
    requires
        step.parts.len() > 0,
        forall|i: int|
            0 <= i < step.parts.len() ==> part_useless(#[trigger] step.parts[i], hide_states, mask),
    ensures
        pruned(front + seq![PartModel::Substep(step)] + back, hide_states, mask) == pruned(
            front,
            hide_states,
            mask,
        ) + pruned(back, hide_states, mask),
{
    lemma_pruned_around(front, PartModel::Substep(step), back, hide_states, mask);
}

/// A part that stays is not useless after pruning either, and pruning it once
/// more changes nothing.
pub proof fn lemma_kept_part_is_settled(part: PartModel, hide_states: bool, mask: StepTypeMask)
    requires
        !part_useless(part, hide_states, mask),
    ensures
        !part_useless(pruned_part(part, hide_states, mask), hide_states, mask),
        pruned_part(pruned_part(part, hide_states, mask), hide_states, mask) == pruned_part(
            part,
            hide_states,
            mask,
        ),
    decreases part,
{
    match part {
        PartModel::State(..) => {},
        PartModel::Substep(step) => {
            let kept = pruned(step.parts, hide_states, mask);
            lemma_pruned_is_settled(step.parts, hide_states, mask);
            if step.parts.len() == 0 {
                assert(kept =~= step.parts);
            } else {
                let i = choose|i: int|
                    0 <= i < step.parts.len() && !part_useless(
                        #[trigger] step.parts[i],
                        hide_states,
                        mask,
                    );
                assert(kept.len() > 0);
                assert(!part_useless(kept[0], hide_states, mask));
            }
        },
    }
}

/// After pruning no part is useless, a list that held a part that is not
/// useless is not empty, and pruning once more changes nothing.
pub proof fn lemma_pruned_is_settled(parts: Seq<PartModel>, hide_states: bool, mask: StepTypeMask)
    ensures
        forall|j: int|
            0 <= j < pruned(parts, hide_states, mask).len() ==> !part_useless(
                #[trigger] pruned(parts, hide_states, mask)[j],
                hide_states,
                mask,
            ),
        (exists|i: int|
            0 <= i < parts.len() && !part_useless(#[trigger] parts[i], hide_states, mask)) ==> pruned(
            parts,
            hide_states,
            mask,
        ).len() > 0,
        pruned(pruned(parts, hide_states, mask), hide_states, mask) == pruned(
            parts,
            hide_states,
            mask,
        ),
    decreases parts,
{
    if parts.len() > 0 {
        let rest = pruned(parts.skip(1), hide_states, mask);
        lemma_pruned_is_settled(parts.skip(1), hide_states, mask);
        if part_useless(parts[0], hide_states, mask) {
            if exists|i: int|
                0 <= i < parts.len() && !part_useless(#[trigger] parts[i], hide_states, mask) {
                let i = choose|i: int|
                    0 <= i < parts.len() && !part_useless(#[trigger] parts[i], hide_states, mask);
                assert(parts.skip(1)[i - 1] == parts[i]);
            }
        } else {
            let kept = pruned_part(parts[0], hide_states, mask);
            lemma_kept_part_is_settled(parts[0], hide_states, mask);
            let result = seq![kept] + rest;
            assert(result.skip(1) =~= rest);
            assert(result[0] == kept);
            assert forall|j: int| 0 <= j < result.len() implies !part_useless(
                #[trigger] result[j],
                hide_states,
                mask,
            ) by {
                if j > 0 {
                    assert(result[j] == rest[j - 1]);
                }
            }
        }
    }
}

/// Pruning what was pruned, under the same configuration, gives the same list.
pub proof fn lemma_pruning_twice_is_pruning_once(
    parts: Seq<PartModel>,
    hide_states: bool,
    mask: StepTypeMask,
)
    ensures
        pruned(pruned(parts, hide_states, mask), hide_states, mask) == pruned(
            parts,
            hide_states,
            mask,
        ),
{
    lemma_pruned_is_settled(parts, hide_states, mask);
}

} // verus!

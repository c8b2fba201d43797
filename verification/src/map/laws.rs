use vstd::prelude::*;

use super::choicefilter::{
    all_ops_hold, all_tokens_hold, op_holds, passes_all, passes_op, passes_tokens, row_ok, row_sum,
    token_holds, ChoiceFilter, SectorPossibility,
};
use super::clue::{
    adjacent_to, all_clues_hold, chain_acceptable, clue_acceptable, clue_holds, default_clues,
    holds_at, research_clues_ok, same_secret, with_x_at, x_clues_ok, x_may_hide_at, Clue,
    ClueConnection,
};
use super::completeness::lemma_enumeration_is_complete;
use super::enumerator::enumeration;
use super::soundness::lemma_enumeration_is_valid;
use super::model::{
    locate_result, next_index, prev_index, range_count, target_result, type_at, MapType,
    SectorType, Token,
};
use super::ratio::{lemma_sum_of_squares_pure, spec_impurity, Ratio};
use super::validity::{has_wanted_count, places_of, valid_layout};
use crate::operation::{Operation, OperationResult};

verus! {

broadcast use {vstd::seq_lib::group_seq_properties, vstd::set::group_set_axioms};

/// Whether `result` is what a game with the true layout `truth` answers to
/// `op`: the count of a survey, what a target shows, a clue that is true,
/// whether a locate was right. To a publication any answer will do.
pub open spec fn true_answer(truth: Seq<SectorType>, op: Operation, result: OperationResult)
    -> bool {
    match (op, result) {
        (Operation::Survey(sv), OperationResult::Survey(cnt)) => cnt == range_count(
            truth,
            sv.start as int,
            sv.end as int,
            sv.sector_type,
        ),
        (Operation::Target(t), OperationResult::Target(seen)) => seen == target_result(
            truth,
            t.index as int,
        ),
        (Operation::Research(_), OperationResult::Research(clue)) => clue_holds(
            truth,
            clue.subject,
            clue.object,
            clue.conn,
        ),
        (Operation::Locate(l), OperationResult::Locate(found)) => found == locate_result(
            truth,
            l.index as int,
            l.pre_sector_type,
            l.next_sector_type,
        ),
        _ => true,
    }
}

/// Whether what a token shows is true of the layout `truth`: a token that a
/// meeting has checked is marked as a wrong guess just when its sector does
/// not hold its type.
pub open spec fn true_token(truth: Seq<SectorType>, token: Token) -> bool {
    token.placed && token.secret.sector_type is Some ==> ((token.secret.meeting_index == 4) <==> (
    type_at(truth, token.secret.sector_index as int) != token.sector_type))
}

/// The true layout agrees with every true answer.
pub proof fn lemma_truth_agrees_with_answer(
    truth: Seq<SectorType>,
    op: Operation,
    result: OperationResult,
)
    requires
        true_answer(truth, op, result),
    ensures
        op_holds(truth, op, result),
{
}

/// The true layout agrees with every token that shows the truth.
pub proof fn lemma_truth_agrees_with_token(truth: Seq<SectorType>, token: Token)
    requires
        true_token(truth, token),
    ensures
        token_holds(truth, token),
{
}

/// A filter never strikes out the true layout: if it is among the
/// candidates and an operation got its true answer, it is among the
/// candidates that the operation leaves.
pub proof fn lemma_truth_survives_operation(
    cands: Seq<Seq<SectorType>>,
    truth: Seq<SectorType>,
    op: Operation,
    result: OperationResult,
)
    requires
        cands.contains(truth),
        true_answer(truth, op, result),
    ensures
        cands.filter(passes_op(op, result)).contains(truth),
{
    let i = choose|i: int| 0 <= i < cands.len() && cands[i] == truth;
    cands.lemma_filter_contains(passes_op(op, result), i);
}

/// A filter never strikes out the true layout when tokens are taken in that
/// show the truth.
pub proof fn lemma_truth_survives_tokens(
    cands: Seq<Seq<SectorType>>,
    truth: Seq<SectorType>,
    tokens: Seq<Token>,
)
    requires
        cands.contains(truth),
        forall|k: int| 0 <= k < tokens.len() ==> true_token(truth, #[trigger] tokens[k]),
    ensures
        cands.filter(passes_tokens(tokens)).contains(truth),
{
    let i = choose|i: int| 0 <= i < cands.len() && cands[i] == truth;
    assert(all_tokens_hold(truth, tokens));
    cands.lemma_filter_contains(passes_tokens(tokens), i);
}

/// The enumeration holds just the layouts that keep the rules of the
/// board.
pub proof fn lemma_enumeration_is_exact(map_type: MapType, s: Seq<SectorType>)
    ensures
        enumeration(map_type).contains(s) <==> valid_layout(map_type, s),
{
    if enumeration(map_type).contains(s) {
        let i = choose|i: int| 0 <= i < enumeration(map_type).len() && enumeration(map_type)[i]
            == s;
        lemma_enumeration_is_valid(map_type, i);
    }
    if valid_layout(map_type, s) {
        lemma_enumeration_is_complete(map_type, s);
    }
}

/// The first pass of a filter keeps the true layout: a layout that keeps
/// the rules of the board, that gave every answer of the log and that every
/// token put by shows the truth of is among the layouts that the pass
/// gathers.
pub proof fn lemma_truth_survives_first_pass(
    map_type: MapType,
    truth: Seq<SectorType>,
    ops: Seq<(Operation, OperationResult)>,
    tokens: Seq<Token>,
)
    requires
        valid_layout(map_type, truth),
        forall|k: int| 0 <= k < ops.len() ==> true_answer(truth, (#[trigger] ops[k]).0, ops[k].1),
        forall|k: int| 0 <= k < tokens.len() ==> true_token(truth, #[trigger] tokens[k]),
    ensures
        ChoiceFilter::consistent(map_type, ops, tokens).contains(truth),
{
    lemma_enumeration_is_complete(map_type, truth);
    let all = enumeration(map_type);
    let i = choose|i: int| 0 <= i < all.len() && all[i] == truth;
    assert(all_ops_hold(truth, ops));
    assert(all_tokens_hold(truth, tokens));
    all.lemma_filter_contains(passes_all(ops, tokens), i);
}

/// After any operations answered by a true layout that keeps the rules, the
/// layouts that the first pass gathers are at least one, the true layout,
/// and no more than the board has layouts in all.
pub proof fn lemma_candidates_between(
    map_type: MapType,
    truth: Seq<SectorType>,
    ops: Seq<(Operation, OperationResult)>,
    tokens: Seq<Token>,
)
    requires
        valid_layout(map_type, truth),
        forall|k: int| 0 <= k < ops.len() ==> true_answer(truth, (#[trigger] ops[k]).0, ops[k].1),
        forall|k: int| 0 <= k < tokens.len() ==> true_token(truth, #[trigger] tokens[k]),
    ensures
        1 <= ChoiceFilter::consistent(map_type, ops, tokens).len() <= enumeration(map_type).len(),
{
    lemma_truth_survives_first_pass(map_type, truth, ops, tokens);
    enumeration(map_type).lemma_filter_len(passes_all(ops, tokens));
}

/// No operation makes the candidates of a filter more.
pub proof fn lemma_candidates_never_grow(
    cands: Seq<Seq<SectorType>>,
    op: Operation,
    result: OperationResult,
)
    ensures
        cands.filter(passes_op(op, result)).len() <= cands.len(),
{
    cands.lemma_filter_len(passes_op(op, result));
}

/// No two clues of a chain in which each was acceptable beside those before
/// it have one signature.
pub proof fn lemma_no_shared_secret(s: Seq<SectorType>, clues: Seq<Clue>, i: int, j: int)
    requires
        chain_acceptable(s, clues),
        0 <= i < j < clues.len(),
    ensures
        !same_secret(clues[i].subject, clues[i].object, clues[j].subject, clues[j].object),
{
    let before = clues.take(j);
    assert(clue_acceptable(s, before, clues[j].subject, clues[j].object, clues[j].conn));
    assert(before[i] == clues[i]);
}

/// No two clues of a game have one signature, be they research clues or
/// clues about X.
pub proof fn lemma_clues_differ(
    map_type: MapType,
    s: Seq<SectorType>,
    clues: Seq<Clue>,
    xclues: Seq<Clue>,
    i: int,
    j: int,
)
    requires
        research_clues_ok(map_type, s, clues),
        x_clues_ok(map_type, s, clues, xclues),
        0 <= i < j < (clues + xclues).len(),
    ensures
        !same_secret(
            (clues + xclues)[i].subject,
            (clues + xclues)[i].object,
            (clues + xclues)[j].subject,
            (clues + xclues)[j].object,
        ),
{
    if j < clues.len() {
        lemma_no_shared_secret(s, clues, i, j);
    } else if i >= clues.len() {
        lemma_no_shared_secret(s, xclues, i - clues.len(), j - clues.len());
    } else {
        assert(clues[i].subject != SectorType::X);
        assert(xclues[j - clues.len()].subject == SectorType::X);
    }
}

/// Every clue of a chain is true of the layout.
pub proof fn lemma_chain_holds(s: Seq<SectorType>, clues: Seq<Clue>)
    requires
        chain_acceptable(s, clues),
    ensures
        all_clues_hold(s, clues),
{
    assert forall|i: int| 0 <= i < clues.len() implies clue_holds(
        s,
        (#[trigger] clues[i]).subject,
        clues[i].object,
        clues[i].conn,
    ) by {
        assert(clue_acceptable(s, clues.take(i), clues[i].subject, clues[i].object, clues[i].conn));
    }
}

/// The clues of a game leave X exactly one hiding place. Of the positions
/// that look like `Space` to a player, those that hold `Space` or X, the
/// one that holds X is the only one where X can be for all the clues say:
/// the research clues, the clues about X, and the two clues of the rules.
pub proof fn lemma_x_has_one_hiding_place(
    map_type: MapType,
    s: Seq<SectorType>,
    clues: Seq<Clue>,
    xclues: Seq<Clue>,
    x: int,
    p: int,
)
    requires
        valid_layout(map_type, s),
        research_clues_ok(map_type, s, clues),
        x_clues_ok(map_type, s, clues, xclues),
        holds_at(s, x, SectorType::X),
        holds_at(s, p, SectorType::Space) || holds_at(s, p, SectorType::X),
    ensures
        (all_clues_hold(with_x_at(s, p), clues) && all_clues_hold(with_x_at(s, p), xclues)
            && all_clues_hold(with_x_at(s, p), default_clues())) <==> p == x,
{
    lemma_only_one_x(map_type, s, x);
    if holds_at(s, p, SectorType::X) {
        assert(p == x);
        assert forall|i: int| 0 <= i < s.len() implies with_x_at(s, x)[i] == s[i] by {
            if s[i] == SectorType::X {
                assert(holds_at(s, i + 1, SectorType::X));
            }
        }
        assert(with_x_at(s, x) =~= s);
        lemma_chain_holds(s, clues);
        lemma_chain_holds(s, xclues);
        lemma_rules_are_clues(map_type, s);
    } else {
        assert(!x_may_hide_at(clues, xclues, s, p));
        assert(p != x);
    }
}

/// A layout that keeps the rules holds X at one position only.
pub proof fn lemma_only_one_x(map_type: MapType, s: Seq<SectorType>, x: int)
    requires
        valid_layout(map_type, s),
        holds_at(s, x, SectorType::X),
    ensures
        forall|q: int| holds_at(s, q, SectorType::X) ==> q == x,
{
    let xs = places_of(s, SectorType::X);
    assert(has_wanted_count(map_type, s, SectorType::X));
    assert forall|q: int| holds_at(s, q, SectorType::X) implies q == x by {
        if q != x {
            assert(xs.contains(q) && xs.contains(x));
            let rest = xs.remove(x);
            assert(rest.contains(q));
            assert(rest.len() == 0);
            assert(rest =~= Set::<int>::empty()) by {
                if rest.len() == 0 {
                    vstd::set_lib::lemma_set_empty_equivalency_len(rest);
                }
            }
        }
    }
}

/// A layout that keeps the rules meets the two clues of the rules.
pub proof fn lemma_rules_are_clues(map_type: MapType, s: Seq<SectorType>)
    requires
        valid_layout(map_type, s),
    ensures
        all_clues_hold(s, default_clues()),
{
    let n = s.len() as int;
    assert forall|p: int| #[trigger] holds_at(s, p, SectorType::X) implies !adjacent_to(
        s,
        p,
        SectorType::DwarfPlanet,
    ) by {
        let before = prev_index(n, p);
        let after = next_index(n, p);
        if type_at(s, before) == SectorType::DwarfPlanet {
            assert(holds_at(s, before, SectorType::DwarfPlanet));
            assert(next_index(n, before) == p);
            assert(adjacent_to(s, before, SectorType::X));
        }
        if type_at(s, after) == SectorType::DwarfPlanet {
            assert(holds_at(s, after, SectorType::DwarfPlanet));
            assert(prev_index(n, after) == p);
            assert(adjacent_to(s, after, SectorType::X));
        }
    }
    assert(clue_holds(s, SectorType::X, SectorType::DwarfPlanet, ClueConnection::NotAdjacent));
    assert forall|i: int| 0 <= i < default_clues().len() implies clue_holds(
        s,
        (#[trigger] default_clues()[i]).subject,
        default_clues()[i].object,
        default_clues()[i].conn,
    ) by {
        if i == 0 {
        } else {
        }
    }
}

/// The shares of the types that a sector may hold add up to one: the
/// numerators of its row add up to their common denominator, the number of
/// candidates.
pub proof fn lemma_shares_add_up(
    cands: Seq<Seq<SectorType>>,
    pos: int,
    row: Seq<SectorPossibility>,
)
    requires
        row_ok(cands, pos, row),
    ensures
        row_sum(row) == cands.len(),
        forall|i: int| 0 <= i < row.len() ==> (#[trigger] row[i]).rate.den == cands.len() as u128,
{
    reveal(row_ok);
}

/// Where every candidate gives the same outcome there is nothing to learn:
/// the impurity of the outcomes is 0. A single candidate is such a case.
pub proof fn lemma_pure_outcomes_tell_nothing(outcomes: Seq<usize>, classes: int, x: usize)
    requires
        x < classes,
        outcomes.len() <= usize::MAX,
        forall|i: int| 0 <= i < outcomes.len() ==> outcomes[i] == x,
    ensures
        spec_impurity(outcomes, classes).num == 0,
{
    lemma_sum_of_squares_pure(outcomes, classes, x);
}

} // verus!

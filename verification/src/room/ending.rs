use vstd::prelude::*;

use super::game_state::{
    find_user, user_position, GameStage, GameState, GameStateResp, ServerGameState,
    UserResultSummary, UserState, UserTokens,
};
use super::play::Room;
use super::score::{score, steps_of, summary, summary_of};
use super::stages::{hint_reads, name_in, name_of, same_table, same_window, waits_for};
use super::turn::{ordered, sort_users_points, user_points, PointInfo, PointType};
use super::verdict::shown;
use crate::map::model::{type_at, GameMap, MapType, SectorType, Token};

verus! {

broadcast use vstd::seq_lib::group_seq_properties;

/// Whether a point is that of a player who has a last move to make.
pub open spec fn is_last_mover(users: Seq<UserState>, p: PointInfo) -> bool {
    p.kind matches PointType::User(id) && user_position(users, id@) < users.len()
        && users[user_position(users, id@)].last_move
}

/// The first point of a list that is a player's who has a last move to
/// make, or the length of the list.
pub open spec fn last_mover_at(points: Seq<PointInfo>, users: Seq<UserState>) -> int
    decreases points.len(),
{
    if points.len() == 0 {
        0
    } else if is_last_mover(users, points[0]) {
        0
    } else {
        1 + last_mover_at(points.drop_first(), users)
    }
}

/// A token at the end of the game: one that lies unshown shows its type,
/// and a wrong guess is marked.
pub open spec fn end_shown(truth: Seq<SectorType>, token: Token) -> Token {
    if token.placed && token.secret.sector_type is None {
        shown(token, type_at(truth, token.secret.sector_index as int) == token.sector_type)
    } else {
        token
    }
}

/// Whether the tokens of `after` are those of `before` at the end of the
/// game.
pub open spec fn all_end_shown(
    after: Seq<UserTokens>,
    before: Seq<UserTokens>,
    truth: Seq<SectorType>,
) -> bool {
    &&& after.len() == before.len()
    &&& forall|h: int|
        0 <= h < before.len() ==> (#[trigger] after[h]).user_id == before[h].user_id
            && after[h].tokens@.len() == before[h].tokens@.len()
    &&& forall|h: int, t: int|
        0 <= h < before.len() && 0 <= t < before[h].tokens@.len() ==> (
        #[trigger] after[h].tokens@[t]) == end_shown(truth, before[h].tokens@[t])
}

/// Whether result `a` is better than result `b`: more points, or as many
/// and more sectors found first.
pub open spec fn beats(a: UserResultSummary, b: UserResultSummary) -> bool {
    a.sum > b.sum || (a.sum == b.sum && a.first > b.first)
}

/// Where a result is put into a ranking: before the first that is not
/// better, so before those that are as good.
pub open spec fn rank_slot(ranking: Seq<UserResultSummary>, r: UserResultSummary) -> int
    decreases ranking.len(),
{
    if ranking.len() == 0 {
        0
    } else if !beats(ranking[0], r) {
        0
    } else {
        1 + rank_slot(ranking.drop_first(), r)
    }
}

/// The ranking of a list of results: the best first, of those that are as
/// good the one that came later in the list.
pub open spec fn ranked(results: Seq<UserResultSummary>) -> Seq<UserResultSummary>
    decreases results.len(),
{
    if results.len() == 0 {
        Seq::empty()
    } else {
        let before = ranked(results.drop_last());
        before.insert(rank_slot(before, results.last()), results.last())
    }
}

/// The slot of a result lies in the ranking or at its end; every result
/// before it is better, and the result at it is not.
pub proof fn lemma_rank_slot(ranking: Seq<UserResultSummary>, r: UserResultSummary)
    ensures
        0 <= rank_slot(ranking, r) <= ranking.len(),
        forall|i: int| 0 <= i < rank_slot(ranking, r) ==> beats(#[trigger] ranking[i], r),
        rank_slot(ranking, r) < ranking.len() ==> !beats(ranking[rank_slot(ranking, r)], r),
    decreases ranking.len(),
{
    if ranking.len() > 0 && beats(ranking[0], r) {
        lemma_rank_slot(ranking.drop_first(), r);
        assert forall|i: int| 0 <= i < rank_slot(ranking, r) implies beats(
            #[trigger] ranking[i],
            r,
        ) by {
            if i > 0 {
                assert(ranking[i] == ranking.drop_first()[i - 1]);
            }
        }
    }
}

/// A ranking holds the results it was made of, each as often as before,
/// and no result in it is better than one before it.
pub proof fn lemma_ranked(results: Seq<UserResultSummary>)
    ensures
        ranked(results).len() == results.len(),
        ranked(results).to_multiset() == results.to_multiset(),
        forall|i: int, j: int|
            0 <= i < j < results.len() ==> !beats(
                #[trigger] ranked(results)[j],
                #[trigger] ranked(results)[i],
            ),
    decreases results.len(),
{
    broadcast use vstd::multiset::group_multiset_axioms;

    if results.len() == 0 {
        assert(ranked(results) =~= results);
    } else {
        let rest = results.drop_last();
        let r = results.last();
        let before = ranked(rest);
        let at = rank_slot(before, r);
        let after = before.insert(at, r);
        lemma_ranked(rest);
        lemma_rank_slot(before, r);
        vstd::seq_lib::to_multiset_insert(before, at, r);
        vstd::seq_lib::to_multiset_insert(rest, rest.len() as int, r);
        assert(rest.insert(rest.len() as int, r) =~= results);
        assert forall|i: int, j: int| 0 <= i < j < after.len() implies !beats(
            #[trigger] after[j],
            #[trigger] after[i],
        ) by {
            if j < at {
                assert(after[i] == before[i] && after[j] == before[j]);
            } else if j == at {
                assert(after[i] == before[i]);
            } else if i < at {
                assert(after[i] == before[i] && after[j] == before[j - 1]);
                assert(beats(before[i], r));
                assert(!beats(before[at], r));
                if at < j - 1 {
                    assert(!beats(before[j - 1], before[at]));
                }
            } else if i == at {
                assert(after[j] == before[j - 1]);
                if at < j - 1 {
                    assert(!beats(before[j - 1], before[at]));
                }
            } else {
                assert(after[i] == before[i - 1] && after[j] == before[j - 1]);
            }
        }
    }
}

/// Ranks a list of results.
pub fn rank_results(results: Vec<UserResultSummary>) -> (r: Vec<UserResultSummary>)
    ensures
        r@ == ranked(results@),
{
    let mut results = results;
    let ghost all = results@;
    let mut ranking: Vec<UserResultSummary> = Vec::new();
    let mut i: usize = 0;
    let n = results.len();
    while i < n
        invariant
            i <= n,
            n == all.len(),
            results@ == all.skip(i as int),
            ranking@ == ranked(all.take(i as int)),
        decreases n - i,
    {
        let next = results.remove(0);
        assert(next == all[i as int]);
        assert(results@ =~= all.skip(i + 1));
        let mut at: usize = 0;
        while at < ranking.len() && (ranking[at].sum > next.sum || (ranking[at].sum == next.sum
            && ranking[at].first > next.first))
            invariant
                at <= ranking@.len(),
                rank_slot(ranking@, next) == at + rank_slot(ranking@.skip(at as int), next),
            decreases ranking@.len() - at,
        {
            assert(ranking@.skip(at as int).drop_first() =~= ranking@.skip(at + 1));
            at += 1;
        }
        assert(all.take(i + 1).drop_last() =~= all.take(i as int));
        ranking.insert(at, next);
        i += 1;
    }
    assert(all.take(i as int) =~= all);
    ranking
}

/// Lets every token that lies unshown show its type.
pub fn reveal_all(holders: &mut Vec<UserTokens>, map: &GameMap)
    requires
        forall|h: int, t: int|
            0 <= h < old(holders)@.len() && 0 <= t < old(holders)@[h].tokens@.len() && (
            #[trigger] old(holders)@[h].tokens@[t]).placed
                && old(holders)@[h].tokens@[t].secret.sector_type is None ==> 1 <= old(
                holders,
            )@[h].tokens@[t].secret.sector_index <= map.sectors@.len(),
    ensures
        all_end_shown(final(holders)@, old(holders)@, map.sectors@),
{
    let ghost truth = map.sectors@;
    let mut h: usize = 0;
    while h < holders.len()
        invariant
            truth == map.sectors@,
            h <= holders@.len(),
            holders@.len() == old(holders)@.len(),
            forall|a: int| h <= a < holders@.len() ==> (#[trigger] holders@[a]) == old(holders)@[a],
            forall|a: int|
                0 <= a < h ==> (#[trigger] holders@[a]).user_id == old(holders)@[a].user_id
                    && holders@[a].tokens@.len() == old(holders)@[a].tokens@.len(),
            forall|a: int, b: int|
                0 <= a < h && 0 <= b < old(holders)@[a].tokens@.len() ==> (
                #[trigger] holders@[a].tokens@[b]) == end_shown(truth, old(holders)@[a].tokens@[b]),
            forall|a: int, b: int|
                0 <= a < old(holders)@.len() && 0 <= b < old(holders)@[a].tokens@.len() && (
                #[trigger] old(holders)@[a].tokens@[b]).placed
                    && old(holders)@[a].tokens@[b].secret.sector_type is None ==> 1 <= old(
                    holders,
                )@[a].tokens@[b].secret.sector_index <= truth.len(),
        decreases holders@.len() - h,
    {
        let mut holder = holders.remove(h);
        let ghost first = holder.tokens@;
        assert(first == old(holders)@[h as int].tokens@);
        let mut t: usize = 0;
        while t < holder.tokens.len()
            invariant
                truth == map.sectors@,
                t <= holder.tokens@.len(),
                holder.tokens@.len() == first.len(),
                holder.user_id == old(holders)@[h as int].user_id,
                forall|b: int| t <= b < first.len() ==> (#[trigger] holder.tokens@[b]) == first[b],
                forall|b: int|
                    0 <= b < t ==> (#[trigger] holder.tokens@[b]) == end_shown(truth, first[b]),
                forall|b: int|
                    0 <= b < first.len() && (#[trigger] first[b]).placed
                        && first[b].secret.sector_type is None ==> 1 <= first[b].secret.sector_index
                        <= truth.len(),
            decreases holder.tokens@.len() - t,
        {
            let mut token = holder.tokens.remove(t);
            assert(token == first[t as int]);
            if token.reveal_in_the_end() {
                if !map.meeting_check(token.secret.sector_index, &token.sector_type) {
                    token.secret.meeting_index = 4;
                }
            }
            holder.tokens.insert(t, token);
            t += 1;
        }
        holders.insert(h, holder);
        h += 1;
    }
}

/// The results of the players of a game that is over, in the order of the
/// players.
pub open spec fn summaries(
    map_type: MapType,
    holders: Seq<UserTokens>,
    users: Seq<UserState>,
    board: nat,
    terminator_step: int,
) -> Seq<UserResultSummary> {
    Seq::new(users.len(), |i: int| summary(map_type, holders, users[i], board, terminator_step))
}

/// Whether the points of a player can be counted.
pub open spec fn can_sum(
    map_type: MapType,
    holders: Seq<UserTokens>,
    user: UserState,
    board: nat,
    terminator_step: int,
) -> bool {
    &&& user.location.round >= 1
    &&& steps_of(user) <= usize::MAX
    &&& score(map_type, holders, user, board, terminator_step) <= usize::MAX
}

/// How far the player who located X had come; 0 while nobody has.
pub open spec fn terminator_steps(ss: ServerGameState) -> int {
    match ss.terminator_location {
        Some(t) => (t.round - 1) * t.max + t.index,
        None => 0,
    }
}

/// Whether a game can be brought to its end: every token that lies
/// unshown lies on a sector of the board, the way of the player who
/// located X can be counted, and so can the points of every player once
/// the tokens show their types.
pub open spec fn can_finish(room: Room) -> bool {
    let holders = room.ss.user_tokens@;
    let truth = room.ss.map.sectors@;
    &&& forall|h: int, t: int|
        0 <= h < holders.len() && 0 <= t < holders[h].tokens@.len() && (
        #[trigger] holders[h].tokens@[t]).placed && holders[h].tokens@[t].secret.sector_type is None
            ==> 1 <= holders[h].tokens@[t].secret.sector_index <= truth.len()
    &&& room.ss.terminator_location matches Some(t) ==> t.round >= 1 && terminator_steps(room.ss)
        <= usize::MAX
    &&& forall|after: Seq<UserTokens>, i: int|
        #![trigger all_end_shown(after, holders, truth), room.gs.users@[i]]
        all_end_shown(after, holders, truth) && 0 <= i < room.gs.users@.len() ==> can_sum(
            room.ss.map.map_type,
            after,
            room.gs.users@[i],
            room.gs.map_type.sector_count() as nat,
            terminator_steps(room.ss),
        )
}

fn is_last_mover_point(users: &Vec<UserState>, p: &PointInfo) -> (r: bool)
    ensures
        r == is_last_mover(users@, *p),
{
    match &p.kind {
        PointType::User(id) => {
            let k = find_user(users, id.as_str());
            k < users.len() && users[k].last_move
        },
        _ => false,
    }
}

/// What holds after the players were called for their last moves: the
/// first along the track who has one to make is waited for; `called` is
/// false and nothing has changed where nobody has.
pub open spec fn last_movers_called(after: Room, before: Room, called: bool) -> bool {
    let points = ordered(user_points(before.gs.users@), true);
    let k = last_mover_at(points, before.gs.users@);
    if k < points.len() {
        &&& called
        &&& same_table(after.gs, before.gs)
        &&& same_window(after.gs, before.gs)
        &&& after.gs.game_stage == before.gs.game_stage
        &&& points[k].kind matches PointType::User(id) && waits_for(after.gs, seq![id@])
            && hint_reads(after.gs, name_of(before.gs.users@, id@) + " should make last move"@)
    } else {
        !called && after.gs == before.gs
    }
}

/// What holds of a game that was brought to its end: the tokens show
/// their types, and the results of the players are ranked.
pub open spec fn finished(after: Room, before: Room) -> bool {
    &&& same_window(after.gs, before.gs)
    &&& after.gs.id == before.gs.id
    &&& after.gs.users == before.gs.users
    &&& after.gs.map_seed == before.gs.map_seed
    &&& after.gs.map_type == before.gs.map_type
    &&& after.gs.status == GameState::End
    &&& after.gs.game_stage == GameStage::GameEnd
    &&& hint_reads(after.gs, "Game Over!"@)
    &&& after.ss == (ServerGameState { user_tokens: after.ss.user_tokens, ..before.ss })
    &&& all_end_shown(after.ss.user_tokens@, before.ss.user_tokens@, before.ss.map.sectors@)
    &&& after.gs.game_result matches Some(list) && list@ == ranked(
        summaries(
            before.ss.map.map_type,
            after.ss.user_tokens@,
            before.gs.users@,
            before.gs.map_type.sector_count() as nat,
            terminator_steps(before.ss),
        ),
    )
}

impl Room {
    /// Calls the players for their last moves, one after the other along
    /// the track. Says whether one was called.
    pub fn call_last_movers(&mut self) -> (called: bool)
        ensures
            final(self).ss == old(self).ss,
            final(self).choices == old(self).choices,
            last_movers_called(*final(self), *old(self), called),
    {
        let points = sort_users_points(&self.gs);
        let mut k: usize = 0;
        while k < points.len() && !is_last_mover_point(&self.gs.users, &points[k])
            invariant
                *self == *old(self),
                k <= points@.len(),
                last_mover_at(points@, self.gs.users@) == k + last_mover_at(
                    points@.skip(k as int),
                    self.gs.users@,
                ),
            decreases points@.len() - k,
        {
            assert(points@.skip(k as int).drop_first() =~= points@.skip(k + 1));
            k += 1;
        }
        if k >= points.len() {
            return false;
        }
        match &points[k].kind {
            PointType::User(id) => {
                let mut hint = name_in(&self.gs.users, id.as_str());
                hint.append(" should make last move");
                let mut list: Vec<String> = Vec::new();
                list.push(id.clone());
                self.gs.status = GameState::Wait(list);
                self.gs.hint = Some(hint);
            },
            _ => {},
        }
        true
    }

    /// Brings a game to its end: the tokens show their types, and the
    /// results of the players are counted and ranked.
    pub fn finish(&mut self)
        requires
            can_finish(*old(self)),
        ensures
            final(self).choices == old(self).choices,
            finished(*final(self), *old(self)),
    {
        self.gs.status = GameState::End;
        self.gs.game_stage = GameStage::GameEnd;
        self.gs.hint = Some(String::from_str("Game Over!"));
        reveal_all(&mut self.ss.user_tokens, &self.ss.map);
        let terminator_step: usize = match &self.ss.terminator_location {
            Some(t) => t.step(),
            None => 0,
        };
        let board = self.gs.map_type.sector_count();
        let ghost holders = self.ss.user_tokens@;
        let ghost all = summaries(
            self.ss.map.map_type,
            holders,
            self.gs.users@,
            board as nat,
            terminator_step as int,
        );
        let mut results: Vec<UserResultSummary> = Vec::new();
        let mut i: usize = 0;
        while i < self.gs.users.len()
            invariant
                i <= self.gs.users@.len(),
                self.gs.users == old(self).gs.users,
                self.gs.map_type == old(self).gs.map_type,
                self.ss.map == old(self).ss.map,
                self.ss.terminator_location == old(self).ss.terminator_location,
                holders == self.ss.user_tokens@,
                board == self.gs.map_type.sector_count(),
                terminator_step == terminator_steps(old(self).ss),
                all_end_shown(holders, old(self).ss.user_tokens@, old(self).ss.map.sectors@),
                can_finish(*old(self)),
                all == summaries(
                    self.ss.map.map_type,
                    holders,
                    self.gs.users@,
                    board as nat,
                    terminator_step as int,
                ),
                results@ == all.take(i as int),
            decreases self.gs.users@.len() - i,
        {
            assert(can_sum(
                old(self).ss.map.map_type,
                holders,
                old(self).gs.users@[i as int],
                board as nat,
                terminator_step as int,
            ));
            let result = summary_of(
                self.ss.map.map_type,
                &self.ss.user_tokens,
                &self.gs.users[i],
                board,
                terminator_step,
            );
            results.push(result);
            assert(results@ =~= all.take(i + 1));
            i += 1;
        }
        assert(all.take(i as int) =~= all);
        self.gs.game_result = Some(rank_results(results));
    }
}

} // verus!

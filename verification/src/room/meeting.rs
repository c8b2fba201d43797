use vstd::prelude::*;

use super::game_state::{
    find_holder, holder_position, GameStage, GameState, GameStateResp, ServerGameState, UserTokens,
};
use super::play::Room;
use super::stages::{
    can_be_led, hint_reads, name_in, name_of, same_table, same_window, waits_for,
};
use super::turn::{
    find_next_point, lemma_next_point_on_track, move_window, moved_window, next_point, ordered,
    sort_users_points, user_points, PointInfo, PointType,
};
use crate::map::model::{slice_contains, SecretToken, Token};

verus! {

broadcast use vstd::seq_lib::group_seq_properties;

/// Whether a list of tokens holds one that is in hand for a meeting.
pub open spec fn holds_ready(tokens: Seq<Token>) -> bool {
    exists|i: int| 0 <= i < tokens.len() && (#[trigger] tokens[i]).spec_any_ready_published()
}

/// Whether a player has a token in hand for a meeting.
pub open spec fn has_ready(holders: Seq<UserTokens>, id: Seq<char>) -> bool {
    let k = holder_position(holders, id);
    k < holders.len() && holds_ready(holders[k].tokens@)
}

/// Whether a point is that of a player who has a token in hand.
pub open spec fn is_publisher(holders: Seq<UserTokens>, p: PointInfo) -> bool {
    p.kind matches PointType::User(id) && has_ready(holders, id@)
}

/// The first point of a list that is a player's who has a token in hand,
/// or the length of the list.
pub open spec fn publisher_at(points: Seq<PointInfo>, holders: Seq<UserTokens>) -> int
    decreases points.len(),
{
    if points.len() == 0 {
        0
    } else if is_publisher(holders, points[0]) {
        0
    } else {
        1 + publisher_at(points.drop_first(), holders)
    }
}

/// The sectors of the tokens of a list that were checked and revealed.
pub open spec fn revealed_of(tokens: Seq<Token>) -> Seq<usize>
    decreases tokens.len(),
{
    if tokens.len() == 0 {
        Seq::empty()
    } else if tokens.last().spec_is_revealed_checked() {
        revealed_of(tokens.drop_last()).push(tokens.last().secret.sector_index)
    } else {
        revealed_of(tokens.drop_last())
    }
}

/// The sectors of the tokens of all players that were checked and
/// revealed.
pub open spec fn revealed_among(holders: Seq<UserTokens>) -> Seq<usize>
    decreases holders.len(),
{
    if holders.len() == 0 {
        Seq::empty()
    } else {
        revealed_among(holders.drop_last()) + revealed_of(holders.last().tokens@)
    }
}

/// A token after a meeting: one step nearer to its check if it lies
/// unrevealed on a sector that none of the sectors in `revealed` is.
pub open spec fn pushed(token: Token, revealed: Seq<usize>) -> Token {
    if token.moves_at_meeting(revealed) {
        Token {
            secret: SecretToken {
                meeting_index: (token.secret.meeting_index - 1) as usize,
                ..token.secret
            },
            ..token
        }
    } else {
        token
    }
}

/// Whether the tokens of `after` are those of `before` after a meeting
/// with the sectors in `revealed` revealed.
pub open spec fn all_pushed(after: Seq<UserTokens>, before: Seq<UserTokens>, revealed: Seq<usize>)
    -> bool {
    &&& after.len() == before.len()
    &&& forall|h: int|
        0 <= h < before.len() ==> (#[trigger] after[h]).user_id == before[h].user_id
            && after[h].tokens@.len() == before[h].tokens@.len()
    &&& forall|h: int, t: int|
        0 <= h < before.len() && 0 <= t < before[h].tokens@.len() ==> (
        #[trigger] after[h].tokens@[t]) == pushed(before[h].tokens@[t], revealed)
}

/// Whether some token is due to be checked.
pub open spec fn any_due(holders: Seq<UserTokens>) -> bool {
    exists|h: int, t: int|
        0 <= h < holders.len() && 0 <= t < holders[h].tokens@.len() && (
        #[trigger] holders[h].tokens@[t]).spec_any_ready_checked()
}

fn holds_ready_token(tokens: &Vec<Token>) -> (r: bool)
    ensures
        r == holds_ready(tokens@),
{
    let mut i: usize = 0;
    while i < tokens.len()
        invariant
            i <= tokens@.len(),
            forall|j: int| 0 <= j < i ==> !(#[trigger] tokens@[j]).spec_any_ready_published(),
        decreases tokens@.len() - i,
    {
        if tokens[i].any_ready_published() {
            return true;
        }
        i += 1;
    }
    false
}

/// Whether a player has a token in hand for a meeting.
pub fn has_ready_token(holders: &Vec<UserTokens>, id: &str) -> (r: bool)
    ensures
        r == has_ready(holders@, id@),
{
    let k = find_holder(holders, id);
    k < holders.len() && holds_ready_token(&holders[k].tokens)
}

/// The sectors of the tokens of all players that were checked and
/// revealed.
pub fn revealed_sectors(holders: &Vec<UserTokens>) -> (r: Vec<usize>)
    ensures
        r@ == revealed_among(holders@),
{
    let mut revealed: Vec<usize> = Vec::new();
    let mut h: usize = 0;
    while h < holders.len()
        invariant
            h <= holders@.len(),
            revealed@ == revealed_among(holders@.take(h as int)),
        decreases holders@.len() - h,
    {
        let ghost upto = revealed@;
        let mut t: usize = 0;
        while t < holders[h].tokens.len()
            invariant
                h < holders@.len(),
                t <= holders@[h as int].tokens@.len(),
                revealed@ == upto + revealed_of(holders@[h as int].tokens@.take(t as int)),
            decreases holders@[h as int].tokens@.len() - t,
        {
            assert(holders@[h as int].tokens@.take(t + 1).drop_last()
                =~= holders@[h as int].tokens@.take(t as int));
            if holders[h].tokens[t].is_revealed_checked() {
                revealed.push(holders[h].tokens[t].secret.sector_index);
            }
            assert(revealed@ =~= upto + revealed_of(holders@[h as int].tokens@.take(t + 1)));
            t += 1;
        }
        assert(holders@[h as int].tokens@.take(t as int) =~= holders@[h as int].tokens@);
        assert(holders@.take(h + 1).drop_last() =~= holders@.take(h as int));
        h += 1;
    }
    assert(holders@.take(h as int) =~= holders@);
    revealed
}

/// Moves the tokens of one player one step nearer to their check.
fn push_tokens(tokens: &mut Vec<Token>, revealed: &Vec<usize>)
    ensures
        final(tokens)@.len() == old(tokens)@.len(),
        forall|t: int|
            0 <= t < old(tokens)@.len() ==> (#[trigger] final(tokens)@[t]) == pushed(
                old(tokens)@[t],
                revealed@,
            ),
{
    let mut t: usize = 0;
    while t < tokens.len()
        invariant
            t <= tokens@.len(),
            tokens@.len() == old(tokens)@.len(),
            forall|j: int|
                0 <= j < t ==> (#[trigger] tokens@[j]) == pushed(old(tokens)@[j], revealed@),
            forall|j: int| t <= j < tokens@.len() ==> (#[trigger] tokens@[j]) == old(tokens)@[j],
        decreases tokens@.len() - t,
    {
        let mut token = tokens.remove(t);
        token.push_at_meeting(revealed.as_slice());
        tokens.insert(t, token);
        t += 1;
    }
}

/// Moves the tokens of all players one step nearer to their check.
pub fn push_all(holders: &mut Vec<UserTokens>, revealed: &Vec<usize>)
    ensures
        all_pushed(final(holders)@, old(holders)@, revealed@),
{
    let mut h: usize = 0;
    while h < holders.len()
        invariant
            h <= holders@.len(),
            holders@.len() == old(holders)@.len(),
            all_pushed(holders@.take(h as int), old(holders)@.take(h as int), revealed@),
            forall|j: int| h <= j < holders@.len() ==> (#[trigger] holders@[j]) == old(holders)@[j],
        decreases holders@.len() - h,
    {
        let ghost before = holders@;
        let mut holder = holders.remove(h);
        push_tokens(&mut holder.tokens, revealed);
        holders.insert(h, holder);
        proof {
            let after = holders@.take(h + 1);
            let first = old(holders)@.take(h + 1);
            assert forall|a: int| 0 <= a < first.len() implies (#[trigger] after[a]).user_id
                == first[a].user_id && after[a].tokens@.len() == first[a].tokens@.len() by {
                if a < h {
                    assert(after[a] == before.take(h as int)[a]);
                }
            }
            assert forall|a: int, b: int|
                0 <= a < first.len() && 0 <= b < first[a].tokens@.len() implies (
            #[trigger] after[a].tokens@[b]) == pushed(first[a].tokens@[b], revealed@) by {
                if a < h {
                    assert(after[a] == before.take(h as int)[a]);
                    assert(before.take(h as int)[a].tokens@[b] == pushed(
                        old(holders)@.take(h as int)[a].tokens@[b],
                        revealed@,
                    ));
                }
            }
        }
        h += 1;
    }
    assert(holders@.take(h as int) =~= holders@);
    assert(old(holders)@.take(h as int) =~= old(holders)@);
}

/// Whether some token is due to be checked.
pub fn any_due_token(holders: &Vec<UserTokens>) -> (r: bool)
    ensures
        r == any_due(holders@),
{
    let mut h: usize = 0;
    while h < holders.len()
        invariant
            h <= holders@.len(),
            forall|a: int, b: int|
                0 <= a < h && 0 <= b < holders@[a].tokens@.len() ==> !(
                #[trigger] holders@[a].tokens@[b]).spec_any_ready_checked(),
        decreases holders@.len() - h,
    {
        let mut t: usize = 0;
        while t < holders[h].tokens.len()
            invariant
                h < holders@.len(),
                t <= holders@[h as int].tokens@.len(),
                forall|b: int|
                    0 <= b < t ==> !(#[trigger] holders@[h as int].tokens@[b]).spec_any_ready_checked(),
            decreases holders@[h as int].tokens@.len() - t,
        {
            if holders[h].tokens[t].any_ready_checked() {
                return true;
            }
            t += 1;
        }
        h += 1;
    }
    false
}

/// Whether a point is that of a player who has a token in hand.
fn is_publisher_point(holders: &Vec<UserTokens>, p: &PointInfo) -> (r: bool)
    ensures
        r == is_publisher(holders@, *p),
{
    match &p.kind {
        PointType::User(id) => has_ready_token(holders, id.as_str()),
        _ => false,
    }
}

/// What holds after the players were called to publish. The first along
/// the track who has a token in hand is waited for. Where nobody has, the
/// tokens move one step nearer to their check; if one is due, the check is
/// next, else the game goes on to the point behind the next, or ends for
/// want of one.
pub open spec fn publishers_called(after: Room, before: Room, ended: bool) -> bool {
    let points = ordered(user_points(before.gs.users@), true);
    let k = publisher_at(points, before.ss.user_tokens@);
    if k < points.len() {
        &&& !ended
        &&& after.ss == before.ss
        &&& same_window(after.gs, before.gs)
        &&& after.gs.game_stage == before.gs.game_stage
        &&& points[k].kind matches PointType::User(id) && waits_for(after.gs, seq![id@])
            && hint_reads(after.gs, name_of(before.gs.users@, id@) + " should publish"@)
    } else {
        &&& all_pushed(
            after.ss.user_tokens@,
            before.ss.user_tokens@,
            revealed_among(before.ss.user_tokens@),
        )
        &&& after.ss == (ServerGameState { user_tokens: after.ss.user_tokens, ..before.ss })
        &&& if any_due(after.ss.user_tokens@) {
            &&& !ended
            &&& same_window(after.gs, before.gs)
            &&& after.gs.status == GameState::AutoMove
            &&& after.gs.game_stage == GameStage::MeetingCheck
            &&& hint_reads(after.gs, "Push forward triggle Meeting check, Wait Checking..."@)
        } else {
            pushed_forward(after.gs, before.gs, ended)
        }
    }
}

/// What holds of a game that was pushed forward past the point that is
/// next: its window begins at the point behind, and the players move
/// again; or it has ended for want of a point.
pub open spec fn pushed_forward(after: GameStateResp, before: GameStateResp, ended: bool) -> bool {
    &&& after.game_stage == GameStage::UserMove
    &&& match next_point(before, true) {
        None => {
            &&& ended
            &&& same_window(after, before)
            &&& after.status == GameState::End
            &&& hint_reads(after, "No more points"@)
        },
        Some(q) => {
            &&& !ended
            &&& same_window(after, moved_window(before, q.index))
            &&& after.status == GameState::AutoMove
            &&& hint_reads(after, "Push forward"@)
        },
    }
}

/// Pushes a game forward past the point that is next. Says whether the
/// game has ended for want of a point.
pub fn push_forward(gs: &mut GameStateResp) -> (ended: bool)
    requires
        old(gs).round < usize::MAX,
        forall|i: int|
            0 <= i < old(gs).users@.len() ==> (#[trigger] old(gs).users@[i]).location.index
                <= usize::MAX - 18,
    ensures
        same_table(*final(gs), *old(gs)),
        pushed_forward(*final(gs), *old(gs), ended),
{
    let second = find_next_point(gs, true);
    proof {
        lemma_next_point_on_track(*gs, true);
    }
    gs.status = GameState::AutoMove;
    gs.game_stage = GameStage::UserMove;
    gs.hint = Some(String::from_str("Push forward"));
    match second {
        Some(second) => {
            move_window(gs, &second);
            false
        },
        None => {
            gs.status = GameState::End;
            gs.hint = Some(String::from_str("No more points"));
            true
        },
    }
}

impl Room {
    /// Calls the players to publish the tokens they have in hand, one
    /// after the other along the track; when none has any, the meeting is
    /// over. Says whether the game has ended for want of a point.
    pub fn call_publishers(&mut self) -> (ended: bool)
        requires
            can_be_led(*old(self)),
        ensures
            same_table(final(self).gs, old(self).gs),
            final(self).choices == old(self).choices,
            publishers_called(*final(self), *old(self), ended),
    {
        let points = sort_users_points(&self.gs);
        let mut k: usize = 0;
        while k < points.len() && !is_publisher_point(&self.ss.user_tokens, &points[k])
            invariant
                *self == *old(self),
                k <= points@.len(),
                publisher_at(points@, self.ss.user_tokens@) == k + publisher_at(
                    points@.skip(k as int),
                    self.ss.user_tokens@,
                ),
            decreases points@.len() - k,
        {
            assert(points@.skip(k as int).drop_first() =~= points@.skip(k + 1));
            k += 1;
        }
        if k < points.len() {
            match &points[k].kind {
                PointType::User(id) => {
                    let mut hint = name_in(&self.gs.users, id.as_str());
                    hint.append(" should publish");
                    let mut list: Vec<String> = Vec::new();
                    list.push(id.clone());
                    self.gs.status = GameState::Wait(list);
                    self.gs.hint = Some(hint);
                },
                _ => {},
            }
            return false;
        }
        let revealed = revealed_sectors(&self.ss.user_tokens);
        push_all(&mut self.ss.user_tokens, &revealed);
        if any_due_token(&self.ss.user_tokens) {
            self.gs.status = GameState::AutoMove;
            self.gs.game_stage = GameStage::MeetingCheck;
            self.gs.hint = Some(
                String::from_str("Push forward triggle Meeting check, Wait Checking..."),
            );
            false
        } else {
            push_forward(&mut self.gs)
        }
    }

    /// Gathers the tokens that the players have taken in hand: the
    /// proposals are in, and publishing is next.
    pub fn gather_tokens(&mut self)
        ensures
            same_table(final(self).gs, old(self).gs),
            same_window(final(self).gs, old(self).gs),
            final(self).gs.status == old(self).gs.status,
            final(self).gs.game_stage == GameStage::MeetingPublish,
            hint_reads(final(self).gs, "Gathering all tokens, ready for Meeting publish"@),
            final(self).ss == old(self).ss,
            final(self).choices == old(self).choices,
    {
        self.gs.game_stage = GameStage::MeetingPublish;
        self.gs.hint = Some(String::from_str("Gathering all tokens, ready for Meeting publish"));
    }
}

} // verus!

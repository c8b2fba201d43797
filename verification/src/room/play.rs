use vstd::prelude::*;

use super::game_state::{
    find_user, same_text, first_ready, first_unused, holder_position, locations_of, place_all, position_of,
    user_position, GameStage, GameState, GameStateResp, ServerGameState, UserLocationSequence,
    UserState,
};
use super::server_resp::{OpError, RecommendError};
use crate::map::choicefilter::{locate_signature, op_valid, ChoiceFilter};
use crate::map::clue::{all_clues_hold, check_all_clues, clue_holds, Clue, ClueEnum};
use crate::map::laws::true_answer;
use crate::map::model::{
    lemma_range_count_bound, locate_result, range_count, slice_contains, spec_validate_index_in_range, target_result,
    validate_index_in_range, MapType, SectorType, Sectors, Token,
};
use crate::map::validity::is_prime_place;
use crate::operation::{
    same_operation, DoPublishOperation, LocateOperation, Operation, OperationResult, ReadyPublishOperation,
    ResearchOperation, SurveyOperatoin, TargetOperation,
};
use crate::recommendation::best_move::targets_among;
use crate::recommendation::{RecommendOperation, RecommendOperationResult};

verus! {

broadcast use vstd::seq_lib::group_seq_properties;

/// What one player can still take the layout to be.
#[derive(Debug, Clone)]
pub struct PlayerFilter {
    pub user_id: String,
    pub filter: ChoiceFilter,
}

/// A room: what its players see of the game, what the server keeps to
/// itself, and the filter of each player.
#[derive(Debug, Clone)]
pub struct Room {
    pub gs: GameStateResp,
    pub ss: ServerGameState,
    /// The filters of the players, each player once.
    pub choices: Vec<PlayerFilter>,
}

/// The first filter of a list that is the given player's, or the length of
/// the list.
pub open spec fn filter_position(choices: Seq<PlayerFilter>, id: Seq<char>) -> int
    decreases choices.len(),
{
    if choices.len() == 0 {
        0
    } else if choices[0].user_id@ == id {
        0
    } else {
        1 + filter_position(choices.drop_first(), id)
    }
}

/// Whether a stage of the game lets a player do an operation.
pub open spec fn stage_allows(op: Operation, stage: GameStage) -> bool {
    match (op, stage) {
        (Operation::Survey(_), GameStage::UserMove) => true,
        (Operation::Target(_), GameStage::UserMove) => true,
        (Operation::Research(_), GameStage::UserMove) => true,
        (Operation::Locate(_), GameStage::UserMove) => true,
        (Operation::ReadyPublish(_), GameStage::MeetingProposal) => true,
        (Operation::DoPublish(_), GameStage::MeetingPublish) => true,
        (Operation::DoPublish(_), GameStage::LastMove) => true,
        (Operation::Locate(_), GameStage::LastMove) => true,
        _ => false,
    }
}

/// How many sectors a survey passes over after its first.
pub open spec fn survey_span(n: int, s: SurveyOperatoin) -> int {
    if s.start <= s.end {
        s.end - s.start
    } else {
        s.end + n - s.start
    }
}

/// The first research clue with the given letter, or the number of clues.
pub open spec fn clue_position(clues: Seq<Clue>, index: ClueEnum) -> int
    decreases clues.len(),
{
    if clues.len() == 0 {
        0
    } else if clues[0].index == index {
        0
    } else {
        1 + clue_position(clues.drop_first(), index)
    }
}

/// What a survey is answered, or why it is turned down: its ends lie in the
/// window, the later no earlier than the first; it does not ask for X; and a
/// survey for comets begins and ends on prime positions.
pub open spec fn survey_answer(room: Room, s: SurveyOperatoin) -> Result<OperationResult, OpError> {
    let n = room.ss.map.sectors@.len() as int;
    if !spec_validate_index_in_range(
        room.gs.start_index as int,
        room.gs.end_index as int,
        s.start as int,
        Some(s.end),
        n,
    ) {
        Err(OpError::InvalidIndex)
    } else if s.sector_type == SectorType::X {
        Err(OpError::InvalidSectorType)
    } else if s.sector_type == SectorType::Comet && (!is_prime_place(s.start as int)
        || !is_prime_place(s.end as int)) {
        Err(OpError::InvalidIndexOfPrime)
    } else {
        Ok(
            OperationResult::Survey(
                range_count(room.ss.map.sectors@, s.start as int, s.end as int, s.sector_type)
                    as usize,
            ),
        )
    }
}

/// What a target is answered, or why it is turned down: a player targets no
/// more than twice, and only within the window.
pub open spec fn target_answer(room: Room, user: UserState, t: TargetOperation) -> Result<
    OperationResult,
    OpError,
> {
    let n = room.ss.map.sectors@.len() as int;
    if targets_among(user.moves@) >= 2 {
        Err(OpError::TargetTimeExhausted)
    } else if !spec_validate_index_in_range(
        room.gs.start_index as int,
        room.gs.end_index as int,
        t.index as int,
        None,
        n,
    ) {
        Err(OpError::InvalidIndex)
    } else {
        Ok(OperationResult::Target(target_result(room.ss.map.sectors@, t.index as int)))
    }
}

/// What a research is answered, or why it is turned down: a player does not
/// research twice in a row, and the clue asked for has to be there.
pub open spec fn research_answer(room: Room, user: UserState, r: ResearchOperation) -> Result<
    OperationResult,
    OpError,
> {
    let clues = room.ss.research_clues@;
    if user.moves@.len() > 0 && user.moves@.last() is Research {
        Err(OpError::ResearchContiuously)
    } else if clue_position(clues, r.index) >= clues.len() {
        Err(OpError::InvalidClue)
    } else {
        Ok(OperationResult::Research(clues[clue_position(clues, r.index)]))
    }
}

/// What a locate is answered, or why it is turned down: once X has been
/// located, each player may try once more and no more.
pub open spec fn locate_answer(room: Room, user: UserState, l: LocateOperation) -> Result<
    OperationResult,
    OpError,
> {
    if room.ss.terminator_location is Some && !user.can_locate {
        Err(OpError::EndGameCanNotLocate)
    } else {
        Ok(
            OperationResult::Locate(
                locate_result(
                    room.ss.map.sectors@,
                    l.index as int,
                    l.pre_sector_type,
                    l.next_sector_type,
                ),
            ),
        )
    }
}

/// What laying down tokens is answered, or why it is turned down: the player
/// has to hold a token for each type.
pub open spec fn ready_publish_answer(room: Room, id: Seq<char>, rp: ReadyPublishOperation)
    -> Result<OperationResult, OpError> {
    let k = holder_position(room.ss.user_tokens@, id);
    if k >= room.ss.user_tokens@.len() {
        Err(OpError::UserNotFoundInRoom)
    } else if place_all(room.ss.user_tokens@[k].tokens@, rp.sectors@) is None {
        Err(OpError::TokenNotEnough)
    } else {
        Ok(OperationResult::ReadyPublish(rp.sectors@.len() as usize))
    }
}

/// What publishing a token is answered, or why it is turned down: the sector
/// must not be revealed yet, and the player has to have a token of the type
/// in hand, or unused in the last move.
pub open spec fn publish_answer(room: Room, id: Seq<char>, dp: DoPublishOperation) -> Result<
    OperationResult,
    OpError,
> {
    let k = holder_position(room.ss.user_tokens@, id);
    if room.ss.revealed_sector_indexs@.contains(dp.index) {
        Err(OpError::SectorAlreadyRevealed)
    } else if k >= room.ss.user_tokens@.len() {
        Err(OpError::UserNotFoundInRoom)
    } else {
        let tokens = room.ss.user_tokens@[k].tokens@;
        let found = if room.ss.terminator_location is Some {
            first_unused(tokens, dp.sector_type)
        } else {
            first_ready(tokens, dp.sector_type)
        };
        if found >= tokens.len() {
            Err(OpError::TokenNotEnough)
        } else {
            Ok(OperationResult::DoPublish((dp.index, dp.sector_type)))
        }
    }
}

/// What an operation of a player in the room is answered, or why it is
/// turned down. The game has to wait for the player, the stage has to allow
/// the operation, the operation has to keep its own rules, and the player
/// has to have a filter for what is learned.
pub open spec fn action_answer(room: Room, id: Seq<char>, op: Operation) -> Result<
    OperationResult,
    OpError,
> {
    let answer = rules_answer(room, id, op);
    if answer is Ok && (filter_position(room.choices@, id) >= room.choices@.len()
        || user_position(room.gs.users@, id) >= room.gs.users@.len()) {
        Err(OpError::UserNotFoundInRoom)
    } else {
        answer
    }
}

/// What the rules of the game answer to an operation of a player in the
/// room, or why they turn it down.
pub open spec fn rules_answer(room: Room, id: Seq<char>, op: Operation) -> Result<
    OperationResult,
    OpError,
> {
    let k = user_position(room.gs.users@, id);
    if !(room.gs.status matches GameState::Wait(list) && position_of(list@, id) < list@.len()) {
        Err(OpError::NotUsersTurn)
    } else if !stage_allows(op, room.gs.game_stage) {
        Err(OpError::InvalidMoveInStage)
    } else if k >= room.gs.users@.len() {
        match op {
            Operation::Survey(s) => if survey_answer(room, s) is Err {
                survey_answer(room, s)
            } else {
                Err(OpError::UserNotFoundInRoom)
            },
            Operation::ReadyPublish(rp) => ready_publish_answer(room, id, rp),
            Operation::DoPublish(dp) => if room.ss.revealed_sector_indexs@.contains(dp.index) {
                Err(OpError::SectorAlreadyRevealed)
            } else if room.ss.terminator_location is Some {
                Err(OpError::UserNotFoundInRoom)
            } else {
                publish_answer(room, id, dp)
            },
            _ => Err(OpError::UserNotFoundInRoom),
        }
    } else {
        let user = room.gs.users@[k];
        match op {
            Operation::Survey(s) => survey_answer(room, s),
            Operation::Target(t) => target_answer(room, user, t),
            Operation::Research(r) => research_answer(room, user, r),
            Operation::Locate(l) => locate_answer(room, user, l),
            Operation::ReadyPublish(rp) => ready_publish_answer(room, id, rp),
            Operation::DoPublish(dp) => publish_answer(room, id, dp),
        }
    }
}

/// The first filter of a list that is the given player's, or the length of
/// the list.
pub fn find_filter(choices: &Vec<PlayerFilter>, id: &str) -> (r: usize)
    ensures
        r == filter_position(choices@, id@),
        r <= choices@.len(),
{
    let mut i: usize = 0;
    while i < choices.len()
        invariant
            i <= choices@.len(),
            filter_position(choices@, id@) == i + filter_position(choices@.skip(i as int), id@),
        decreases choices@.len() - i,
    {
        assert(choices@.skip(i as int).drop_first() =~= choices@.skip(i + 1));
        if same_text(choices[i].user_id.as_str(), id) {
            return i;
        }
        i += 1;
    }
    i
}

/// The first research clue with the given letter, or the number of clues.
pub fn find_clue(clues: &Vec<Clue>, index: ClueEnum) -> (r: usize)
    ensures
        r == clue_position(clues@, index),
        r <= clues@.len(),
{
    let mut i: usize = 0;
    while i < clues.len()
        invariant
            i <= clues@.len(),
            clue_position(clues@, index) == i + clue_position(clues@.skip(i as int), index),
        decreases clues@.len() - i,
    {
        assert(clues@.skip(i as int).drop_first() =~= clues@.skip(i + 1));
        if clues[i].index == index {
            return i;
        }
        i += 1;
    }
    i
}

fn is_prime_index(n: usize) -> (r: bool)
    ensures
        r == is_prime_place(n as int),
{
    n == 2 || n == 3 || n == 5 || n == 7 || n == 11 || n == 13 || n == 17
}

/// How many steps the window of a game spans after its first sector.
pub open spec fn window_span(gs: GameStateResp) -> int {
    let n = gs.map_type.sector_count() as int;
    if gs.start_index <= gs.end_index {
        gs.end_index - gs.start_index
    } else {
        gs.end_index + n - gs.start_index
    }
}

impl Room {
    /// What can be read off the values of a room: the board of its game is
    /// laid out and its research clues are true of it, the window of the
    /// game lies on the board and is no longer than half of it, and the
    /// room has no more than four players.
    pub open spec fn frame_ok(&self) -> bool {
        let n = self.gs.map_type.sector_count();
        &&& self.ss.map.map_type == self.gs.map_type
        &&& self.ss.map.sectors.wf()
        &&& self.ss.map.sectors@.len() == n
        &&& all_clues_hold(self.ss.map.sectors@, self.ss.research_clues@)
        &&& 0 < self.gs.start_index <= n
        &&& 0 < self.gs.end_index <= n
        &&& window_span(self.gs) < n / 2
        &&& self.gs.users@.len() <= 4
    }

    /// The frame of the room is in order, and each filter is in order and
    /// for the board of the game.
    pub open spec fn wf(&self) -> bool {
        &&& self.frame_ok()
        &&& forall|i: int|
            0 <= i < self.choices@.len() ==> (#[trigger] self.choices@[i]).filter.wf()
                && self.choices@[i].filter.board() == self.gs.map_type
    }

    /// The players can still be counted along the track, and no token that
    /// is not placed lies on a sector.
    pub open spec fn can_go_on(&self) -> bool {
        &&& self.ss.terminator_location matches Some(t) ==> t.reach() >= 4
        &&& forall|i: int|
            0 <= i < self.gs.users@.len() ==> (#[trigger] self.gs.users@[i]).location.index
                <= usize::MAX - 5 && self.gs.users@[i].location.round < usize::MAX
        &&& forall|k: int, i: int|
            0 <= k < self.ss.user_tokens@.len() && 0 <= i
                < self.ss.user_tokens@[k].tokens@.len() ==> !(
            #[trigger] self.ss.user_tokens@[k].tokens@[i]).placed
                ==> self.ss.user_tokens@[k].tokens@[i].secret.sector_index == 0
    }

    /// What does not change while a game is played: the board, the clues,
    /// and who is in the room.
    pub open spec fn same_game(&self, before: Room) -> bool {
        &&& self.ss.map == before.ss.map
        &&& self.ss.research_clues == before.ss.research_clues
        &&& self.ss.x_clues == before.ss.x_clues
        &&& self.gs.map_type == before.gs.map_type
        &&& self.gs.start_index == before.gs.start_index
        &&& self.gs.end_index == before.gs.end_index
        &&& self.gs.users@.len() == before.gs.users@.len()
        &&& forall|i: int|
            0 <= i < self.gs.users@.len() ==> (#[trigger] self.gs.users@[i]).id
                == before.gs.users@[i].id
        &&& self.choices@.len() == before.choices@.len()
    }

    fn do_survey(&mut self, user_id: &str, s: &SurveyOperatoin) -> (r: Result<
        OperationResult,
        OpError,
    >)
        requires
            old(self).wf(),
            old(self).can_go_on(),
            survey_answer(*old(self), *s) is Ok ==> survey_span(
                old(self).gs.map_type.sector_count() as int,
                *s,
            ) <= 14,
        ensures
            final(self).wf(),
            final(self).same_game(*old(self)),
            same_records(final(self).gs.users@, old(self).gs.users@),
            final(self).choices == old(self).choices,
            final(self).ss == old(self).ss,
            r == if survey_answer(*old(self), *s) is Ok && user_position(
                old(self).gs.users@,
                user_id@,
            ) >= old(self).gs.users@.len() {
                Err(OpError::UserNotFoundInRoom)
            } else {
                survey_answer(*old(self), *s)
            },
            r is Ok ==> 0 < s.start <= old(self).gs.map_type.sector_count() && 0 < s.end <= old(
                self,
            ).gs.map_type.sector_count(),
            r is Ok ==> final(self).gs.users@[user_position(
                old(self).gs.users@,
                user_id@,
            )].location == place_then(
                *old(self),
                user_position(old(self).gs.users@, user_id@),
                Operation::Survey(*s),
            ),
    {
        let n = self.ss.map.size();
        if !validate_index_in_range(self.gs.start_index, self.gs.end_index, s.start, Some(s.end), n)
        {
            return Err(OpError::InvalidIndex);
        }
        if s.sector_type == SectorType::X {
            return Err(OpError::InvalidSectorType);
        }
        if s.sector_type == SectorType::Comet && (!is_prime_index(s.start) || !is_prime_index(
            s.end,
        )) {
            return Err(OpError::InvalidIndexOfPrime);
        }
        let range_size = if s.start <= s.end {
            s.end - s.start
        } else {
            s.end + n - s.start
        };
        assert(range_size == survey_span(n as int, *s));
        match self.gs.user_move(user_id, 4 - range_size / 3) {
            Ok(_) => {
                assert(self.gs.users@.len() == old(self).gs.users@.len());
            },
            Err(e) => {
                return Err(e);
            },
        }
        Ok(OperationResult::Survey(self.ss.map.survey_sector(s.start, s.end, &s.sector_type)))
    }
}

/// The place of a clue in a list is a place of the list, or its length.
pub proof fn lemma_clue_position_range(clues: Seq<Clue>, index: ClueEnum)
    ensures
        0 <= clue_position(clues, index) <= clues.len(),
    decreases clues.len(),
{
    if clues.len() > 0 && clues[0].index != index {
        lemma_clue_position_range(clues.drop_first(), index);
    }
}

/// The place of a player in a list is a place of the list, or its length.
pub proof fn lemma_user_position_range(users: Seq<UserState>, id: Seq<char>)
    ensures
        0 <= user_position(users, id) <= users.len(),
    decreases users.len(),
{
    if users.len() > 0 && users[0].id@ != id {
        lemma_user_position_range(users.drop_first(), id);
    }
}

/// The place of a player's filter in a list is a place of the list, or its
/// length.
pub proof fn lemma_filter_position_range(choices: Seq<PlayerFilter>, id: Seq<char>)
    ensures
        0 <= filter_position(choices, id) <= choices.len(),
    decreases choices.len(),
{
    if choices.len() > 0 {
        lemma_filter_position_range(choices.drop_first(), id);
    }
}

/// Lists of players with the same identities hold a player at the same
/// place.
pub proof fn lemma_same_ids_same_position(a: Seq<UserState>, b: Seq<UserState>, id: Seq<char>)
    requires
        a.len() == b.len(),
        forall|i: int| 0 <= i < a.len() ==> (#[trigger] a[i]).id == b[i].id,
    ensures
        user_position(a, id) == user_position(b, id),
        0 <= user_position(a, id) <= a.len(),
    decreases a.len(),
{
    if a.len() > 0 {
        assert(a[0].id == b[0].id);
        lemma_same_ids_same_position(a.drop_first(), b.drop_first(), id);
    }
}

/// The players of a list, each with `last_move` set where the player stands
/// behind the place given.
pub open spec fn behind_marked(users: Seq<UserState>, place: UserLocationSequence) -> Seq<
    UserState,
> {
    Seq::new(
        users.len(),
        |i: int| UserState { last_move: users[i].location.reach() < place.reach(), ..users[i] },
    )
}

/// Whether the players of a list have made the same moves and got the
/// same answers as those of another.
pub open spec fn same_records(after: Seq<UserState>, before: Seq<UserState>) -> bool {
    &&& after.len() == before.len()
    &&& forall|i: int|
        0 <= i < before.len() ==> (#[trigger] after[i]).moves == before[i].moves
            && after[i].moves_result == before[i].moves_result
}

/// How many steps an operation costs the player who makes it: a survey the
/// fewer the longer it is, a target four, a research one, a locate five.
pub open spec fn cost(n: int, op: Operation) -> int {
    match op {
        Operation::Survey(s) => 4 - survey_span(n, s) / 3,
        Operation::Target(_) => 4,
        Operation::Research(_) => 1,
        Operation::Locate(_) => 5,
        _ => 0,
    }
}

/// The place that player `k` of a list comes to by `delta` steps: behind
/// the players who are already on the sector reached.
pub open spec fn place_after(users: Seq<UserState>, k: int, delta: usize) -> UserLocationSequence {
    let place = users[k].location.advanced(delta);
    UserLocationSequence {
        child_index: (place.sharing(locations_of(users)) + 1) as usize,
        ..place
    }
}

/// Where the player who makes an operation stands once it is answered:
/// an operation on the board costs its steps, as long as X has not been
/// located; laying down and publishing tokens costs none.
pub open spec fn place_then(room: Room, k: int, op: Operation) -> UserLocationSequence {
    let n = room.gs.map_type.sector_count() as int;
    match op {
        Operation::Survey(_) | Operation::Target(_) | Operation::Research(_) => place_after(
            room.gs.users@,
            k,
            cost(n, op) as usize,
        ),
        Operation::Locate(_) => if room.ss.terminator_location is None {
            place_after(room.gs.users@, k, 5)
        } else {
            room.gs.users@[k].location
        },
        _ => room.gs.users@[k].location,
    }
}

/// Whether an operation can be worked off: a survey that the rules accept
/// spans no more than fourteen steps, and a locate names a sector of the
/// board.
pub open spec fn can_work_off(room: Room, op: Operation) -> bool {
    let n = room.gs.map_type.sector_count() as int;
    match op {
        Operation::Survey(s) => survey_answer(room, s) is Ok ==> survey_span(n, s) <= 14,
        Operation::Locate(l) => 1 <= l.index <= n,
        _ => true,
    }
}

impl Room {
    fn do_target(&mut self, user_id: &str, t: &TargetOperation) -> (r: Result<
        OperationResult,
        OpError,
    >)
        requires
            old(self).wf(),
            old(self).can_go_on(),
            user_position(old(self).gs.users@, user_id@) < old(self).gs.users@.len(),
        ensures
            final(self).wf(),
            final(self).same_game(*old(self)),
            same_records(final(self).gs.users@, old(self).gs.users@),
            final(self).choices == old(self).choices,
            final(self).ss == old(self).ss,
            r == target_answer(
                *old(self),
                old(self).gs.users@[user_position(old(self).gs.users@, user_id@)],
                *t,
            ),
            r is Ok ==> 1 <= t.index <= old(self).gs.map_type.sector_count(),
            r is Ok ==> final(self).gs.users@[user_position(
                old(self).gs.users@,
                user_id@,
            )].location == place_then(
                *old(self),
                user_position(old(self).gs.users@, user_id@),
                Operation::Target(*t),
            ),
    {
        let n = self.ss.map.size();
        let k = find_user(&self.gs.users, user_id);
        let mut count: usize = 0;
        let mut i: usize = 0;
        while i < self.gs.users[k].moves.len()
            invariant
                *self == *old(self),
                k < self.gs.users@.len(),
                i <= self.gs.users@[k as int].moves@.len(),
                count <= i,
                count == targets_among(self.gs.users@[k as int].moves@.take(i as int)),
            decreases self.gs.users@[k as int].moves@.len() - i,
        {
            assert(self.gs.users@[k as int].moves@.take(i + 1).drop_last()
                =~= self.gs.users@[k as int].moves@.take(i as int));
            match self.gs.users[k].moves[i] {
                Operation::Target(_) => {
                    count += 1;
                },
                _ => {},
            }
            i += 1;
        }
        assert(self.gs.users@[k as int].moves@.take(i as int) =~= self.gs.users@[k as int].moves@);
        if count >= 2 {
            return Err(OpError::TargetTimeExhausted);
        }
        if !validate_index_in_range(self.gs.start_index, self.gs.end_index, t.index, None, n) {
            return Err(OpError::InvalidIndex);
        }
        match self.gs.user_move(user_id, 4) {
            Ok(_) => {},
            Err(e) => {
                return Err(e);
            },
        }
        Ok(OperationResult::Target(self.ss.map.target_sector(t.index)))
    }

    fn do_research(&mut self, user_id: &str, r: &ResearchOperation) -> (res: Result<
        OperationResult,
        OpError,
    >)
        requires
            old(self).wf(),
            old(self).can_go_on(),
            user_position(old(self).gs.users@, user_id@) < old(self).gs.users@.len(),
        ensures
            final(self).wf(),
            final(self).same_game(*old(self)),
            same_records(final(self).gs.users@, old(self).gs.users@),
            final(self).choices == old(self).choices,
            final(self).ss == old(self).ss,
            res == research_answer(
                *old(self),
                old(self).gs.users@[user_position(old(self).gs.users@, user_id@)],
                *r,
            ),
            res is Ok ==> final(self).gs.users@[user_position(
                old(self).gs.users@,
                user_id@,
            )].location == place_then(
                *old(self),
                user_position(old(self).gs.users@, user_id@),
                Operation::Research(*r),
            ),
    {
        let k = find_user(&self.gs.users, user_id);
        let moves = self.gs.users[k].moves.len();
        if moves > 0 {
            match self.gs.users[k].moves[moves - 1] {
                Operation::Research(_) => {
                    return Err(OpError::ResearchContiuously);
                },
                _ => {},
            }
        }
        match self.gs.user_move(user_id, 1) {
            Ok(_) => {},
            Err(e) => {
                return Err(e);
            },
        }
        let c = find_clue(&self.ss.research_clues, r.index);
        if c >= self.ss.research_clues.len() {
            return Err(OpError::InvalidClue);
        }
        Ok(OperationResult::Research(self.ss.research_clues[c]))
    }

    /// Sets `last_move` for every player who stands behind the place given.
    fn mark_behind(&mut self, place: &UserLocationSequence)
        ensures
            final(self).gs.users@ == behind_marked(old(self).gs.users@, *place),
            same_records(final(self).gs.users@, old(self).gs.users@),
            *final(self) == (Room {
                gs: GameStateResp { users: final(self).gs.users, ..old(self).gs },
                ..*old(self)
            }),
    {
        let ghost before = self.gs.users@;
        let mut users: Vec<UserState> = Vec::new();
        std::mem::swap(&mut self.gs.users, &mut users);
        let mut marked: Vec<UserState> = Vec::new();
        while users.len() > 0
            invariant
                users@.len() <= before.len(),
                forall|i: int| 0 <= i < users@.len() ==> users@[i] == before[i],
                marked@.len() == before.len() - users@.len(),
                forall|i: int|
                    0 <= i < marked@.len() ==> marked@[i] == behind_marked(before, *place)[
                        before.len() - 1 - i
                    ],
                *self == (Room {
                    gs: GameStateResp { users: self.gs.users, ..old(self).gs },
                    ..*old(self)
                }),
            decreases users@.len(),
        {
            let mut user = users.pop().unwrap();
            user.last_move = user.location.index_lt(place);
            marked.push(user);
        }
        let mut out: Vec<UserState> = Vec::new();
        while marked.len() > 0
            invariant
                marked@.len() <= before.len(),
                forall|i: int|
                    0 <= i < marked@.len() ==> marked@[i] == behind_marked(before, *place)[
                        before.len() - 1 - i
                    ],
                out@.len() == before.len() - marked@.len(),
                forall|i: int| 0 <= i < out@.len() ==> out@[i] == behind_marked(before, *place)[i],
                *self == (Room {
                    gs: GameStateResp { users: self.gs.users, ..old(self).gs },
                    ..*old(self)
                }),
            decreases marked@.len(),
        {
            let user = marked.pop().unwrap();
            out.push(user);
        }
        assert(out@ =~= behind_marked(before, *place));
        self.gs.users = out;
    }

    fn do_locate(&mut self, user_id: &str, l: &LocateOperation) -> (r: Result<
        OperationResult,
        OpError,
    >)
        requires
            old(self).wf(),
            old(self).can_go_on(),
            user_position(old(self).gs.users@, user_id@) < old(self).gs.users@.len(),
            1 <= l.index <= old(self).gs.map_type.sector_count(),
        ensures
            final(self).wf(),
            final(self).same_game(*old(self)),
            same_records(final(self).gs.users@, old(self).gs.users@),
            final(self).choices == old(self).choices,
            final(self).ss.user_tokens == old(self).ss.user_tokens,
            final(self).ss.revealed_sector_indexs == old(self).ss.revealed_sector_indexs,
            r == locate_answer(
                *old(self),
                old(self).gs.users@[user_position(old(self).gs.users@, user_id@)],
                *l,
            ),
            old(self).ss.terminator_location is None && r == Ok::<OperationResult, OpError>(
                OperationResult::Locate(true),
            ) ==> final(self).gs.game_stage == GameStage::LastMove
                && final(self).ss.terminator_location == Some(
                place_then(
                    *old(self),
                    user_position(old(self).gs.users@, user_id@),
                    Operation::Locate(*l),
                ),
            ),
            r is Ok ==> final(self).gs.users@[user_position(
                old(self).gs.users@,
                user_id@,
            )].location == place_then(
                *old(self),
                user_position(old(self).gs.users@, user_id@),
                Operation::Locate(*l),
            ),
    {
        let k = find_user(&self.gs.users, user_id);
        if self.ss.terminator_location.is_some() {
            if !self.gs.users[k].can_locate {
                return Err(OpError::EndGameCanNotLocate);
            }
            let mut user = self.gs.users.remove(k);
            user.can_locate = false;
            user.last_move = false;
            self.gs.users.insert(k, user);
            Ok(
                OperationResult::Locate(
                    self.ss.map.locate_x(l.index, &l.pre_sector_type, &l.next_sector_type),
                ),
            )
        } else {
            match self.gs.user_move(user_id, 5) {
                Ok(_) => {},
                Err(e) => {
                    return Err(e);
                },
            }
            let found = self.ss.map.locate_x(l.index, &l.pre_sector_type, &l.next_sector_type);
            if found {
                self.gs.game_stage = GameStage::LastMove;
                let terminator_location = self.gs.users[k].location;
                self.mark_behind(&terminator_location);
                self.ss.terminator_location = Some(terminator_location);
            }
            Ok(OperationResult::Locate(found))
        }
    }

    fn do_ready_publish(&mut self, user_id: &str, rp: &ReadyPublishOperation) -> (r: Result<
        OperationResult,
        OpError,
    >)
        requires
            old(self).wf(),
        ensures
            final(self).wf(),
            final(self).same_game(*old(self)),
            same_records(final(self).gs.users@, old(self).gs.users@),
            final(self).choices == old(self).choices,
            final(self).gs == old(self).gs,
            r == ready_publish_answer(*old(self), user_id@, *rp),
    {
        match self.ss.ready_publish_token(user_id, rp.sectors.as_slice()) {
            Ok(_) => Ok(OperationResult::ReadyPublish(rp.sectors.len())),
            Err(e) => Err(e),
        }
    }

    fn do_publish(&mut self, user_id: &str, dp: &DoPublishOperation) -> (r: Result<
        OperationResult,
        OpError,
    >)
        requires
            old(self).wf(),
            old(self).can_go_on(),
        ensures
            final(self).wf(),
            final(self).same_game(*old(self)),
            same_records(final(self).gs.users@, old(self).gs.users@),
            final(self).choices == old(self).choices,
            r == if !old(self).ss.revealed_sector_indexs@.contains(dp.index) && old(
                self,
            ).ss.terminator_location is Some && user_position(old(self).gs.users@, user_id@)
                >= old(self).gs.users@.len() {
                Err(OpError::UserNotFoundInRoom)
            } else {
                publish_answer(*old(self), user_id@, *dp)
            },
            forall|i: int|
                0 <= i < old(self).gs.users@.len() ==> (#[trigger] final(self).gs.users@[i]).location
                    == old(self).gs.users@[i].location,
    {
        if slice_contains(self.ss.revealed_sector_indexs.as_slice(), dp.index) {
            return Err(OpError::SectorAlreadyRevealed);
        }
        match self.ss.terminator_location {
            Some(terminator_location) => {
                let k = find_user(&self.gs.users, user_id);
                if k >= self.gs.users.len() {
                    return Err(OpError::UserNotFoundInRoom);
                }
                let before_more_than_4 = self.gs.users[k].location.index_le4(&terminator_location);
                let mut user = self.gs.users.remove(k);
                if user.can_locate && before_more_than_4 {
                    user.can_locate = false;
                } else {
                    user.last_move = false;
                }
                self.gs.users.insert(k, user);
                match self.ss.last_move_publish_token(user_id, dp.index, &dp.sector_type) {
                    Ok(_) => {},
                    Err(e) => {
                        return Err(e);
                    },
                }
            },
            None => {
                match self.ss.publish_token(user_id, dp.index, &dp.sector_type) {
                    Ok(_) => {},
                    Err(e) => {
                        return Err(e);
                    },
                }
            },
        }
        Ok(OperationResult::DoPublish((dp.index, dp.sector_type)))
    }
}

/// What the rules answer is what the true layout answers.
pub proof fn lemma_rules_answer_is_true(room: Room, id: Seq<char>, op: Operation)
    requires
        room.wf(),
        rules_answer(room, id, op) is Ok,
    ensures
        true_answer(room.ss.map.sectors@, op, rules_answer(room, id, op)->Ok_0),
        op_valid(
            room.gs.map_type.sector_count() as int,
            op,
            rules_answer(room, id, op)->Ok_0,
        ) || op is Locate,
{
    let k = user_position(room.gs.users@, id);
    lemma_user_position_range(room.gs.users@, id);
    match op {
        Operation::Research(r) => {
            let clues = room.ss.research_clues@;
            lemma_clue_position_range(clues, r.index);
            let at = clue_position(clues, r.index);
            if k < room.gs.users@.len() {
                assert(research_answer(room, room.gs.users@[k], r) is Ok);
                assert(at < clues.len());
                let clue = clues[at];
                assert(clue_holds(room.ss.map.sectors@, clue.subject, clue.object, clue.conn));
            }
        },
        Operation::Survey(sv) => {
            let truth = room.ss.map.sectors@;
            lemma_range_count_bound(
                truth,
                sv.start as int,
                sv.end as int,
                sv.sector_type,
                truth.len() as int,
            );
        },
        _ => {},
    }
}

/// Whether there are layouts and they all say the same of X: where it is,
/// and what lies next to it.
pub open spec fn agree_on_x(layouts: Seq<Seq<SectorType>>) -> bool {
    layouts.len() > 0 && forall|i: int, j: int|
        0 <= i < layouts.len() && 0 <= j < layouts.len() ==> locate_signature(
            #[trigger] layouts[i],
        ) == locate_signature(#[trigger] layouts[j])
}

impl Room {
    /// Answers an operation of a player by the true layout and the rules
    /// of the game, and moves the player along the track.
    fn answer(&mut self, user_id: &str, operation: &Operation) -> (r: Result<
        OperationResult,
        OpError,
    >)
        requires
            old(self).wf(),
            old(self).can_go_on(),
            can_work_off(*old(self), *operation),
        ensures
            final(self).wf(),
            final(self).same_game(*old(self)),
            same_records(final(self).gs.users@, old(self).gs.users@),
            final(self).choices == old(self).choices,
            r == rules_answer(*old(self), user_id@, *operation),
            operation is Locate && old(self).ss.terminator_location is None && r == Ok::<
                OperationResult,
                OpError,
            >(OperationResult::Locate(true)) ==> final(self).gs.game_stage == GameStage::LastMove
                && final(self).ss.terminator_location == Some(
                place_then(*old(self), user_position(old(self).gs.users@, user_id@), *operation),
            ),
            r is Ok && user_position(old(self).gs.users@, user_id@) < old(self).gs.users@.len()
                ==> final(self).gs.users@[user_position(
                old(self).gs.users@,
                user_id@,
            )].location == place_then(
                *old(self),
                user_position(old(self).gs.users@, user_id@),
                *operation,
            ),
    {
        let ghost before = *self;
        if !self.gs.check_waiting_for(user_id) {
            return Err(OpError::NotUsersTurn);
        }
        let allowed = match (operation, &self.gs.game_stage) {
            (Operation::Survey(_), GameStage::UserMove) => true,
            (Operation::Target(_), GameStage::UserMove) => true,
            (Operation::Research(_), GameStage::UserMove) => true,
            (Operation::Locate(_), GameStage::UserMove) => true,
            (Operation::ReadyPublish(_), GameStage::MeetingProposal) => true,
            (Operation::DoPublish(_), GameStage::MeetingPublish) => true,
            (Operation::DoPublish(_), GameStage::LastMove) => true,
            (Operation::Locate(_), GameStage::LastMove) => true,
            _ => false,
        };
        if !allowed {
            return Err(OpError::InvalidMoveInStage);
        }
        let ghost waited = *self;
        let k = find_user(&self.gs.users, user_id);
        match operation {
            Operation::Survey(s) => {
                assert(survey_answer(waited, *s) == survey_answer(before, *s));
                self.do_survey(user_id, s)
            },
            Operation::Target(t) => {
                if k >= self.gs.users.len() {
                    return Err(OpError::UserNotFoundInRoom);
                }
                assert(target_answer(waited, waited.gs.users@[k as int], *t) == target_answer(
                    before,
                    before.gs.users@[k as int],
                    *t,
                ));
                self.do_target(user_id, t)
            },
            Operation::Research(r) => {
                if k >= self.gs.users.len() {
                    return Err(OpError::UserNotFoundInRoom);
                }
                self.do_research(user_id, r)
            },
            Operation::Locate(l) => {
                if k >= self.gs.users.len() {
                    return Err(OpError::UserNotFoundInRoom);
                }
                self.do_locate(user_id, l)
            },
            Operation::ReadyPublish(rp) => {
                assert(ready_publish_answer(waited, user_id@, *rp) == ready_publish_answer(
                    before,
                    user_id@,
                    *rp,
                ));
                self.do_ready_publish(user_id, rp)
            },
            Operation::DoPublish(dp) => {
                assert(publish_answer(waited, user_id@, *dp) == publish_answer(
                    before,
                    user_id@,
                    *dp,
                ));
                self.do_publish(user_id, dp)
            },
        }
    }

    /// Hands an operation and its answer to the player's filter and writes
    /// them into the player's record. Fails where the player has no filter
    /// or is not in the room.
    fn record(&mut self, user_id: &str, operation: &Operation, op_result: OperationResult) -> (r:
        Result<(), OpError>)
        requires
            old(self).wf(),
            op_valid(old(self).gs.map_type.sector_count() as int, *operation, op_result),
        ensures
            final(self).wf(),
            final(self).same_game(*old(self)),
            r is Ok <==> (filter_position(old(self).choices@, user_id@) < old(self).choices@.len()
                && user_position(old(self).gs.users@, user_id@) < old(self).gs.users@.len()),
            r matches Err(e) ==> e == OpError::UserNotFoundInRoom,
            r is Ok ==> {
                let k = filter_position(old(self).choices@, user_id@);
                let log = final(self).choices@[k].filter.log();
                &&& log.len() == old(self).choices@[k].filter.log().len() + 1
                &&& log.drop_last() == old(self).choices@[k].filter.log()
                &&& same_operation(log.last().0, *operation)
                &&& log.last().1 == op_result
                &&& forall|i: int|
                    0 <= i < old(self).choices@.len() && i != k ==> final(self).choices@[i]
                        == old(self).choices@[i]
            },
            final(self).ss == old(self).ss,
            final(self).gs == (GameStateResp { users: final(self).gs.users, ..old(self).gs }),
            r is Ok ==> {
                let u = user_position(old(self).gs.users@, user_id@);
                &&& final(self).gs.users@[u].location == old(self).gs.users@[u].location
                &&& final(self).gs.users@[u].moves_result@ == old(
                    self,
                ).gs.users@[u].moves_result@.push(op_result)
                &&& final(self).gs.users@[u].moves@.len() == old(self).gs.users@[u].moves@.len()
                    + if operation is ReadyPublish || operation is DoPublish {
                    0int
                } else {
                    1int
                }
            },
    {
        let ghost before = *self;
        let f = find_filter(&self.choices, user_id);
        if f >= self.choices.len() {
            return Err(OpError::UserNotFoundInRoom);
        }
        let mut choice = self.choices.remove(f);
        let copy = operation.clone_operation();
        let ghost logged = choice.filter.log();
        choice.filter.add_operation(copy, op_result);
        proof {
            assert(choice.filter.log().drop_last() =~= logged);
        }
        self.choices.insert(f, choice);
        assert(self.choices@ =~= before.choices@.update(f as int, choice));
        let u = find_user(&self.gs.users, user_id);
        if u >= self.gs.users.len() {
            return Err(OpError::UserNotFoundInRoom);
        }
        let mut user_state = self.gs.users.remove(u);
        match operation {
            Operation::ReadyPublish(_) => {},
            Operation::DoPublish(_) => {},
            op => {
                user_state.moves.push(op.clone_operation());
            },
        }
        user_state.moves_result.push(op_result);
        self.gs.users.insert(u, user_state);
        assert(self.gs.users@ =~= before.gs.users@.update(u as int, user_state));
        Ok(())
    }

    /// Works off an operation of a player: answers it by the true layout
    /// and the rules of the game, moves the player along the track, and
    /// hands operation and answer to the player's filter. Why an operation
    /// is turned down, and what it is answered, says `action_answer`.
    pub fn handle_action_op(&mut self, user_id: &str, operation: &Operation) -> (r: Result<
        OperationResult,
        OpError,
    >)
        requires
            old(self).wf(),
            old(self).can_go_on(),
            can_work_off(*old(self), *operation),
        ensures
            final(self).wf(),
            final(self).same_game(*old(self)),
            r == action_answer(*old(self), user_id@, *operation),
            r matches Ok(answer) ==> {
                let k = filter_position(old(self).choices@, user_id@);
                let log = final(self).choices@[k].filter.log();
                &&& true_answer(old(self).ss.map.sectors@, *operation, answer)
                &&& 0 <= k < old(self).choices@.len()
                &&& log.len() == old(self).choices@[k].filter.log().len() + 1
                &&& log.drop_last() == old(self).choices@[k].filter.log()
                &&& same_operation(log.last().0, *operation)
                &&& log.last().1 == answer
                &&& forall|i: int|
                    0 <= i < old(self).choices@.len() && i != k ==> final(self).choices@[i]
                        == old(self).choices@[i]
            },
            operation is Locate && old(self).ss.terminator_location is None && r == Ok::<
                OperationResult,
                OpError,
            >(OperationResult::Locate(true)) ==> final(self).gs.game_stage == GameStage::LastMove
                && final(self).ss.terminator_location == Some(
                place_then(*old(self), user_position(old(self).gs.users@, user_id@), *operation),
            ),
            r matches Ok(answer) ==> {
                let u = user_position(old(self).gs.users@, user_id@);
                &&& 0 <= u < old(self).gs.users@.len()
                &&& final(self).gs.users@[u].location == place_then(*old(self), u, *operation)
                &&& final(self).gs.users@[u].moves_result@.len() == old(
                    self,
                ).gs.users@[u].moves_result@.len() + 1
                &&& final(self).gs.users@[u].moves_result@.last() == answer
                &&& final(self).gs.users@[u].moves@.len() == old(self).gs.users@[u].moves@.len()
                    + if operation is ReadyPublish || operation is DoPublish {
                    0int
                } else {
                    1int
                }
            },
    {
        let ghost before = *self;
        let op_result = match self.answer(user_id, operation) {
            Ok(op_result) => op_result,
            Err(e) => {
                return Err(e);
            },
        };
        proof {
            lemma_rules_answer_is_true(before, user_id@, *operation);
            lemma_same_ids_same_position(self.gs.users@, before.gs.users@, user_id@);
            lemma_filter_position_range(self.choices@, user_id@);
        }
        match self.record(user_id, operation, op_result) {
            Ok(_) => Ok(op_result),
            Err(e) => Err(e),
        }
    }

    /// What the player's filter says: how many candidates it holds, or
    /// whether X can be located. It says nothing before it holds
    /// candidates.
    pub fn handle_recommend_op(&self, user_id: &str, op: RecommendOperation) -> (r: Result<
        RecommendOperationResult,
        RecommendError,
    >)
        requires
            forall|i: int| 0 <= i < self.choices@.len() ==> (#[trigger] self.choices@[i]).filter.wf(),
        ensures
            ({
                let k = filter_position(self.choices@, user_id@);
                if k >= self.choices@.len() {
                    r == Err::<RecommendOperationResult, RecommendError>(
                        RecommendError::UserNotFoundInRoom,
                    )
                } else if !self.choices@[k].filter.ready() {
                    r == Err::<RecommendOperationResult, RecommendError>(
                        RecommendError::NotEnoughData,
                    )
                } else {
                    match op {
                        RecommendOperation::Count => r == Ok::<
                            RecommendOperationResult,
                            RecommendError,
                        >(
                            RecommendOperationResult::Count(
                                self.choices@[k].filter.candidates().len() as usize,
                            ),
                        ),
                        RecommendOperation::CanLocate => r == Ok::<
                            RecommendOperationResult,
                            RecommendError,
                        >(
                            RecommendOperationResult::CanLocate(
                                agree_on_x(self.choices@[k].filter.candidates()),
                            ),
                        ),
                    }
                }
            }),
    {
        let k = find_filter(&self.choices, user_id);
        if k >= self.choices.len() {
            return Err(RecommendError::UserNotFoundInRoom);
        }
        let choice = &self.choices[k].filter;
        if !choice.is_ready() {
            return Err(RecommendError::NotEnoughData);
        }
        match op {
            RecommendOperation::Count => Ok(RecommendOperationResult::Count(choice.len())),
            RecommendOperation::CanLocate => Ok(
                RecommendOperationResult::CanLocate(choice.can_locate()),
            ),
        }
    }
}

/// Whether every sector of the list carries the number of its place.
fn numbered(sectors: &Sectors) -> (r: bool)
    ensures
        r == sectors.wf(),
{
    let mut i: usize = 0;
    while i < sectors.data.len()
        invariant
            i <= sectors.data@.len(),
            forall|j: int| 0 <= j < i ==> (#[trigger] sectors.data@[j]).index == j + 1,
        decreases sectors.data@.len() - i,
    {
        if sectors.data[i].index != i + 1 {
            return false;
        }
        i += 1;
    }
    true
}

/// Whether no token of the list that is not placed lies on a sector.
fn unplaced_lie_nowhere(tokens: &Vec<Token>) -> (r: bool)
    ensures
        r == forall|i: int|
            0 <= i < tokens@.len() ==> !(#[trigger] tokens@[i]).placed
                ==> tokens@[i].secret.sector_index == 0,
{
    let mut i: usize = 0;
    while i < tokens.len()
        invariant
            i <= tokens@.len(),
            forall|j: int|
                0 <= j < i ==> !(#[trigger] tokens@[j]).placed ==> tokens@[j].secret.sector_index
                    == 0,
        decreases tokens@.len() - i,
    {
        if !tokens[i].placed && tokens[i].secret.sector_index != 0 {
            return false;
        }
        i += 1;
    }
    true
}

impl Room {
    /// Whether the frame of the room is in order and the game can go on.
    pub fn check_frame(&self) -> (r: bool)
        ensures
            r == (self.frame_ok() && self.can_go_on()),
    {
        let n = self.gs.map_type.sector_count();
        let same_board = match (&self.ss.map.map_type, &self.gs.map_type) {
            (MapType::Standard, MapType::Standard) => true,
            (MapType::Expert, MapType::Expert) => true,
            _ => false,
        };
        if !same_board || !numbered(&self.ss.map.sectors) || self.ss.map.size() != n {
            return false;
        }
        if !check_all_clues(self.ss.research_clues.as_slice(), &self.ss.map.sectors) {
            return false;
        }
        let start = self.gs.start_index;
        let end = self.gs.end_index;
        if start == 0 || start > n || end == 0 || end > n || self.gs.users.len() > 4 {
            return false;
        }
        let span = if start <= end {
            end - start
        } else {
            end + n - start
        };
        if span >= n / 2 {
            return false;
        }
        match self.ss.terminator_location {
            Some(t) => {
                if t.index < 4 && (t.round == 0 || t.max == 0 || (t.round == 1 && t.max < 4
                    - t.index) || (t.max == 1 && t.round < 4 - t.index)) {
                    assert(t.reach() < 4) by (nonlinear_arith)
                        requires
                            t.index < 4,
                            t.round == 0 || t.max == 0 || (t.round == 1 && t.max < 4 - t.index)
                                || (t.max == 1 && t.round < 4 - t.index),
                            t.reach() == t.round * t.max + t.index,
                    ;
                    return false;
                }
                assert(t.reach() >= 4) by (nonlinear_arith)
                    requires
                        !(t.index < 4 && (t.round == 0 || t.max == 0 || (t.round == 1 && t.max < 4
                            - t.index) || (t.max == 1 && t.round < 4 - t.index))),
                        t.reach() == t.round * t.max + t.index,
                        t.round >= 0,
                        t.max >= 0,
                        t.index >= 0,
                ;
            },
            None => {},
        }
        let mut i: usize = 0;
        while i < self.gs.users.len()
            invariant
                i <= self.gs.users@.len(),
                forall|j: int|
                    0 <= j < i ==> (#[trigger] self.gs.users@[j]).location.index <= usize::MAX - 5
                        && self.gs.users@[j].location.round < usize::MAX,
            decreases self.gs.users@.len() - i,
        {
            if self.gs.users[i].location.index > usize::MAX - 5 || self.gs.users[i].location.round
                == usize::MAX {
                return false;
            }
            i += 1;
        }
        let mut k: usize = 0;
        while k < self.ss.user_tokens.len()
            invariant
                k <= self.ss.user_tokens@.len(),
                forall|a: int, b: int|
                    0 <= a < k && 0 <= b < self.ss.user_tokens@[a].tokens@.len() ==> !(
                    #[trigger] self.ss.user_tokens@[a].tokens@[b]).placed
                        ==> self.ss.user_tokens@[a].tokens@[b].secret.sector_index == 0,
            decreases self.ss.user_tokens@.len() - k,
        {
            if !unplaced_lie_nowhere(&self.ss.user_tokens[k].tokens) {
                return false;
            }
            k += 1;
        }
        true
    }

    /// Whether an operation can be worked off in the room.
    pub fn check_operation(&self, operation: &Operation) -> (r: bool)
        requires
            self.frame_ok(),
        ensures
            r == can_work_off(*self, *operation),
    {
        let n = self.gs.map_type.sector_count();
        match operation {
            Operation::Survey(s) => {
                if !validate_index_in_range(
                    self.gs.start_index,
                    self.gs.end_index,
                    s.start,
                    Some(s.end),
                    n,
                ) {
                    return true;
                }
                if s.sector_type == SectorType::X {
                    return true;
                }
                if s.sector_type == SectorType::Comet && (!is_prime_index(s.start)
                    || !is_prime_index(s.end)) {
                    return true;
                }
                let span = if s.start <= s.end {
                    s.end - s.start
                } else {
                    s.end + n - s.start
                };
                span <= 14
            },
            Operation::Locate(l) => 1 <= l.index && l.index <= n,
            _ => true,
        }
    }
}

} // verus!

use vstd::prelude::*;

use super::game_state::{find_user, user_position, GameStage, GameState, GameStateResp, UserState};
use super::play::{PlayerFilter, Room};
use super::turn::{
    find_next_point, lemma_next_point_on_track, move_window, moved_window, next_point,
    xclue_places, PointInfo, PointType,
};
use crate::map::clue::Clue;
use crate::map::model::MapType;
use crate::operation::{Operation, OperationResult, ResearchOperation};

verus! {

broadcast use vstd::seq_lib::group_seq_properties;

/// Whether two states of a game differ in nothing but whom the game waits
/// for, its stage, its hint and its window.
pub open spec fn same_table(a: GameStateResp, b: GameStateResp) -> bool {
    &&& a.id == b.id
    &&& a.users == b.users
    &&& a.map_seed == b.map_seed
    &&& a.map_type == b.map_type
    &&& a.game_result == b.game_result
}

/// Whether two states of a game have the same window.
pub open spec fn same_window(a: GameStateResp, b: GameStateResp) -> bool {
    a.start_index == b.start_index && a.end_index == b.end_index && a.round == b.round
}

/// Whether the hint of a game reads `text`.
pub open spec fn hint_reads(gs: GameStateResp, text: Seq<char>) -> bool {
    gs.hint matches Some(h) && h@ == text
}

/// Whether a game waits for just the players named, in that order.
pub open spec fn waits_for(gs: GameStateResp, ids: Seq<Seq<char>>) -> bool {
    gs.status matches GameState::Wait(list) && list@.len() == ids.len() && forall|i: int|
        0 <= i < ids.len() ==> (#[trigger] list@[i])@ == ids[i]
}

/// The identities of the players of a list.
pub open spec fn ids_of(users: Seq<UserState>) -> Seq<Seq<char>> {
    Seq::new(users.len(), |i: int| users[i].id@)
}

/// The name of the first player of a list with the given identity;
/// `Unknown` for one who is not in the list.
pub open spec fn name_of(users: Seq<UserState>, id: Seq<char>) -> Seq<char> {
    let k = user_position(users, id);
    if k < users.len() {
        users[k].name@
    } else {
        "Unknown"@
    }
}

/// Which of the clues about X is handed out at a point: the place of the
/// point among those of the board where one is, or the first.
pub open spec fn xclue_index(map_type: MapType, p: PointInfo) -> int {
    let places = xclue_places(map_type);
    if places.len() > 1 && places[0] != (p.index, p.child_index) && places[1] == (
        p.index,
        p.child_index,
    ) {
        1
    } else {
        0
    }
}

/// What the players are to be told after the game has gone on.
#[derive(Debug, Clone, Copy)]
pub struct Turn {
    /// The clue about X that was handed out, if one was.
    pub xclue: Option<Clue>,
    /// Whether the game has ended because the track has no point left.
    pub ended: bool,
}

/// How far along the track a game can still be led: its laps and the
/// places of its players can be counted on, and it has a clue about X for
/// each point of the board where one is handed out.
pub open spec fn can_be_led(room: Room) -> bool {
    &&& room.gs.round < usize::MAX - 1
    &&& forall|i: int|
        0 <= i < room.gs.users@.len() ==> (#[trigger] room.gs.users@[i]).location.index
            <= usize::MAX - 18
    &&& room.ss.x_clues@.len() >= xclue_places(room.gs.map_type).len()
    &&& forall|i: int|
        0 <= i < room.choices@.len() ==> (#[trigger] room.choices@[i]).filter.wf()
}

/// Whether filter `after` is filter `before` with one research of `clue`
/// added to its log. Once a filter holds candidates, it holds no more
/// than before.
pub open spec fn told(after: PlayerFilter, before: PlayerFilter, clue: Clue) -> bool {
    &&& after.user_id == before.user_id
    &&& after.filter.wf()
    &&& after.filter.board() == before.filter.board()
    &&& after.filter.log() == before.filter.log().push(
        (
            Operation::Research(ResearchOperation { index: clue.index }),
            OperationResult::Research(clue),
        ),
    )
    &&& before.filter.ready() ==> after.filter.ready() && after.filter.candidates().len()
        <= before.filter.candidates().len()
}

/// Whether every filter of `after` is that of `before` with one research
/// of `clue` added to its log.
pub open spec fn all_told(after: Seq<PlayerFilter>, before: Seq<PlayerFilter>, clue: Clue) -> bool {
    &&& after.len() == before.len()
    &&& forall|i: int| 0 <= i < before.len() ==> told(#[trigger] after[i], before[i], clue)
}

/// Ends a game whose track has no point left.
pub fn end_without_points(gs: &mut GameStateResp)
    ensures
        same_table(*final(gs), *old(gs)),
        same_window(*final(gs), *old(gs)),
        final(gs).game_stage == old(gs).game_stage,
        final(gs).status == GameState::End,
        hint_reads(*final(gs), "No more points"@),
{
    gs.status = GameState::End;
    gs.hint = Some(String::from_str("No more points"));
}

/// The name of a player, `Unknown` for one who is not in the game.
pub fn name_in(users: &Vec<UserState>, id: &str) -> (r: String)
    ensures
        r@ == name_of(users@, id@),
{
    let k = find_user(users, id);
    if k < users.len() {
        users[k].name.clone()
    } else {
        String::from_str("Unknown")
    }
}

/// The identities of the players.
pub fn ids_in(users: &Vec<UserState>) -> (r: Vec<String>)
    ensures
        r@.len() == users@.len(),
        forall|i: int| 0 <= i < users@.len() ==> (#[trigger] r@[i])@ == users@[i].id@,
{
    let mut ids: Vec<String> = Vec::new();
    let mut i: usize = 0;
    while i < users.len()
        invariant
            i <= users@.len(),
            ids@.len() == i,
            forall|j: int| 0 <= j < i ==> (#[trigger] ids@[j])@ == users@[j].id@,
        decreases users@.len() - i,
    {
        ids.push(users[i].id.clone());
        i += 1;
    }
    ids
}

/// Whether a game has ended for want of a point, its window where `at`
/// has it and the rest as in `before`.
pub open spec fn out_of_points(after: GameStateResp, before: GameStateResp, at: GameStateResp)
    -> bool {
    &&& same_window(after, at)
    &&& after.game_stage == before.game_stage
    &&& after.status == GameState::End
    &&& hint_reads(after, "No more points"@)
}

/// What holds after a game in which nobody is waited for has gone on to
/// the next point of its track. It ends where no point is left. A player
/// is called to move; a meeting calls all players for their proposals; a
/// clue about X is handed out, every filter takes it in, and the game goes
/// on to the point behind.
pub open spec fn turn_begun(after: Room, before: Room, r: Turn) -> bool {
    match next_point(before.gs, false) {
        None => {
            &&& r == (Turn { xclue: None, ended: true })
            &&& out_of_points(after.gs, before.gs, before.gs)
            &&& after.choices == before.choices
        },
        Some(p) => {
            let moved = moved_window(before.gs, p.index);
            match p.kind {
                PointType::User(id) => {
                    &&& r == (Turn { xclue: None, ended: false })
                    &&& same_window(after.gs, moved)
                    &&& after.gs.game_stage == GameStage::UserMove
                    &&& waits_for(after.gs, seq![id@])
                    &&& hint_reads(after.gs, name_of(before.gs.users@, id@) + " should move"@)
                    &&& after.choices == before.choices
                },
                PointType::Meeting => {
                    &&& r == (Turn { xclue: None, ended: false })
                    &&& same_window(after.gs, moved)
                    &&& after.gs.game_stage == GameStage::MeetingProposal
                    &&& waits_for(after.gs, ids_of(before.gs.users@))
                    &&& hint_reads(after.gs, "Meeting proposal, Everyone should move"@)
                    &&& after.choices == before.choices
                },
                PointType::XClue => {
                    let clue = before.ss.x_clues@[xclue_index(before.gs.map_type, p)];
                    &&& r.xclue == Some(clue)
                    &&& match next_point(moved, true) {
                        None => {
                            &&& r.ended
                            &&& out_of_points(after.gs, before.gs, moved)
                            &&& after.choices == before.choices
                        },
                        Some(q) => {
                            &&& !r.ended
                            &&& same_window(after.gs, moved_window(moved, q.index))
                            &&& after.gs.game_stage == GameStage::UserMove
                            &&& after.gs.status == GameState::AutoMove
                            &&& hint_reads(after.gs, "X clue time"@)
                            &&& all_told(after.choices@, before.choices@, clue)
                        },
                    }
                },
            }
        },
    }
}

impl Room {
    /// Leads a game in which nobody is waited for on to the next point of
    /// its track.
    pub fn begin_turn(&mut self) -> (r: Turn)
        requires
            can_be_led(*old(self)),
        ensures
            same_table(final(self).gs, old(self).gs),
            final(self).ss == old(self).ss,
            turn_begun(*final(self), *old(self), r),
    {
        let next = match find_next_point(&self.gs, false) {
            Some(next) => next,
            None => {
                end_without_points(&mut self.gs);
                return Turn { xclue: None, ended: true };
            },
        };
        proof {
            lemma_next_point_on_track(self.gs, false);
        }
        move_window(&mut self.gs, &next);
        let ghost moved = self.gs;
        match &next.kind {
            PointType::User(id) => {
                let mut hint = name_in(&self.gs.users, id.as_str());
                hint.append(" should move");
                let mut list: Vec<String> = Vec::new();
                list.push(id.clone());
                self.gs.status = GameState::Wait(list);
                self.gs.game_stage = GameStage::UserMove;
                self.gs.hint = Some(hint);
                Turn { xclue: None, ended: false }
            },
            PointType::Meeting => {
                self.gs.status = GameState::Wait(ids_in(&self.gs.users));
                self.gs.game_stage = GameStage::MeetingProposal;
                self.gs.hint = Some(String::from_str("Meeting proposal, Everyone should move"));
                Turn { xclue: None, ended: false }
            },
            PointType::XClue => {
                let places = self.gs.map_type.xclue_points();
                let index: usize = if places.len() > 1 && !(places[0].0 == next.index
                    && places[0].1 == next.child_index) && places[1].0 == next.index
                    && places[1].1 == next.child_index {
                    1
                } else {
                    0
                };
                let clue = self.ss.x_clues[index];
                let second = match find_next_point(&self.gs, true) {
                    Some(second) => second,
                    None => {
                        end_without_points(&mut self.gs);
                        return Turn { xclue: Some(clue), ended: true };
                    },
                };
                proof {
                    lemma_next_point_on_track(self.gs, true);
                }
                self.gs.hint = Some(String::from_str("X clue time"));
                move_window(&mut self.gs, &second);
                self.gs.game_stage = GameStage::UserMove;
                self.gs.status = GameState::AutoMove;
                self.tell_filters(&clue);
                Turn { xclue: Some(clue), ended: false }
            },
        }
    }

    /// Takes a clue in as a research answer for every player of the room.
    pub fn tell_filters(&mut self, clue: &Clue)
        requires
            forall|i: int|
                0 <= i < old(self).choices@.len() ==> (#[trigger] old(self).choices@[i]).filter.wf(),
        ensures
            final(self).gs == old(self).gs,
            final(self).ss == old(self).ss,
            all_told(final(self).choices@, old(self).choices@, *clue),
    {
        let mut i: usize = 0;
        while i < self.choices.len()
            invariant
                self.gs == old(self).gs,
                self.ss == old(self).ss,
                i <= self.choices@.len(),
                self.choices@.len() == old(self).choices@.len(),
                forall|j: int|
                    0 <= j < i ==> told(#[trigger] self.choices@[j], old(self).choices@[j], *clue),
                forall|j: int|
                    i <= j < self.choices@.len() ==> (#[trigger] self.choices@[j]) == old(
                        self,
                    ).choices@[j],
                forall|j: int|
                    0 <= j < old(self).choices@.len() ==> (#[trigger] old(
                        self,
                    ).choices@[j]).filter.wf(),
            decreases self.choices@.len() - i,
        {
            let ghost before = self.choices@;
            let mut choice = self.choices.remove(i);
            choice.filter.add_operation(
                Operation::Research(ResearchOperation { index: clue.index }),
                OperationResult::Research(*clue),
            );
            self.choices.insert(i, choice);
            assert(self.choices@ =~= before.update(i as int, choice));
            i += 1;
        }
    }
}

} // verus!

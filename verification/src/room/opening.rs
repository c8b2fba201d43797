use vstd::prelude::*;

use super::game_state::{
    GameState, GameStateResp, ServerGameState, UserLocationSequence, UserState, UserTokens,
};
use super::play::{PlayerFilter, Room};
use super::stages::hint_reads;
use crate::map::choicefilter::ChoiceFilter;
use crate::map::clue::{research_clues_ok, x_clues_ok, ClueGenerator};
use crate::map::model::{GameMap, SectorType};
use crate::map::validity::valid_layout;
use crate::random::{seeded_rng, shuffle_users};

verus! {

broadcast use vstd::seq_lib::group_seq_properties;

/// Why a game could not be started.
#[derive(Debug, Clone, Copy, PartialEq, Eq, Structural)]
pub enum StartError {
    /// No layout was found for the seed.
    MapGenerationFailed,
    /// No clues were found for the layout.
    ClueGenerationFailed,
}

/// A player at the start of the track, `place` players from its head on
/// a board of `n` sectors.
pub open spec fn seated(user: UserState, place: int, n: usize) -> UserState {
    UserState {
        location: UserLocationSequence { index: 1, child_index: (place + 1) as usize, max: n, round: 1 },
        ..user
    }
}

/// Whether the players `after` are the players `before` in some order,
/// each at the start of the track in the order of the list.
pub open spec fn all_seated(after: Seq<UserState>, before: Seq<UserState>, n: usize) -> bool {
    exists|drawn: Seq<UserState>|
        {
            &&& #[trigger] drawn.to_multiset() == before.to_multiset()
            &&& after.len() == drawn.len()
            &&& forall|i: int| 0 <= i < drawn.len() ==> after[i] == seated(drawn[i], i, n)
        }
}

/// What holds of a game whose players have taken their seats: the window
/// is the first half of the board, and the players stand at the start of
/// the track in an order that was drawn.
pub open spec fn players_seated(after: GameStateResp, before: GameStateResp) -> bool {
    let n = before.map_type.sector_count();
    &&& after.id == before.id
    &&& after.map_seed == before.map_seed
    &&& after.map_type == before.map_type
    &&& after.game_result == before.game_result
    &&& after.game_stage == before.game_stage
    &&& after.start_index == 1
    &&& after.round == 1
    &&& after.end_index == n / 2
    &&& all_seated(after.users@, before.users@, n)
}

/// Whether the tokens and the filters of a room are those of a game that
/// begins: each player has fresh tokens and a filter that has heard of
/// nothing yet, in the order of the players.
pub open spec fn all_dealt(room: Room) -> bool {
    let users = room.gs.users@;
    let board = room.gs.map_type;
    &&& room.ss.user_tokens@.len() == users.len()
    &&& room.choices@.len() == users.len()
    &&& forall|i: int|
        0 <= i < users.len() ==> {
            let holder = #[trigger] room.ss.user_tokens@[i];
            &&& holder.user_id@ == users[i].id@
            &&& holder.tokens@.len() == 8 + board.token_count(SectorType::DwarfPlanet)
            &&& forall|t: int|
                0 <= t < holder.tokens@.len() ==> (#[trigger] holder.tokens@[t]).is_fresh(
                    board.token_type_at(t),
                    users[i].id@,
                    (i + 1) as usize,
                )
        }
    &&& forall|i: int|
        0 <= i < users.len() ==> {
            let choice = #[trigger] room.choices@[i];
            &&& choice.user_id@ == users[i].id@
            &&& choice.filter.wf()
            &&& choice.filter.board() == board
            &&& choice.filter.name() == users[i].id@
            &&& !choice.filter.ready()
            &&& choice.filter.log().len() == 0
            &&& choice.filter.held_tokens().len() == 0
        }
}

/// Whether a room holds a game that has just begun: a layout that keeps
/// the rules of the board, clues that are in order for it, tokens and
/// filters dealt, and nobody waited for.
pub open spec fn begun(room: Room) -> bool {
    let board = room.gs.map_type;
    &&& room.gs.status == GameState::AutoMove
    &&& hint_reads(room.gs, "Game started"@)
    &&& room.ss.map.map_type == board
    &&& room.ss.map.sectors.wf()
    &&& valid_layout(board, room.ss.map.sectors@)
    &&& research_clues_ok(board, room.ss.map.sectors@, room.ss.research_clues@)
    &&& x_clues_ok(board, room.ss.map.sectors@, room.ss.research_clues@, room.ss.x_clues@)
    &&& room.ss.terminator_location is None
    &&& room.ss.revealed_sector_indexs@.len() == 0
    &&& all_dealt(room)
}

impl Room {
    /// Seats the players of a game that is about to start: draws their
    /// order by the seed of the game and puts them at the start of the
    /// track.
    pub fn seat_players(&mut self)
        requires
            old(self).gs.users@.len() < usize::MAX,
        ensures
            final(self).ss == old(self).ss,
            final(self).choices == old(self).choices,
            final(self).gs.status == GameState::Starting,
            hint_reads(final(self).gs, "Game is starting"@),
            players_seated(final(self).gs, old(self).gs),
    {
        let n = self.gs.map_type.sector_count();
        self.gs.status = GameState::Starting;
        self.gs.start_index = 1;
        self.gs.round = 1;
        self.gs.end_index = n / 2;
        let mut rng = seeded_rng(self.gs.map_seed);
        shuffle_users(&mut self.gs.users, &mut rng);
        let ghost drawn = self.gs.users@;
        proof {
            vstd::seq_lib::to_multiset_len(drawn);
            vstd::seq_lib::to_multiset_len(old(self).gs.users@);
        }
        let mut i: usize = 0;
        while i < self.gs.users.len()
            invariant
                i <= self.gs.users@.len(),
                self.gs.users@.len() == drawn.len() < usize::MAX,
                n == self.gs.map_type.sector_count(),
                self.ss == old(self).ss,
                self.choices == old(self).choices,
                self.gs == (GameStateResp { users: self.gs.users, ..self.gs }),
                self.gs.id == old(self).gs.id,
                self.gs.map_seed == old(self).gs.map_seed,
                self.gs.map_type == old(self).gs.map_type,
                self.gs.game_result == old(self).gs.game_result,
                self.gs.game_stage == old(self).gs.game_stage,
                self.gs.status == GameState::Starting,
                self.gs.start_index == 1,
                self.gs.round == 1,
                self.gs.end_index == n / 2,
                forall|j: int| 0 <= j < i ==> self.gs.users@[j] == seated(drawn[j], j, n),
                forall|j: int| i <= j < drawn.len() ==> self.gs.users@[j] == drawn[j],
            decreases self.gs.users@.len() - i,
        {
            let mut user = self.gs.users.remove(i);
            user.location = UserLocationSequence::new(1, i + 1, n);
            self.gs.users.insert(i, user);
            i += 1;
        }
        self.gs.hint = Some(String::from_str("Game is starting"));
        assert(drawn.to_multiset() == old(self).gs.users@.to_multiset());
    }

    /// Starts the game of a room whose players are seated: draws a layout
    /// and its clues by the seed of the game and deals tokens and filters.
    /// Where no layout or no clues are found the game ends at once.
    pub fn deal(&mut self) -> (r: Result<(), StartError>)
        requires
            old(self).gs.users@.len() < usize::MAX,
        ensures
            final(self).gs == (GameStateResp {
                status: final(self).gs.status,
                hint: final(self).gs.hint,
                ..old(self).gs
            }),
            r is Ok ==> begun(*final(self)),
            r is Err ==> final(self).ss == old(self).ss && final(self).choices == old(self).choices
                && final(self).gs.status == GameState::End,
            r == Err::<(), StartError>(StartError::MapGenerationFailed) ==> hint_reads(
                final(self).gs,
                "Map generation failed"@,
            ),
            r == Err::<(), StartError>(StartError::ClueGenerationFailed) ==> hint_reads(
                final(self).gs,
                "Clue generation failed"@,
            ),
    {
        let board = self.gs.map_type;
        let map = match GameMap::new(seeded_rng(self.gs.map_seed), board) {
            Ok(map) => map,
            Err(_) => {
                self.gs.status = GameState::End;
                self.gs.hint = Some(String::from_str("Map generation failed"));
                return Err(StartError::MapGenerationFailed);
            },
        };
        let mut generator = ClueGenerator::new(self.gs.map_seed, map.sectors.clone(), board);
        let (research_clues, x_clues) = match generator.generate_clues() {
            Ok(clues) => clues,
            Err(_) => {
                self.gs.status = GameState::End;
                self.gs.hint = Some(String::from_str("Clue generation failed"));
                return Err(StartError::ClueGenerationFailed);
            },
        };
        let mut user_tokens: Vec<UserTokens> = Vec::new();
        let mut choices: Vec<PlayerFilter> = Vec::new();
        let mut i: usize = 0;
        while i < self.gs.users.len()
            invariant
                *self == *old(self),
                board == self.gs.map_type,
                i <= self.gs.users@.len() < usize::MAX,
                user_tokens@.len() == i,
                choices@.len() == i,
                forall|k: int|
                    0 <= k < i ==> {
                        let holder = #[trigger] user_tokens@[k];
                        &&& holder.user_id@ == self.gs.users@[k].id@
                        &&& holder.tokens@.len() == 8 + board.token_count(
                            SectorType::DwarfPlanet,
                        )
                        &&& forall|t: int|
                            0 <= t < holder.tokens@.len() ==> (#[trigger] holder.tokens@[t]).is_fresh(
                                board.token_type_at(t),
                                self.gs.users@[k].id@,
                                (k + 1) as usize,
                            )
                    },
                forall|k: int|
                    0 <= k < i ==> {
                        let choice = #[trigger] choices@[k];
                        &&& choice.user_id@ == self.gs.users@[k].id@
                        &&& choice.filter.wf()
                        &&& choice.filter.board() == board
                        &&& choice.filter.name() == self.gs.users@[k].id@
                        &&& !choice.filter.ready()
                        &&& choice.filter.log().len() == 0
                        &&& choice.filter.held_tokens().len() == 0
                    },
            decreases self.gs.users@.len() - i,
        {
            let tokens = board.generate_tokens(self.gs.users[i].id.clone(), i + 1);
            user_tokens.push(UserTokens { user_id: self.gs.users[i].id.clone(), tokens });
            choices.push(
                PlayerFilter {
                    user_id: self.gs.users[i].id.clone(),
                    filter: ChoiceFilter::new(board, self.gs.users[i].id.clone()),
                },
            );
            i += 1;
        }
        self.ss = ServerGameState {
            map,
            research_clues,
            x_clues,
            user_tokens,
            terminator_location: None,
            revealed_sector_indexs: Vec::new(),
        };
        self.choices = choices;
        self.gs.status = GameState::AutoMove;
        self.gs.hint = Some(String::from_str("Game started"));
        Ok(())
    }
}

} // verus!

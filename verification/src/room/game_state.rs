use vstd::prelude::*;

use super::server_resp::OpError;
use crate::map::clue::{spec_secret, Clue, ClueSecret};
use crate::map::model::{GameMap, MapType, SecretToken, SectorType, Token};
use crate::operation::{Operation, OperationResult};
use crate::random::random_u32;
use crate::server_state::User;

verus! {

broadcast use vstd::seq_lib::group_seq_properties;

/// Which part of a round the game is in.
#[derive(Debug, Clone, Copy, PartialEq, Eq, Structural)]
pub enum GameStage {
    UserMove,
    MeetingProposal,
    MeetingPublish,
    MeetingCheck,
    LastMove,
    GameEnd,
}

/// What the game is waiting for.
#[derive(Debug, Clone, PartialEq, Eq)]
pub enum GameState {
    NotStarted,
    Starting,
    /// The players whose move is awaited.
    Wait(Vec<String>),
    AutoMove,
    End,
}

/// Where a player stands on the track.
#[derive(Debug, Clone, Copy)]
pub struct UserLocationSequence {
    /// The sector, counted from 1.
    pub index: usize,
    /// The rank among the players on the same sector, counted from 1.
    pub child_index: usize,
    /// The number of sectors.
    pub max: usize,
    /// The lap, counted from 1.
    pub round: usize,
}

impl UserLocationSequence {
    pub fn placeholder(index: usize, child_index: usize) -> (r: Self)
        ensures
            r == (UserLocationSequence { index, child_index, max: 12, round: 1 }),
    {
        UserLocationSequence { index, child_index, max: 12, round: 1 }
    }

    pub fn new(index: usize, child_index: usize, max: usize) -> (r: Self)
        ensures
            r == (UserLocationSequence { index, child_index, max, round: 1 }),
    {
        UserLocationSequence { index, child_index, max, round: 1 }
    }

    pub open spec fn spec_is_some_sector(&self, other: &UserLocationSequence) -> bool {
        self.index == other.index && self.round == other.round
    }

    /// Whether two players stand on the same sector of the same lap.
    #[verifier::when_used_as_spec(spec_is_some_sector)]
    pub fn is_some_sector(&self, other: &UserLocationSequence) -> (r: bool)
        ensures
            r == self.spec_is_some_sector(other),
    {
        self.index == other.index && self.round == other.round
    }

    /// How many of the places are the same sector of the same lap as
    /// `self`.
    pub open spec fn sharing(&self, all: Seq<UserLocationSequence>) -> nat
        decreases all.len(),
    {
        if all.len() == 0 {
            0
        } else {
            self.sharing(all.drop_last()) + if self.spec_is_some_sector(&all.last()) {
                1nat
            } else {
                0nat
            }
        }
    }

    /// The sector and lap that `delta` steps lead to: past the last sector
    /// the next lap begins.
    pub open spec fn advanced(&self, delta: usize) -> UserLocationSequence {
        if self.index + delta > self.max {
            UserLocationSequence {
                index: (self.index + delta - self.max) as usize,
                round: (self.round + 1) as usize,
                ..*self
            }
        } else {
            UserLocationSequence { index: (self.index + delta) as usize, ..*self }
        }
    }

    /// The place that `delta` steps lead to: behind the players who are
    /// already on that sector.
    pub fn next(&mut self, delta: usize, all: &[UserLocationSequence]) -> (r: UserLocationSequence)
        requires
            old(self).index + delta <= usize::MAX,
            old(self).round < usize::MAX,
            all@.len() < usize::MAX,
        ensures
            *final(self) == *old(self),
            r == (UserLocationSequence {
                child_index: (old(self).advanced(delta).sharing(all@) + 1) as usize,
                ..old(self).advanced(delta)
            }),
    {
        let mut result = *self;
        result.index = self.index + delta;
        if result.index > result.max {
            result.index -= result.max;
            result.round += 1;
        }
        let mut count: usize = 0;
        let mut i: usize = 0;
        while i < all.len()
            invariant
                i <= all@.len(),
                count <= i,
                count == result.sharing(all@.take(i as int)),
            decreases all@.len() - i,
        {
            assert(all@.take(i + 1).drop_last() =~= all@.take(i as int));
            if result.is_some_sector(&all[i]) {
                count += 1;
            }
            i += 1;
        }
        assert(all@.take(all@.len() as int) =~= all@);
        result.child_index = count + 1;
        result
    }

    /// How far along the track a place is: the laps before it and its
    /// sector.
    pub open spec fn reach(&self) -> int {
        self.round * self.max + self.index
    }

    /// Whether `self` is behind `other` on the track.
    pub fn index_lt(&self, other: &UserLocationSequence) -> (r: bool)
        ensures
            r == (self.reach() < other.reach()),
    {
        assert(self.round * self.max <= 0xffff_ffff_ffff_ffff * 0xffff_ffff_ffff_ffff)
            by (nonlinear_arith)
            requires
                0 <= self.round <= 0xffff_ffff_ffff_ffff,
                0 <= self.max <= 0xffff_ffff_ffff_ffff,
        ;
        assert(other.round * other.max <= 0xffff_ffff_ffff_ffff * 0xffff_ffff_ffff_ffff)
            by (nonlinear_arith)
            requires
                0 <= other.round <= 0xffff_ffff_ffff_ffff,
                0 <= other.max <= 0xffff_ffff_ffff_ffff,
        ;
        (self.round as u128) * (self.max as u128) + (self.index as u128) < (other.round as u128)
            * (other.max as u128) + (other.index as u128)
    }

    /// Whether `self` is at least four steps behind `other` on the track.
    pub fn index_le4(&self, other: &UserLocationSequence) -> (r: bool)
        requires
            other.reach() >= 4,
        ensures
            r == (self.reach() <= other.reach() - 4),
    {
        assert(self.round * self.max <= 0xffff_ffff_ffff_ffff * 0xffff_ffff_ffff_ffff)
            by (nonlinear_arith)
            requires
                0 <= self.round <= 0xffff_ffff_ffff_ffff,
                0 <= self.max <= 0xffff_ffff_ffff_ffff,
        ;
        assert(other.round * other.max <= 0xffff_ffff_ffff_ffff * 0xffff_ffff_ffff_ffff)
            by (nonlinear_arith)
            requires
                0 <= other.round <= 0xffff_ffff_ffff_ffff,
                0 <= other.max <= 0xffff_ffff_ffff_ffff,
        ;
        (self.round as u128) * (self.max as u128) + (self.index as u128) <= (other.round as u128)
            * (other.max as u128) + (other.index as u128) - 4
    }

    /// How many steps a player has made from the start of the track.
    pub fn step(&self) -> (r: usize)
        requires
            self.round >= 1,
            (self.round - 1) * self.max + self.index <= usize::MAX,
        ensures
            r == (self.round - 1) * self.max + self.index,
    {
        assert((self.round - 1) * self.max >= 0) by (nonlinear_arith)
            requires
                self.round >= 1,
                self.max >= 0,
        ;
        (self.round - 1) * self.max + self.index
    }
}

/// What a game shows of one player.
#[derive(Debug, Clone)]
pub struct UserState {
    pub id: String,
    pub name: String,
    pub ready: bool,
    pub location: UserLocationSequence,
    pub last_move: bool,
    pub can_locate: bool,
    pub moves: Vec<Operation>,
    pub moves_result: Vec<OperationResult>,
    pub used_token: Vec<SecretToken>,
}

impl UserState {
    /// A player who has just come into a room.
    pub fn placeholder(user: &User, child_index: usize) -> (r: Self)
        ensures
            r.id@ == user.id@,
            r.name@ == user.name@,
            !r.ready,
            r.location == (UserLocationSequence { index: 1, child_index, max: 12, round: 1 }),
            r.last_move,
            r.can_locate,
            r.moves@.len() == 0,
            r.moves_result@.len() == 0,
            r.used_token@.len() == 0,
    {
        UserState {
            id: user.id.clone(),
            name: user.name.clone(),
            ready: false,
            location: UserLocationSequence::placeholder(1, child_index),
            last_move: true,
            can_locate: true,
            moves: Vec::new(),
            moves_result: Vec::new(),
            used_token: Vec::new(),
        }
    }
}

/// How a player has done in a game.
#[derive(Debug, Clone)]
pub struct UserResultSummary {
    pub id: String,
    pub name: String,
    pub sum: usize,
    pub first: usize,
    pub comet: usize,
    pub asteroid: usize,
    pub dwarf_planet: usize,
    pub nebula: usize,
    pub x: usize,
    pub step: usize,
}

/// What a game shows to its players.
#[derive(Debug, Clone)]
pub struct GameStateResp {
    /// The number of the room.
    pub id: String,
    pub status: GameState,
    pub game_stage: GameStage,
    pub hint: Option<String>,
    pub users: Vec<UserState>,
    pub start_index: usize,
    pub round: usize,
    pub end_index: usize,
    pub map_seed: u64,
    pub map_type: MapType,
    pub game_result: Option<Vec<UserResultSummary>>,
}

/// Whether two strings hold the same text.
pub fn same_text(a: &str, b: &str) -> (r: bool)
    ensures
        r == (a@ == b@),
{
    let x = a.to_owned();
    let y = b.to_owned();
    x == y
}

/// The first place of a name in a list, or the length of the list.
pub open spec fn position_of(names: Seq<String>, name: Seq<char>) -> int
    decreases names.len(),
{
    if names.len() == 0 {
        0
    } else if names[0]@ == name {
        0
    } else {
        1 + position_of(names.drop_first(), name)
    }
}

/// The first place of a name in a list, or the length of the list.
pub fn find_name(names: &Vec<String>, name: &str) -> (r: usize)
    ensures
        r == position_of(names@, name@),
        r <= names@.len(),
{
    let mut i: usize = 0;
    while i < names.len()
        invariant
            i <= names@.len(),
            position_of(names@, name@) == i + position_of(names@.skip(i as int), name@),
        decreases names@.len() - i,
    {
        assert(names@.skip(i as int).drop_first() =~= names@.skip(i + 1));
        if same_text(names[i].as_str(), name) {
            return i;
        }
        i += 1;
    }
    i
}

/// The first player of a list with the given identity, or the length of
/// the list.
pub open spec fn user_position(users: Seq<UserState>, id: Seq<char>) -> int
    decreases users.len(),
{
    if users.len() == 0 {
        0
    } else if users[0].id@ == id {
        0
    } else {
        1 + user_position(users.drop_first(), id)
    }
}

/// The places of the players of a list.
pub open spec fn locations_of(users: Seq<UserState>) -> Seq<UserLocationSequence> {
    Seq::new(users.len(), |i: int| users[i].location)
}

/// A game in its room, before it starts: on the small board, at the first
/// window of the track.
pub open spec fn is_fresh_game(g: GameStateResp, id: Seq<char>, map_seed: u64) -> bool {
    &&& g.id@ == id
    &&& g.status == GameState::NotStarted
    &&& g.game_stage == GameStage::UserMove
    &&& g.hint is None
    &&& g.users@.len() == 0
    &&& g.start_index == 1
    &&& g.end_index == 6
    &&& g.round == 1
    &&& g.map_seed == map_seed
    &&& g.map_type == MapType::Standard
    &&& g.game_result is None
}

impl GameStateResp {
    /// A game for a new room, with a seed drawn at random.
    pub fn new(id: String) -> (r: Self)
        ensures
            is_fresh_game(r, id@, r.map_seed),
            r.map_seed <= u32::MAX,
    {
        GameStateResp {
            id,
            status: GameState::NotStarted,
            game_stage: GameStage::UserMove,
            hint: None,
            users: Vec::new(),
            start_index: 1,
            end_index: 6,
            round: 1,
            map_seed: random_u32() as u64,
            map_type: MapType::Standard,
            game_result: None,
        }
    }

    /// The game that a client is shown when it is in no room.
    pub fn empty() -> (r: Self)
        ensures
            is_fresh_game(r, Seq::<char>::empty(), 0),
    {
        GameStateResp {
            id: String::new(),
            status: GameState::NotStarted,
            game_stage: GameStage::UserMove,
            hint: None,
            users: Vec::new(),
            start_index: 1,
            end_index: 6,
            round: 1,
            map_seed: 0,
            map_type: MapType::Standard,
            game_result: None,
        }
    }

    /// Whether the game waits for the player. If it does, the player is
    /// struck off the list of those awaited, and the game goes on by itself
    /// once nobody is left on it.
    pub fn check_waiting_for(&mut self, user_id: &str) -> (r: bool)
        ensures
            r == (old(self).status matches GameState::Wait(list) && position_of(list@, user_id@)
                < list@.len()),
            !r ==> *final(self) == *old(self),
            r ==> ({
                let list = old(self).status->Wait_0;
                let left = list@.remove(position_of(list@, user_id@));
                &&& if left.len() == 0 {
                    final(self).status == GameState::AutoMove
                } else {
                    final(self).status matches GameState::Wait(rest) && rest@ == left
                }
                &&& *final(self) == (GameStateResp { status: final(self).status, ..*old(self) })
            }),
    {
        let found: Option<usize> = match &self.status {
            GameState::Wait(waiting_list) => {
                let i = find_name(waiting_list, user_id);
                if i < waiting_list.len() {
                    Some(i)
                } else {
                    None
                }
            },
            _ => None,
        };
        match found {
            Some(index) => {
                let mut status = GameState::NotStarted;
                std::mem::swap(&mut self.status, &mut status);
                match status {
                    GameState::Wait(mut waiting_list) => {
                        waiting_list.remove(index);
                        if waiting_list.len() == 0 {
                            self.status = GameState::AutoMove;
                        } else {
                            self.status = GameState::Wait(waiting_list);
                        }
                    },
                    _ => {},
                }
                true
            },
            None => false,
        }
    }
}

/// The first player of a list with the given identity, or the length of
/// the list.
pub fn find_user(users: &Vec<UserState>, id: &str) -> (r: usize)
    ensures
        r == user_position(users@, id@),
        r <= users@.len(),
{
    let mut i: usize = 0;
    while i < users.len()
        invariant
            i <= users@.len(),
            user_position(users@, id@) == i + user_position(users@.skip(i as int), id@),
        decreases users@.len() - i,
    {
        assert(users@.skip(i as int).drop_first() =~= users@.skip(i + 1));
        if same_text(users[i].id.as_str(), id) {
            return i;
        }
        i += 1;
    }
    i
}

impl GameStateResp {
    /// Moves a player `delta` steps along the track, behind the players who
    /// are already on the sector reached.
    pub fn user_move(&mut self, user_id: &str, delta: usize) -> (r: Result<(), OpError>)
        requires
            old(self).users@.len() < usize::MAX,
            forall|i: int|
                0 <= i < old(self).users@.len() ==> (#[trigger] old(self).users@[i]).location.index
                    + delta <= usize::MAX && old(self).users@[i].location.round < usize::MAX,
        ensures
            r is Err <==> user_position(old(self).users@, user_id@) == old(self).users@.len(),
            r matches Err(e) ==> e == OpError::UserNotFoundInRoom && *final(self) == *old(self),
            r is Ok ==> ({
                let k = user_position(old(self).users@, user_id@);
                let user = old(self).users@[k];
                let place = user.location.advanced(delta);
                &&& 0 <= k < old(self).users@.len()
                &&& final(self).users@ == old(self).users@.update(
                    k,
                    UserState {
                        location: UserLocationSequence {
                            child_index: (place.sharing(locations_of(old(self).users@))
                                + 1) as usize,
                            ..place
                        },
                        ..user
                    },
                )
                &&& *final(self) == (GameStateResp { users: final(self).users, ..*old(self) })
            }),
    {
        let mut all: Vec<UserLocationSequence> = Vec::new();
        let mut i: usize = 0;
        while i < self.users.len()
            invariant
                *self == *old(self),
                i <= self.users@.len(),
                all@ == locations_of(self.users@).take(i as int),
            decreases self.users@.len() - i,
        {
            all.push(self.users[i].location);
            assert(all@ =~= locations_of(self.users@).take(i + 1));
            i += 1;
        }
        assert(all@ =~= locations_of(self.users@));
        let k = find_user(&self.users, user_id);
        if k >= self.users.len() {
            return Err(OpError::UserNotFoundInRoom);
        }
        let mut user = self.users.remove(k);
        user.location = user.location.next(delta, all.as_slice());
        self.users.insert(k, user);
        assert(self.users@ =~= old(self).users@.update(k as int, user));
        Ok(())
    }
}

/// The tokens of one player.
#[derive(Debug, Clone)]
pub struct UserTokens {
    pub user_id: String,
    pub tokens: Vec<Token>,
}

/// What the server knows of a game and the players do not.
#[derive(Debug, Clone)]
pub struct ServerGameState {
    pub map: GameMap,
    pub research_clues: Vec<Clue>,
    pub x_clues: Vec<Clue>,
    /// The tokens of the players, each player once.
    pub user_tokens: Vec<UserTokens>,
    /// Where the player stood who located X.
    pub terminator_location: Option<UserLocationSequence>,
    pub revealed_sector_indexs: Vec<usize>,
}

/// The first player of a list of token holders with the given identity, or
/// the length of the list.
pub open spec fn holder_position(holders: Seq<UserTokens>, id: Seq<char>) -> int
    decreases holders.len(),
{
    if holders.len() == 0 {
        0
    } else if holders[0].user_id@ == id {
        0
    } else {
        1 + holder_position(holders.drop_first(), id)
    }
}

/// The first token of a list that is of type `t` and not placed, or the
/// length of the list.
pub open spec fn first_unused(tokens: Seq<Token>, t: SectorType) -> int
    decreases tokens.len(),
{
    if tokens.len() == 0 {
        0
    } else if tokens[0].spec_is_not_used(&t) {
        0
    } else {
        1 + first_unused(tokens.drop_first(), t)
    }
}

/// The first token of a list that is of type `t` and placed but on no
/// sector yet, or the length of the list.
pub open spec fn first_ready(tokens: Seq<Token>, t: SectorType) -> int
    decreases tokens.len(),
{
    if tokens.len() == 0 {
        0
    } else if tokens[0].spec_is_ready_published(&t) {
        0
    } else {
        1 + first_ready(tokens.drop_first(), t)
    }
}

/// A token taken in hand to be laid down.
pub open spec fn placed_token(t: Token) -> Token {
    Token { placed: true, ..t }
}

/// A token laid on a sector, three meetings away from its check.
pub open spec fn published_token(t: Token, sector_index: usize) -> Token {
    Token { secret: SecretToken { sector_index, meeting_index: 3, ..t.secret }, ..t }
}

/// The tokens after one token of each wanted type, in the order wanted, was
/// taken in hand; `None` where a type has no token left.
pub open spec fn place_all(tokens: Seq<Token>, wanted: Seq<SectorType>) -> Option<Seq<Token>>
    decreases wanted.len(),
{
    if wanted.len() == 0 {
        Some(tokens)
    } else {
        let i = first_unused(tokens, wanted[0]);
        if i < tokens.len() {
            place_all(tokens.update(i, placed_token(tokens[i])), wanted.drop_first())
        } else {
            None
        }
    }
}

pub fn find_holder(holders: &Vec<UserTokens>, id: &str) -> (r: usize)
    ensures
        r == holder_position(holders@, id@),
        r <= holders@.len(),
{
    let mut i: usize = 0;
    while i < holders.len()
        invariant
            i <= holders@.len(),
            holder_position(holders@, id@) == i + holder_position(holders@.skip(i as int), id@),
        decreases holders@.len() - i,
    {
        assert(holders@.skip(i as int).drop_first() =~= holders@.skip(i + 1));
        if same_text(holders[i].user_id.as_str(), id) {
            return i;
        }
        i += 1;
    }
    i
}

fn find_unused(tokens: &Vec<Token>, t: &SectorType) -> (r: usize)
    ensures
        r == first_unused(tokens@, *t),
        r <= tokens@.len(),
        r < tokens@.len() ==> tokens@[r as int].spec_is_not_used(t),
{
    let mut i: usize = 0;
    while i < tokens.len()
        invariant
            i <= tokens@.len(),
            first_unused(tokens@, *t) == i + first_unused(tokens@.skip(i as int), *t),
        decreases tokens@.len() - i,
    {
        assert(tokens@.skip(i as int).drop_first() =~= tokens@.skip(i + 1));
        if tokens[i].is_not_used(t) {
            return i;
        }
        i += 1;
    }
    i
}

fn find_ready(tokens: &Vec<Token>, t: &SectorType) -> (r: usize)
    ensures
        r == first_ready(tokens@, *t),
        r <= tokens@.len(),
        r < tokens@.len() ==> tokens@[r as int].spec_is_ready_published(t),
{
    let mut i: usize = 0;
    while i < tokens.len()
        invariant
            i <= tokens@.len(),
            first_ready(tokens@, *t) == i + first_ready(tokens@.skip(i as int), *t),
        decreases tokens@.len() - i,
    {
        assert(tokens@.skip(i as int).drop_first() =~= tokens@.skip(i + 1));
        if tokens[i].is_ready_published(t) {
            return i;
        }
        i += 1;
    }
    i
}

/// What a change of one player's tokens leaves of a game: the other
/// players' tokens and all else stay.
pub open spec fn only_tokens_changed(
    before: ServerGameState,
    after: ServerGameState,
    k: int,
    tokens: Seq<Token>,
) -> bool {
    &&& after.user_tokens@.len() == before.user_tokens@.len()
    &&& forall|i: int|
        0 <= i < before.user_tokens@.len() && i != k ==> after.user_tokens@[i]
            == before.user_tokens@[i]
    &&& after.user_tokens@[k].user_id == before.user_tokens@[k].user_id
    &&& after.user_tokens@[k].tokens@ == tokens
    &&& after == (ServerGameState { user_tokens: after.user_tokens, ..before })
}

impl ServerGameState {
    /// What the server holds before a game has started.
    pub fn placeholder() -> (r: Self)
        ensures
            r.map.map_type == MapType::Standard,
            r.map.sectors.data@.len() == 0,
            r.research_clues@.len() == 0,
            r.x_clues@.len() == 0,
            r.user_tokens@.len() == 0,
            r.terminator_location is None,
            r.revealed_sector_indexs@.len() == 0,
    {
        ServerGameState {
            map: GameMap::place_holder(),
            research_clues: Vec::new(),
            x_clues: Vec::new(),
            user_tokens: Vec::new(),
            terminator_location: None,
            revealed_sector_indexs: Vec::new(),
        }
    }

    /// What the players are told of the clues when the game starts: of each
    /// research clue and each clue about X its letter and its signature.
    pub fn clue_secret(&self) -> (r: Vec<ClueSecret>)
        ensures
            r@.len() == self.research_clues@.len() + self.x_clues@.len(),
            forall|i: int|
                0 <= i < r@.len() ==> ({
                    let clue = (self.research_clues@ + self.x_clues@)[i];
                    (#[trigger] r@[i]).index == clue.index && r@[i].secret@ == spec_secret(
                        clue.subject,
                        clue.object,
                    )
                }),
    {
        let mut out: Vec<ClueSecret> = Vec::new();
        let mut i: usize = 0;
        while i < self.research_clues.len()
            invariant
                i <= self.research_clues@.len(),
                out@.len() == i,
                forall|j: int|
                    0 <= j < i ==> (#[trigger] out@[j]).index == self.research_clues@[j].index
                        && out@[j].secret@ == spec_secret(
                        self.research_clues@[j].subject,
                        self.research_clues@[j].object,
                    ),
            decreases self.research_clues@.len() - i,
        {
            let c = &self.research_clues[i];
            out.push(ClueSecret { index: c.index, secret: c.as_secret() });
            i += 1;
        }
        let mut k: usize = 0;
        while k < self.x_clues.len()
            invariant
                k <= self.x_clues@.len(),
                out@.len() == self.research_clues@.len() + k,
                forall|j: int|
                    0 <= j < out@.len() ==> ({
                        let clue = (self.research_clues@ + self.x_clues@)[j];
                        (#[trigger] out@[j]).index == clue.index && out@[j].secret@ == spec_secret(
                            clue.subject,
                            clue.object,
                        )
                    }),
            decreases self.x_clues@.len() - k,
        {
            let c = &self.x_clues[k];
            out.push(ClueSecret { index: c.index, secret: c.as_secret() });
            k += 1;
        }
        out
    }

    /// Takes in hand, for a meeting, one token of the player for each type
    /// of the list. Nothing changes unless the player has them all.
    pub fn ready_publish_token(&mut self, user_id: &str, input_tokens: &[SectorType]) -> (r: Result<
        (),
        OpError,
    >)
        ensures
            match r {
                Ok(_) => {
                    let k = holder_position(old(self).user_tokens@, user_id@);
                    &&& k < old(self).user_tokens@.len()
                    &&& place_all(old(self).user_tokens@[k].tokens@, input_tokens@) matches Some(
                        tokens,
                    ) && only_tokens_changed(*old(self), *final(self), k, tokens)
                },
                Err(e) => {
                    let k = holder_position(old(self).user_tokens@, user_id@);
                    &&& *final(self) == *old(self)
                    &&& if k >= old(self).user_tokens@.len() {
                        e == OpError::UserNotFoundInRoom
                    } else {
                        e == OpError::TokenNotEnough && place_all(
                            old(self).user_tokens@[k].tokens@,
                            input_tokens@,
                        ) is None
                    }
                },
            },
    {
        let k = find_holder(&self.user_tokens, user_id);
        if k >= self.user_tokens.len() {
            return Err(OpError::UserNotFoundInRoom);
        }
        let ghost at_first = self.user_tokens@[k as int].tokens@;
        let mut edited_tokens: Vec<Token> = Vec::new();
        let mut i: usize = 0;
        while i < self.user_tokens[k].tokens.len()
            invariant
                *self == *old(self),
                k < self.user_tokens@.len(),
                at_first == self.user_tokens@[k as int].tokens@,
                i <= at_first.len(),
                edited_tokens@ == at_first.take(i as int),
            decreases at_first.len() - i,
        {
            edited_tokens.push(self.user_tokens[k].tokens[i].clone());
            i += 1;
        }
        assert(edited_tokens@ =~= at_first);
        let mut j: usize = 0;
        while j < input_tokens.len()
            invariant
                *self == *old(self),
                k < self.user_tokens@.len(),
                k == holder_position(self.user_tokens@, user_id@),
                at_first == self.user_tokens@[k as int].tokens@,
                j <= input_tokens@.len(),
                place_all(edited_tokens@, input_tokens@.skip(j as int)) == place_all(
                    at_first,
                    input_tokens@,
                ),
            decreases input_tokens@.len() - j,
        {
            assert(input_tokens@.skip(j as int).drop_first() =~= input_tokens@.skip(j + 1));
            assert(input_tokens@.skip(j as int)[0] == input_tokens@[j as int]);
            let found = find_unused(&edited_tokens, &input_tokens[j]);
            if found >= edited_tokens.len() {
                assert(place_all(edited_tokens@, input_tokens@.skip(j as int)) is None);
                return Err(OpError::TokenNotEnough);
            }
            let mut token = edited_tokens[found].clone();
            token.set_to_be_placed();
            assert(token == placed_token(edited_tokens@[found as int]));
            edited_tokens.set(found, token);
            j += 1;
        }
        assert(input_tokens@.skip(input_tokens@.len() as int) =~= Seq::<SectorType>::empty());
        let mut holder = self.user_tokens.remove(k);
        holder.tokens = edited_tokens;
        self.user_tokens.insert(k, holder);
        Ok(())
    }

    /// Lays the player's first token of the type that is in hand on a
    /// sector.
    pub fn publish_token(&mut self, user_id: &str, index: usize, sector_type: &SectorType) -> (r:
        Result<(), OpError>)
        ensures
            match r {
                Ok(_) => {
                    let k = holder_position(old(self).user_tokens@, user_id@);
                    &&& k < old(self).user_tokens@.len()
                    &&& ({
                        let tokens = old(self).user_tokens@[k].tokens@;
                        let i = first_ready(tokens, *sector_type);
                        i < tokens.len() && only_tokens_changed(
                            *old(self),
                            *final(self),
                            k,
                            tokens.update(i, published_token(tokens[i], index)),
                        )
                    })
                },
                Err(e) => {
                    let k = holder_position(old(self).user_tokens@, user_id@);
                    &&& *final(self) == *old(self)
                    &&& if k >= old(self).user_tokens@.len() {
                        e == OpError::UserNotFoundInRoom
                    } else {
                        e == OpError::TokenNotEnough && first_ready(
                            old(self).user_tokens@[k].tokens@,
                            *sector_type,
                        ) >= old(self).user_tokens@[k].tokens@.len()
                    }
                },
            },
    {
        let k = find_holder(&self.user_tokens, user_id);
        if k >= self.user_tokens.len() {
            return Err(OpError::UserNotFoundInRoom);
        }
        let found = find_ready(&self.user_tokens[k].tokens, sector_type);
        if found >= self.user_tokens[k].tokens.len() {
            return Err(OpError::TokenNotEnough);
        }
        let mut token = self.user_tokens[k].tokens[found].clone();
        token.set_published(index);
        let mut holder = self.user_tokens.remove(k);
        holder.tokens.set(found, token);
        self.user_tokens.insert(k, holder);
        Ok(())
    }

    /// Takes the player's first unused token of the type in hand and lays
    /// it on a sector at once, as the last move allows.
    pub fn last_move_publish_token(
        &mut self,
        user_id: &str,
        index: usize,
        sector_type: &SectorType,
    ) -> (r: Result<(), OpError>)
        requires
            forall|k: int, i: int|
                0 <= k < old(self).user_tokens@.len() && 0 <= i < old(
                    self,
                ).user_tokens@[k].tokens@.len() ==> !(#[trigger] old(
                    self,
                ).user_tokens@[k].tokens@[i]).placed ==> old(
                    self,
                ).user_tokens@[k].tokens@[i].secret.sector_index == 0,
        ensures
            match r {
                Ok(_) => {
                    let k = holder_position(old(self).user_tokens@, user_id@);
                    &&& k < old(self).user_tokens@.len()
                    &&& ({
                        let tokens = old(self).user_tokens@[k].tokens@;
                        let i = first_unused(tokens, *sector_type);
                        i < tokens.len() && only_tokens_changed(
                            *old(self),
                            *final(self),
                            k,
                            tokens.update(i, published_token(placed_token(tokens[i]), index)),
                        )
                    })
                },
                Err(e) => {
                    let k = holder_position(old(self).user_tokens@, user_id@);
                    &&& *final(self) == *old(self)
                    &&& if k >= old(self).user_tokens@.len() {
                        e == OpError::UserNotFoundInRoom
                    } else {
                        e == OpError::TokenNotEnough && first_unused(
                            old(self).user_tokens@[k].tokens@,
                            *sector_type,
                        ) >= old(self).user_tokens@[k].tokens@.len()
                    }
                },
            },
    {
        let k = find_holder(&self.user_tokens, user_id);
        if k >= self.user_tokens.len() {
            return Err(OpError::UserNotFoundInRoom);
        }
        let found = find_unused(&self.user_tokens[k].tokens, sector_type);
        if found >= self.user_tokens[k].tokens.len() {
            return Err(OpError::TokenNotEnough);
        }
        let mut token = self.user_tokens[k].tokens[found].clone();
        token.set_to_be_placed().set_published(index);
        let mut holder = self.user_tokens.remove(k);
        holder.tokens.set(found, token);
        self.user_tokens.insert(k, holder);
        Ok(())
    }
}

} // verus!

use vstd::prelude::*;

use super::game_state::{
    find_user, same_text, user_position, GameState, GameStateResp, UserLocationSequence, UserState,
};
use super::server_resp::RoomError;
use super::EditRoomInfo;
use crate::map::choicefilter::starts_with;
use crate::server_state::User;

verus! {

broadcast use vstd::seq_lib::group_seq_properties;

/// Whether a player is the bot of a room: the identity of a bot begins
/// with `bot-`.
pub open spec fn spec_is_bot(user: UserState) -> bool {
    "bot-"@.is_prefix_of(user.id@)
}

/// Whether a player is the bot of a room.
pub fn is_bot(user: &UserState) -> (r: bool)
    ensures
        r == spec_is_bot(*user),
{
    starts_with(user.id.as_str(), "bot-")
}

/// Whether a player has just come into a room as `user`, `place` players
/// from the head of the track.
pub open spec fn is_newcomer(u: UserState, id: Seq<char>, name: Seq<char>, place: usize) -> bool {
    &&& u.id@ == id
    &&& u.name@ == name
    &&& !u.ready
    &&& u.location == (UserLocationSequence { index: 1, child_index: place, max: 12, round: 1 })
    &&& u.last_move
    &&& u.can_locate
    &&& u.moves@.len() == 0
    &&& u.moves_result@.len() == 0
    &&& u.used_token@.len() == 0
}

/// Whether some player of a list is a bot.
pub open spec fn has_bot(users: Seq<UserState>) -> bool {
    exists|i: int| 0 <= i < users.len() && spec_is_bot(#[trigger] users[i])
}

/// The players that are no bots.
pub open spec fn no_bot() -> spec_fn(UserState) -> bool {
    |u: UserState| !spec_is_bot(u)
}

/// The players other than the one with the given identity.
pub open spec fn other_than(id: Seq<char>) -> spec_fn(UserState) -> bool {
    |u: UserState| u.id@ != id
}

/// Whether a game differs from what it was in its players only.
pub open spec fn only_users_changed(after: GameStateResp, before: GameStateResp) -> bool {
    after == (GameStateResp { users: after.users, ..before })
}

fn any_bot(users: &Vec<UserState>) -> (r: bool)
    ensures
        r == has_bot(users@),
{
    let mut i: usize = 0;
    while i < users.len()
        invariant
            i <= users@.len(),
            forall|j: int| 0 <= j < i ==> !spec_is_bot(#[trigger] users@[j]),
        decreases users@.len() - i,
    {
        if is_bot(&users[i]) {
            return true;
        }
        i += 1;
    }
    false
}

impl GameStateResp {
    /// Whether a player is in the room.
    pub fn has_user(&self, id: &str) -> (r: bool)
        ensures
            r == (user_position(self.users@, id@) < self.users@.len()),
    {
        find_user(&self.users, id) < self.users.len()
    }

    /// Lets a player into the room, unless the player is in it or it
    /// holds four players. Says whether the player came in.
    pub fn enter(&mut self, user: &User) -> (entered: bool)
        ensures
            entered == (user_position(old(self).users@, user.id@) >= old(self).users@.len() && old(self).users@.len() < 4),
            only_users_changed(*final(self), *old(self)),
            !entered ==> final(self).users == old(self).users,
            entered ==> final(self).users@.len() == old(self).users@.len() + 1 && final(self).users@.drop_last() == old(self).users@ && is_newcomer(
                final(self).users@.last(),
                user.id@,
                user.name@,
                final(self).users@.len() as usize,
            ),
    {
        if self.has_user(user.id.as_str()) || self.users.len() >= 4 {
            return false;
        }
        let newcomer = UserState::placeholder(user, self.users.len() + 1);
        self.users.push(newcomer);
        assert(self.users@.drop_last() =~= old(self).users@);
        true
    }

    /// Lets the bot of the room in, unless a bot is in it or it holds
    /// four players. Says whether the bot came in.
    pub fn enable_bot(&mut self, room_id: &str) -> (entered: bool)
        ensures
            entered == (!has_bot(old(self).users@) && old(self).users@.len() < 4),
            only_users_changed(*final(self), *old(self)),
            !entered ==> final(self).users == old(self).users,
            entered ==> final(self).users@.len() == old(self).users@.len() + 1 && final(self).users@.drop_last() == old(self).users@ && is_newcomer(
                final(self).users@.last(),
                "bot-"@ + room_id@,
                "protocol"@,
                final(self).users@.len() as usize,
            ),
    {
        if any_bot(&self.users) || self.users.len() >= 4 {
            return false;
        }
        let mut id = String::from_str("bot-");
        id.append(room_id);
        let bot = User { id, name: String::from_str("protocol") };
        let newcomer = UserState::placeholder(&bot, self.users.len() + 1);
        self.users.push(newcomer);
        assert(self.users@.drop_last() =~= old(self).users@);
        true
    }

    /// Sends every bot out of the room. Says whether there was one.
    pub fn disable_bot(&mut self) -> (left: bool)
        ensures
            left == has_bot(old(self).users@),
            only_users_changed(*final(self), *old(self)),
            final(self).users@ == old(self).users@.filter(no_bot()),
    {
        let left = any_bot(&self.users);
        let mut kept: Vec<UserState> = Vec::new();
        let ghost all = self.users@;
        let mut rest: usize = self.users.len();
        assert(all.take(0).filter(no_bot()) =~= Seq::<UserState>::empty());
        while self.users.len() > 0
            invariant
                only_users_changed(*self, *old(self)),
                all == old(self).users@,
                rest == self.users@.len(),
                rest <= all.len(),
                self.users@ == all.skip(all.len() - rest),
                kept@ == all.take(all.len() - rest).filter(no_bot()),
            decreases rest,
        {
            let ghost i = all.len() - rest;
            let user = self.users.remove(0);
            proof {
                assert(user == all[i]);
                assert(all.take(i + 1) =~= all.take(i).push(all[i]));
                all.take(i).lemma_filter_push(all[i], no_bot());
                assert(self.users@ =~= all.skip(i + 1));
            }
            if !is_bot(&user) {
                kept.push(user);
            }
            rest -= 1;
        }
        assert(all.take(all.len() as int) =~= all);
        self.users = kept;
        left
    }

    /// Sends a player out of the room. Says whether the player was in it.
    pub fn leave(&mut self, id: &str) -> (left: bool)
        ensures
            left == (user_position(old(self).users@, id@) < old(self).users@.len()),
            only_users_changed(*final(self), *old(self)),
            final(self).users@ == old(self).users@.filter(other_than(id@)),
    {
        let left = self.has_user(id);
        let mut kept: Vec<UserState> = Vec::new();
        let ghost all = self.users@;
        let mut rest: usize = self.users.len();
        assert(all.take(0).filter(other_than(id@)) =~= Seq::<UserState>::empty());
        while self.users.len() > 0
            invariant
                only_users_changed(*self, *old(self)),
                all == old(self).users@,
                rest == self.users@.len(),
                rest <= all.len(),
                self.users@ == all.skip(all.len() - rest),
                kept@ == all.take(all.len() - rest).filter(other_than(id@)),
            decreases rest,
        {
            let ghost i = all.len() - rest;
            let user = self.users.remove(0);
            proof {
                assert(user == all[i]);
                assert(all.take(i + 1) =~= all.take(i).push(all[i]));
                all.take(i).lemma_filter_push(all[i], other_than(id@));
                assert(self.users@ =~= all.skip(i + 1));
            }
            if !same_text(user.id.as_str(), id) {
                kept.push(user);
            }
            rest -= 1;
        }
        assert(all.take(all.len() as int) =~= all);
        self.users = kept;
        left
    }

    /// Takes a new board and seed for the room; the window becomes the
    /// first half of the board.
    pub fn edit(&mut self, info: &EditRoomInfo)
        ensures
            *final(self) == (GameStateResp {
                map_seed: info.map_seed,
                map_type: info.map_type,
                end_index: (info.map_type.sector_count() / 2) as usize,
                ..*old(self)
            }),
    {
        self.map_seed = info.map_seed;
        self.map_type = info.map_type;
        self.end_index = self.map_type.sector_count() / 2;
    }

    /// Marks a player of the room as ready or not.
    pub fn set_ready(&mut self, id: &str, ready: bool) -> (r: Result<(), RoomError>)
        ensures
            only_users_changed(*final(self), *old(self)),
            match r {
                Ok(_) => {
                    let k = user_position(old(self).users@, id@);
                    &&& 0 <= k < old(self).users@.len()
                    &&& final(self).users@ == old(self).users@.update(
                        k,
                        UserState { ready, ..old(self).users@[k] },
                    )
                },
                Err(e) => e == RoomError::UserNotFoundInRoom && final(self).users == old(self).users
                    && user_position(old(self).users@, id@) >= old(self).users@.len(),
            },
    {
        let k = find_user(&self.users, id);
        if k >= self.users.len() {
            return Err(RoomError::UserNotFoundInRoom);
        }
        let mut user = self.users.remove(k);
        user.ready = ready;
        self.users.insert(k, user);
        assert(self.users@ =~= old(self).users@.update(k as int, user));
        Ok(())
    }

    /// Whether a player may still come into the room: the game has not
    /// started, or the player is in it already; and it does not hold four
    /// other players.
    pub fn check_join(&self, id: &str) -> (r: Result<bool, RoomError>)
        ensures
            ({
                let here = user_position(self.users@, id@) < self.users@.len();
                if self.status != GameState::NotStarted && !here {
                    r == Err::<bool, RoomError>(RoomError::RoomStarted)
                } else if here {
                    r == Ok::<bool, RoomError>(true)
                } else if self.users@.len() >= 4 {
                    r == Err::<bool, RoomError>(RoomError::RoomFull)
                } else {
                    r == Ok::<bool, RoomError>(false)
                }
            }),
    {
        let here = self.has_user(id);
        let started = match &self.status {
            GameState::NotStarted => false,
            _ => true,
        };
        if started && !here {
            Err(RoomError::RoomStarted)
        } else if here {
            Ok(true)
        } else if self.users.len() >= 4 {
            Err(RoomError::RoomFull)
        } else {
            Ok(false)
        }
    }
}

} // verus!

use vstd::prelude::*;

use super::game_state::{
    find_user, locations_of, user_position, GameStateResp, ServerGameState, UserLocationSequence,
    UserState, UserTokens,
};
use super::game_state::{find_holder, holder_position, GameStage, GameState};
use super::meeting::{push_forward, pushed_forward};
use super::stages::same_table;
use super::play::{filter_position, find_filter, PlayerFilter, Room};
use crate::map::choicefilter::{passes_tokens, token_valid};
use crate::map::model::{slice_contains, type_at, SecretToken, SectorType, Token};

verus! {

broadcast use vstd::seq_lib::group_seq_properties;

/// What a check of tokens works on: the players, the tokens of each
/// holder, and the sectors that are revealed.
pub ghost struct Table {
    pub users: Seq<UserState>,
    pub tokens: Seq<Seq<Token>>,
    pub revealed: Seq<usize>,
}

/// The tokens of each holder.
pub open spec fn tokens_of_all(holders: Seq<UserTokens>) -> Seq<Seq<Token>> {
    Seq::new(holders.len(), |h: int| holders[h].tokens@)
}

/// The identities of the holders.
pub open spec fn holder_ids(holders: Seq<UserTokens>) -> Seq<Seq<char>> {
    Seq::new(holders.len(), |h: int| holders[h].user_id@)
}

/// What a check of tokens in a room works on.
pub open spec fn table_of(room: Room) -> Table {
    Table {
        users: room.gs.users@,
        tokens: tokens_of_all(room.ss.user_tokens@),
        revealed: room.ss.revealed_sector_indexs@,
    }
}

/// Whether a token is due to be checked. In the first round those are due
/// that have come to their check; in the second those that lie unshown on
/// a sector that is revealed.
pub open spec fn is_due(revealed: Seq<usize>, token: Token, second: bool) -> bool {
    if second {
        token.secret.sector_type is None && token.placed && revealed.contains(
            token.secret.sector_index,
        )
    } else {
        token.spec_any_ready_checked()
    }
}

/// A token after its check: it shows its type, and a wrong guess is
/// marked.
pub open spec fn shown(token: Token, right: bool) -> Token {
    Token {
        secret: SecretToken {
            sector_type: Some(token.sector_type),
            meeting_index: if right {
                token.secret.meeting_index
            } else {
                4
            },
            ..token.secret
        },
        ..token
    }
}

/// The players after player `k` was made to go one step on, behind the
/// players already on the sector reached.
pub open spec fn stepped(users: Seq<UserState>, k: int) -> Seq<UserState> {
    let place = users[k].location.advanced(1);
    users.update(
        k,
        UserState {
            location: UserLocationSequence {
                child_index: (place.sharing(locations_of(users)) + 1) as usize,
                ..place
            },
            ..users[k]
        },
    )
}

/// The table after token `t` of holder `h` was looked at for sector `s`.
/// A token that is due and lies on the sector is checked against the
/// layout `truth` and shows its type. A right guess reveals the sector in
/// the first round; a wrong one costs the holder a step.
pub open spec fn visit(
    truth: Seq<SectorType>,
    ids: Seq<Seq<char>>,
    table: Table,
    s: usize,
    h: int,
    t: int,
    second: bool,
) -> Table {
    let token = table.tokens[h][t];
    if is_due(table.revealed, token, second) && token.secret.sector_index == s {
        let right = type_at(truth, s as int) == token.sector_type;
        Table {
            users: if right {
                table.users
            } else {
                stepped(table.users, user_position(table.users, ids[h]))
            },
            tokens: table.tokens.update(h, table.tokens[h].update(t, shown(token, right))),
            revealed: if right && !second {
                table.revealed.push(s)
            } else {
                table.revealed
            },
        }
    } else {
        table
    }
}

/// The table after the first `upto` tokens of holder `h` were looked at
/// for sector `s`.
pub open spec fn visit_tokens(
    truth: Seq<SectorType>,
    ids: Seq<Seq<char>>,
    table: Table,
    s: usize,
    h: int,
    upto: int,
    second: bool,
) -> Table
    decreases upto,
{
    if upto <= 0 {
        table
    } else {
        visit(
            truth,
            ids,
            visit_tokens(truth, ids, table, s, h, upto - 1, second),
            s,
            h,
            upto - 1,
            second,
        )
    }
}

/// The table after the tokens of the first `upto` holders were looked at
/// for sector `s`.
pub open spec fn visit_holders(
    truth: Seq<SectorType>,
    ids: Seq<Seq<char>>,
    table: Table,
    s: usize,
    upto: int,
    second: bool,
) -> Table
    decreases upto,
{
    if upto <= 0 {
        table
    } else {
        let before = visit_holders(truth, ids, table, s, upto - 1, second);
        visit_tokens(truth, ids, before, s, upto - 1, before.tokens[upto - 1].len() as int, second)
    }
}

/// The table after all tokens were looked at for each of the sectors
/// `1..=upto` in turn: the tokens that are due are checked sector by
/// sector, on a sector holder by holder.
pub open spec fn visit_sectors(
    truth: Seq<SectorType>,
    ids: Seq<Seq<char>>,
    table: Table,
    upto: int,
    second: bool,
) -> Table
    decreases upto,
{
    if upto <= 0 {
        table
    } else {
        visit_holders(
            truth,
            ids,
            visit_sectors(truth, ids, table, upto - 1, second),
            upto as usize,
            ids.len() as int,
            second,
        )
    }
}

/// The table when token `t` of holder `h` is about to be looked at for
/// sector `s`.
pub open spec fn stage(
    truth: Seq<SectorType>,
    ids: Seq<Seq<char>>,
    table: Table,
    s: int,
    h: int,
    t: int,
    second: bool,
) -> Table {
    visit_tokens(
        truth,
        ids,
        visit_holders(
            truth,
            ids,
            visit_sectors(truth, ids, table, s - 1, second),
            s as usize,
            h,
            second,
        ),
        s as usize,
        h,
        t,
        second,
    )
}

/// Whether token `t` of holder `h` can be looked at for sector `s`: if it
/// is checked, its holder is a player, and if it is wrong, the place of
/// that player can be counted on.
pub open spec fn safe_visit(
    truth: Seq<SectorType>,
    ids: Seq<Seq<char>>,
    table: Table,
    s: usize,
    h: int,
    t: int,
    second: bool,
) -> bool {
    let token = table.tokens[h][t];
    let k = user_position(table.users, ids[h]);
    is_due(table.revealed, token, second) && token.secret.sector_index == s ==> {
        &&& k < table.users.len() < usize::MAX
        &&& type_at(truth, s as int) != token.sector_type ==> table.users[k].location.index
            < usize::MAX && table.users[k].location.round < usize::MAX
    }
}

/// Whether a round of checks can be made on a board of `n` sectors: every
/// token that is due lies on a sector of the board, and each token can be
/// looked at when its turn comes.
pub open spec fn can_check(
    truth: Seq<SectorType>,
    ids: Seq<Seq<char>>,
    table: Table,
    n: int,
    second: bool,
) -> bool {
    &&& truth.len() == n
    &&& ids.len() == table.tokens.len()
    &&& forall|h: int, t: int|
        0 <= h < table.tokens.len() && 0 <= t < table.tokens[h].len() && is_due(
            table.revealed,
            #[trigger] table.tokens[h][t],
            second,
        ) ==> 1 <= table.tokens[h][t].secret.sector_index <= n
    &&& forall|s: int, h: int, t: int|
        1 <= s <= n && 0 <= h < table.tokens.len() && 0 <= t < table.tokens[h].len()
            ==> safe_visit(
            truth,
            ids,
            #[trigger] stage(truth, ids, table, s, h, t, second),
            s as usize,
            h,
            t,
            second,
        )
}

/// Whether two tables have as many players, holders and tokens of each
/// holder.
pub open spec fn same_shape(a: Table, b: Table) -> bool {
    &&& a.users.len() == b.users.len()
    &&& a.tokens.len() == b.tokens.len()
    &&& forall|h: int| 0 <= h < a.tokens.len() ==> (#[trigger] a.tokens[h]).len() == b.tokens[h].len()
}

/// Whether a room differs from what it was in nothing but the places of
/// its players, their tokens and the sectors revealed.
pub open spec fn same_but_table(after: Room, before: Room) -> bool {
    &&& after.gs == (GameStateResp { users: after.gs.users, ..before.gs })
    &&& after.ss == (ServerGameState {
        user_tokens: after.ss.user_tokens,
        revealed_sector_indexs: after.ss.revealed_sector_indexs,
        ..before.ss
    })
    &&& after.choices == before.choices
    &&& holder_ids(after.ss.user_tokens@) == holder_ids(before.ss.user_tokens@)
    &&& same_shape(table_of(after), table_of(before))
}

fn locations_in(users: &Vec<UserState>) -> (r: Vec<UserLocationSequence>)
    ensures
        r@ == locations_of(users@),
{
    let mut all: Vec<UserLocationSequence> = Vec::new();
    let mut i: usize = 0;
    while i < users.len()
        invariant
            i <= users@.len(),
            all@ == locations_of(users@).take(i as int),
        decreases users@.len() - i,
    {
        all.push(users[i].location);
        assert(all@ =~= locations_of(users@).take(i + 1));
        i += 1;
    }
    assert(all@ =~= locations_of(users@));
    all
}

impl Room {
    /// Looks at token `t` of holder `h` for sector `s`.
    fn check_token(&mut self, s: usize, h: usize, t: usize, second: bool)
        requires
            h < old(self).ss.user_tokens@.len(),
            t < old(self).ss.user_tokens@[h as int].tokens@.len(),
            1 <= s <= old(self).ss.map.sectors@.len(),
            safe_visit(
                old(self).ss.map.sectors@,
                holder_ids(old(self).ss.user_tokens@),
                table_of(*old(self)),
                s,
                h as int,
                t as int,
                second,
            ),
        ensures
            same_but_table(*final(self), *old(self)),
            table_of(*final(self)) == visit(
                old(self).ss.map.sectors@,
                holder_ids(old(self).ss.user_tokens@),
                table_of(*old(self)),
                s,
                h as int,
                t as int,
                second,
            ),
    {
        let ghost before = table_of(*self);
        let ghost ids = holder_ids(self.ss.user_tokens@);
        let token = &self.ss.user_tokens[h].tokens[t];
        let due = if second {
            token.secret.sector_type.is_none() && token.placed && slice_contains(
                self.ss.revealed_sector_indexs.as_slice(),
                token.secret.sector_index,
            )
        } else {
            token.any_ready_checked()
        };
        assert(before.tokens[h as int][t as int] == *token);
        if !due || token.secret.sector_index != s {
            return ;
        }
        let sector_type = token.sector_type;
        let k = find_user(&self.gs.users, self.ss.user_tokens[h].user_id.as_str());
        assert(ids[h as int] == self.ss.user_tokens@[h as int].user_id@);
        let right = self.ss.map.meeting_check(s, &sector_type);
        let mut holder = self.ss.user_tokens.remove(h);
        let mut token = holder.tokens.remove(t);
        let ghost was = token;
        token.secret.sector_type = Some(sector_type);
        if !right {
            token.secret.meeting_index = 4;
        }
        assert(token == shown(was, right));
        holder.tokens.insert(t, token);
        self.ss.user_tokens.insert(h, holder);
        assert(holder.tokens@ =~= before.tokens[h as int].update(t as int, token));
        assert(holder_ids(self.ss.user_tokens@) =~= ids);
        assert(tokens_of_all(self.ss.user_tokens@) =~= before.tokens.update(
            h as int,
            before.tokens[h as int].update(t as int, token),
        ));
        if right {
            if !second {
                self.ss.revealed_sector_indexs.push(s);
            }
        } else {
            let all = locations_in(&self.gs.users);
            let mut user = self.gs.users.remove(k);
            user.location = user.location.next(1, all.as_slice());
            self.gs.users.insert(k, user);
            assert(self.gs.users@ =~= stepped(before.users, k as int));
        }
    }
}

impl Room {
    /// Makes one round of checks: looks at all tokens for each sector of
    /// the board in turn.
    pub fn check_round(&mut self, second: bool)
        requires
            can_check(
                old(self).ss.map.sectors@,
                holder_ids(old(self).ss.user_tokens@),
                table_of(*old(self)),
                old(self).ss.map.sectors@.len() as int,
                second,
            ),
        ensures
            same_but_table(*final(self), *old(self)),
            table_of(*final(self)) == visit_sectors(
                old(self).ss.map.sectors@,
                holder_ids(old(self).ss.user_tokens@),
                table_of(*old(self)),
                old(self).ss.map.sectors@.len() as int,
                second,
            ),
    {
        let n = self.ss.map.size();
        let ghost truth = self.ss.map.sectors@;
        let ghost ids = holder_ids(self.ss.user_tokens@);
        let ghost base = table_of(*self);
        let mut s: usize = 0;
        while s < n
            invariant
                s <= n,
                n == truth.len(),
                truth == self.ss.map.sectors@,
                ids == holder_ids(self.ss.user_tokens@),
                base == table_of(*old(self)),
                same_but_table(*self, *old(self)),
                can_check(truth, ids, base, n as int, second),
                table_of(*self) == visit_sectors(truth, ids, base, s as int, second),
            decreases n - s,
        {
            s += 1;
            let ghost at_sector = table_of(*self);
            let mut h: usize = 0;
            while h < self.ss.user_tokens.len()
                invariant
                    1 <= s <= n,
                    n == truth.len(),
                    truth == self.ss.map.sectors@,
                    ids == holder_ids(self.ss.user_tokens@),
                    base == table_of(*old(self)),
                    same_but_table(*self, *old(self)),
                    can_check(truth, ids, base, n as int, second),
                    h <= self.ss.user_tokens@.len(),
                    at_sector == visit_sectors(truth, ids, base, s - 1, second),
                    table_of(*self) == visit_holders(truth, ids, at_sector, s, h as int, second),
                decreases self.ss.user_tokens@.len() - h,
            {
                let ghost at_holder = table_of(*self);
                let mut t: usize = 0;
                while t < self.ss.user_tokens[h].tokens.len()
                    invariant
                        1 <= s <= n,
                        n == truth.len(),
                        truth == self.ss.map.sectors@,
                        ids == holder_ids(self.ss.user_tokens@),
                        base == table_of(*old(self)),
                        same_but_table(*self, *old(self)),
                        can_check(truth, ids, base, n as int, second),
                        h < self.ss.user_tokens@.len(),
                        t <= self.ss.user_tokens@[h as int].tokens@.len(),
                        at_sector == visit_sectors(truth, ids, base, s - 1, second),
                        at_holder == visit_holders(truth, ids, at_sector, s, h as int, second),
                        at_holder.tokens.len() == base.tokens.len(),
                        at_holder.tokens[h as int].len() == base.tokens[h as int].len(),
                        table_of(*self) == visit_tokens(
                            truth,
                            ids,
                            at_holder,
                            s,
                            h as int,
                            t as int,
                            second,
                        ),
                    decreases self.ss.user_tokens@[h as int].tokens@.len() - t,
                {
                    assert(table_of(*self) == stage(
                        truth,
                        ids,
                        base,
                        s as int,
                        h as int,
                        t as int,
                        second,
                    ));
                    assert(table_of(*self).tokens[h as int] == self.ss.user_tokens@[h as int].tokens@);
                    let ghost looked = table_of(*self);
                    self.check_token(s, h, t, second);
                    assert(table_of(*self).tokens[h as int].len() == looked.tokens[h as int].len());
                    assert(table_of(*self).tokens[h as int] == self.ss.user_tokens@[h as int].tokens@);
                    t += 1;
                }
                assert(table_of(*self).tokens[h as int] == self.ss.user_tokens@[h as int].tokens@);
                h += 1;
            }
            assert(ids.len() == self.ss.user_tokens@.len());
        }
    }
}

/// Whether a token shows its type.
pub open spec fn shows_type() -> spec_fn(Token) -> bool {
    |t: Token| t.placed && t.secret.sector_type is Some
}

/// The tokens of a list that show their type.
pub fn shown_tokens(tokens: &Vec<Token>) -> (r: Vec<Token>)
    ensures
        r@ == tokens@.filter(shows_type()),
{
    let mut kept: Vec<Token> = Vec::new();
    let mut i: usize = 0;
    assert(tokens@.take(0).filter(shows_type()) =~= Seq::<Token>::empty());
    while i < tokens.len()
        invariant
            i <= tokens@.len(),
            kept@ == tokens@.take(i as int).filter(shows_type()),
        decreases tokens@.len() - i,
    {
        proof {
            assert(tokens@.take(i + 1) =~= tokens@.take(i as int).push(tokens@[i as int]));
            tokens@.take(i as int).lemma_filter_push(tokens@[i as int], shows_type());
        }
        if tokens[i].placed && tokens[i].secret.sector_type.is_some() {
            kept.push(tokens[i].clone());
        }
        i += 1;
    }
    assert(tokens@.take(i as int) =~= tokens@);
    kept
}

/// Whether filter `after` is filter `before` after it was shown `tokens`.
/// A filter that holds no candidates yet puts them by; one that does
/// strikes out the candidates that disagree with them.
pub open spec fn took(after: PlayerFilter, before: PlayerFilter, tokens: Seq<Token>) -> bool {
    &&& after.user_id == before.user_id
    &&& after.filter.wf()
    &&& after.filter.board() == before.filter.board()
    &&& after.filter.log() == before.filter.log()
    &&& after.filter.ready() == before.filter.ready()
    &&& !before.filter.ready() ==> after.filter.held_tokens() == tokens && after.filter.pool()
        == before.filter.pool()
    &&& before.filter.ready() ==> after.filter.held_tokens() == before.filter.held_tokens()
        && after.filter.candidates() == before.filter.candidates().filter(passes_tokens(tokens))
}

/// Whether each holder is in the list once.
pub open spec fn each_holder_once(holders: Seq<UserTokens>) -> bool {
    forall|h: int|
        0 <= h < holders.len() ==> holder_position(holders, (#[trigger] holders[h]).user_id@) == h
}

/// Whether the filters `after` are the filters `before` after each player's
/// filter was shown the player's tokens that show their type, as far as
/// the first `upto` holders go. The filter of a player is the first with
/// the player's identity.
pub open spec fn filters_shown(
    after: Seq<PlayerFilter>,
    before: Seq<PlayerFilter>,
    holders: Seq<UserTokens>,
    upto: int,
) -> bool {
    &&& after.len() == before.len()
    &&& forall|i: int|
        0 <= i < before.len() ==> {
            let id = before[i].user_id@;
            let k = holder_position(holders, id);
            if k < upto && filter_position(before, id) == i {
                took(#[trigger] after[i], before[i], holders[k].tokens@.filter(shows_type()))
            } else {
                after[i] == before[i]
            }
        }
}

/// Where a player's filter is found, the filter is the player's, and no
/// filter before it is.
pub proof fn lemma_filter_found(choices: Seq<PlayerFilter>, id: Seq<char>)
    ensures
        0 <= filter_position(choices, id) <= choices.len(),
        filter_position(choices, id) < choices.len() ==> choices[filter_position(
            choices,
            id,
        )].user_id@ == id,
        forall|j: int| 0 <= j < filter_position(choices, id) ==> (#[trigger] choices[j]).user_id@ != id,
    decreases choices.len(),
{
    if choices.len() > 0 && choices[0].user_id@ != id {
        let rest = choices.drop_first();
        lemma_filter_found(rest, id);
        assert forall|j: int| 0 <= j < filter_position(choices, id) implies (
        #[trigger] choices[j]).user_id@ != id by {
            if j > 0 {
                assert(choices[j] == rest[j - 1]);
            }
        }
    }
}

/// Where a holder is found, the holder has the identity asked for, and no
/// holder before has.
pub proof fn lemma_holder_found(holders: Seq<UserTokens>, id: Seq<char>)
    ensures
        0 <= holder_position(holders, id) <= holders.len(),
        holder_position(holders, id) < holders.len() ==> holders[holder_position(
            holders,
            id,
        )].user_id@ == id,
        forall|j: int| 0 <= j < holder_position(holders, id) ==> (#[trigger] holders[j]).user_id@ != id,
    decreases holders.len(),
{
    if holders.len() > 0 && holders[0].user_id@ != id {
        let rest = holders.drop_first();
        lemma_holder_found(rest, id);
        assert forall|j: int| 0 <= j < holder_position(holders, id) implies (
        #[trigger] holders[j]).user_id@ != id by {
            if j > 0 {
                assert(holders[j] == rest[j - 1]);
            }
        }
    }
}

/// Lists of filters for the same players hold a player's filter at the
/// same place.
pub proof fn lemma_same_filter_ids(a: Seq<PlayerFilter>, b: Seq<PlayerFilter>, id: Seq<char>)
    requires
        a.len() == b.len(),
        forall|i: int| 0 <= i < a.len() ==> (#[trigger] a[i]).user_id == b[i].user_id,
    ensures
        filter_position(a, id) == filter_position(b, id),
    decreases a.len(),
{
    if a.len() > 0 {
        assert(a[0].user_id == b[0].user_id);
        lemma_same_filter_ids(a.drop_first(), b.drop_first(), id);
    }
}

impl Room {
    /// Shows each player's filter the tokens of the player that show
    /// their type.
    pub fn show_tokens(&mut self)
        requires
            each_holder_once(old(self).ss.user_tokens@),
            forall|i: int|
                0 <= i < old(self).choices@.len() ==> (#[trigger] old(self).choices@[i]).filter.wf()
                    && old(self).choices@[i].filter.board() == old(self).gs.map_type,
            forall|h: int, t: int|
                0 <= h < old(self).ss.user_tokens@.len() && 0 <= t < old(
                    self,
                ).ss.user_tokens@[h].tokens@.len() ==> token_valid(
                    old(self).gs.map_type.sector_count() as int,
                    #[trigger] old(self).ss.user_tokens@[h].tokens@[t],
                ),
        ensures
            final(self).gs == old(self).gs,
            final(self).ss == old(self).ss,
            filters_shown(
                final(self).choices@,
                old(self).choices@,
                old(self).ss.user_tokens@,
                old(self).ss.user_tokens@.len() as int,
            ),
    {
        let ghost holders = self.ss.user_tokens@;
        let ghost n = self.gs.map_type.sector_count() as int;
        let mut h: usize = 0;
        proof {
            assert forall|i: int| 0 <= i < self.choices@.len() implies holder_position(
                holders,
                (#[trigger] self.choices@[i]).user_id@,
            ) >= 0 by {
                lemma_holder_found(holders, self.choices@[i].user_id@);
            }
        }
        while h < self.ss.user_tokens.len()
            invariant
                self.gs == old(self).gs,
                self.ss == old(self).ss,
                holders == self.ss.user_tokens@,
                n == self.gs.map_type.sector_count(),
                each_holder_once(holders),
                h <= holders.len(),
                forall|i: int|
                    0 <= i < self.choices@.len() ==> (#[trigger] self.choices@[i]).filter.wf()
                        && self.choices@[i].filter.board() == self.gs.map_type
                        && self.choices@[i].user_id == old(self).choices@[i].user_id,
                forall|a: int, b: int|
                    0 <= a < holders.len() && 0 <= b < holders[a].tokens@.len() ==> token_valid(
                        n,
                        #[trigger] holders[a].tokens@[b],
                    ),
                filters_shown(self.choices@, old(self).choices@, holders, h as int),
            decreases holders.len() - h,
        {
            let ghost before = self.choices@;
            let ghost id = holders[h as int].user_id@;
            let f = find_filter(&self.choices, self.ss.user_tokens[h].user_id.as_str());
            proof {
                lemma_same_filter_ids(before, old(self).choices@, id);
                lemma_filter_found(old(self).choices@, id);
            }
            if f < self.choices.len() {
                let placed = shown_tokens(&self.ss.user_tokens[h].tokens);
                assert forall|i: int| 0 <= i < placed@.len() implies token_valid(
                    n,
                    #[trigger] placed@[i],
                ) by {
                    let all = holders[h as int].tokens@;
                    all.lemma_filter_contains_rev(shows_type(), placed@[i]);
                    let b = choose|b: int| 0 <= b < all.len() && all[b] == placed@[i];
                    assert(token_valid(n, holders[h as int].tokens@[b]));
                }
                let mut choice = self.choices.remove(f);
                choice.filter.update_tokens(placed.as_slice());
                self.choices.insert(f, choice);
                assert(self.choices@ =~= before.update(f as int, choice));
            }
            proof {
                assert forall|i: int| 0 <= i < old(self).choices@.len() implies ({
                    let id_i = old(self).choices@[i].user_id@;
                    let k = holder_position(holders, id_i);
                    if k < h + 1 && filter_position(old(self).choices@, id_i) == i {
                        took(
                            #[trigger] self.choices@[i],
                            old(self).choices@[i],
                            holders[k].tokens@.filter(shows_type()),
                        )
                    } else {
                        self.choices@[i] == old(self).choices@[i]
                    }
                }) by {
                    let id_i = old(self).choices@[i].user_id@;
                    let k = holder_position(holders, id_i);
                    lemma_holder_found(holders, id_i);
                    assert(before[i].user_id == old(self).choices@[i].user_id);
                    if k == h {
                        assert(id_i == id);
                    } else if i == f && f < before.len() {
                        assert(id_i == id);
                        assert(holder_position(holders, holders[h as int].user_id@) == h);
                    }
                }
            }
            h += 1;
        }
    }
}

/// Lists of holders with the same identities hold a player at the same
/// place.
pub proof fn lemma_same_holder_ids(a: Seq<UserTokens>, b: Seq<UserTokens>, id: Seq<char>)
    requires
        holder_ids(a) == holder_ids(b),
    ensures
        holder_position(a, id) == holder_position(b, id),
    decreases a.len(),
{
    assert(a.len() == holder_ids(a).len());
    assert(b.len() == holder_ids(b).len());
    if a.len() > 0 {
        assert(a[0].user_id@ == holder_ids(a)[0]);
        assert(b[0].user_id@ == holder_ids(b)[0]);
        assert forall|i: int| 0 <= i < a.len() - 1 implies holder_ids(a.drop_first())[i]
            == holder_ids(b.drop_first())[i] by {
            assert(holder_ids(a)[i + 1] == holder_ids(b)[i + 1]);
        }
        assert(holder_ids(a.drop_first()) =~= holder_ids(b.drop_first()));
        lemma_same_holder_ids(a.drop_first(), b.drop_first(), id);
    }
}

/// The table of a room after the checks of a meeting: the round of the
/// tokens that have come to their check, then the round of those that lie
/// on a sector now revealed.
pub open spec fn checked(room: Room) -> Table {
    let truth = room.ss.map.sectors@;
    let ids = holder_ids(room.ss.user_tokens@);
    let n = truth.len() as int;
    visit_sectors(truth, ids, visit_sectors(truth, ids, table_of(room), n, false), n, true)
}

/// Whether the checks of a meeting can be held in a room. Both rounds can
/// be made; afterwards the places of the players can be counted on and
/// every token that shows its type lies on the board; each holder is in
/// the list once, and each filter is in order and for the board of the
/// game.
pub open spec fn can_hold_check(room: Room) -> bool {
    let truth = room.ss.map.sectors@;
    let ids = holder_ids(room.ss.user_tokens@);
    let n = truth.len() as int;
    &&& n == room.gs.map_type.sector_count()
    &&& can_check(truth, ids, table_of(room), n, false)
    &&& can_check(truth, ids, visit_sectors(truth, ids, table_of(room), n, false), n, true)
    &&& room.gs.round < usize::MAX
    &&& forall|i: int|
        0 <= i < checked(room).users.len() ==> (#[trigger] checked(room).users[i]).location.index
            <= usize::MAX - 18
    &&& forall|h: int, t: int|
        0 <= h < checked(room).tokens.len() && 0 <= t < checked(room).tokens[h].len()
            ==> token_valid(n, #[trigger] checked(room).tokens[h][t])
    &&& each_holder_once(room.ss.user_tokens@)
    &&& forall|i: int|
        0 <= i < room.choices@.len() ==> (#[trigger] room.choices@[i]).filter.wf()
            && room.choices@[i].filter.board() == room.gs.map_type
}

impl Room {
    /// Holds the checks of a meeting: checks the tokens that are due,
    /// pushes the game forward past the meeting, and shows each filter
    /// what the player's tokens now show. Says whether the game has ended
    /// for want of a point; the filters are then left as they were.
    pub fn check_meeting(&mut self) -> (ended: bool)
        requires
            can_hold_check(*old(self)),
        ensures
            table_of(*final(self)) == checked(*old(self)),
            holder_ids(final(self).ss.user_tokens@) == holder_ids(old(self).ss.user_tokens@),
            final(self).ss == (ServerGameState {
                user_tokens: final(self).ss.user_tokens,
                revealed_sector_indexs: final(self).ss.revealed_sector_indexs,
                ..old(self).ss
            }),
            same_table(final(self).gs, GameStateResp { users: final(self).gs.users, ..old(self).gs }),
            pushed_forward(
                final(self).gs,
                GameStateResp { users: final(self).gs.users, ..old(self).gs },
                ended,
            ),
            ended ==> final(self).choices == old(self).choices,
            !ended ==> filters_shown(
                final(self).choices@,
                old(self).choices@,
                final(self).ss.user_tokens@,
                final(self).ss.user_tokens@.len() as int,
            ),
    {
        let ghost truth = self.ss.map.sectors@;
        let ghost ids = holder_ids(self.ss.user_tokens@);
        self.check_round(false);
        assert(self.ss.map.sectors@ == truth);
        assert(holder_ids(self.ss.user_tokens@) == ids);
        assert(table_of(*self) == visit_sectors(
            truth,
            ids,
            table_of(*old(self)),
            truth.len() as int,
            false,
        ));
        self.check_round(true);
        assert(table_of(*self) == checked(*old(self)));
        let ghost holders = self.ss.user_tokens@;
        proof {
            assert forall|i: int| 0 <= i < self.gs.users@.len() implies (
            #[trigger] self.gs.users@[i]).location.index <= usize::MAX - 18 by {
                assert(checked(*old(self)).users[i] == self.gs.users@[i]);
            }
            assert forall|h: int| 0 <= h < holders.len() implies holder_position(
                holders,
                (#[trigger] holders[h]).user_id@,
            ) == h by {
                let first = old(self).ss.user_tokens@;
                assert(holders[h].user_id@ == holder_ids(holders)[h]);
                assert(first[h].user_id@ == holder_ids(first)[h]);
                lemma_same_holder_ids(holders, first, holders[h].user_id@);
            }
            assert forall|h: int, t: int|
                0 <= h < holders.len() && 0 <= t < holders[h].tokens@.len() implies token_valid(
                self.gs.map_type.sector_count() as int,
                #[trigger] holders[h].tokens@[t],
            ) by {
                assert(table_of(*self).tokens[h][t] == holders[h].tokens@[t]);
            }
        }
        if push_forward(&mut self.gs) {
            return true;
        }
        self.show_tokens();
        false
    }
}

} // verus!

use itertools::Itertools;
use vstd::prelude::*;

use super::clue::{adjacent_to, check_clue_with_sectors, clue_holds, holds_at, lemma_view_neighbours};
use super::enumerator::{enumeration, MapEnumerator};
use super::model::{
    locate_result, next_index, prev_index, range_count, type_at, MapType, SectorType, Sectors,
    Token,
};
use super::clue::Clue;
use super::origin::lemma_enumeration_len;
use super::ratio::{impurity, spec_impurity, Ratio};
use crate::operation::{LocateOperation, Operation, OperationResult, SurveyOperatoin};

verus! {

broadcast use vstd::seq_lib::group_seq_properties;

/// The most candidates that a filter keeps for a human player.
pub const MAX_CACHED_COUNT: usize = 100000;

/// The most candidates that a filter keeps for a bot.
pub const MAX_CACHED_COUNT_FOR_BOT: usize = 500000;

/// Whether an operation and its answer speak of sectors that the board has.
/// Only what the filter reads is asked for.
pub open spec fn op_valid(n: int, op: Operation, result: OperationResult) -> bool {
    match (op, result) {
        (Operation::Survey(s), OperationResult::Survey(_)) => 0 < s.start <= n && 0 < s.end <= n,
        (Operation::Target(t), OperationResult::Target(_)) => 1 <= t.index <= n,
        (Operation::Locate(l), OperationResult::Locate(found)) => found ==> 1 <= l.index <= n,
        _ => true,
    }
}

/// Whether layout `s` would have given this answer to this operation, as far
/// as the answer tells. A target that showed `Space` may have hit X; a locate
/// that failed tells nothing; neither does a publication.
pub open spec fn op_holds(s: Seq<SectorType>, op: Operation, result: OperationResult) -> bool {
    match (op, result) {
        (Operation::Survey(sv), OperationResult::Survey(cnt)) => range_count(
            s,
            sv.start as int,
            sv.end as int,
            sv.sector_type,
        ) == cnt,
        (Operation::Target(t), OperationResult::Target(seen)) => if seen == SectorType::Space {
            type_at(s, t.index as int) == SectorType::Space || type_at(s, t.index as int)
                == SectorType::X
        } else {
            type_at(s, t.index as int) == seen
        },
        (Operation::Research(_), OperationResult::Research(clue)) => clue_holds(
            s,
            clue.subject,
            clue.object,
            clue.conn,
        ),
        (Operation::Locate(l), OperationResult::Locate(found)) => found ==> locate_result(
            s,
            l.index as int,
            l.pre_sector_type,
            l.next_sector_type,
        ),
        _ => true,
    }
}

/// Whether a token that the filter reads lies on a sector of the board.
pub open spec fn token_valid(n: int, token: Token) -> bool {
    token.placed && token.secret.sector_type is Some ==> 1 <= token.secret.sector_index <= n
}

/// Whether layout `s` agrees with what a token has shown. A token that is
/// not placed or shows nothing yet tells nothing; one that was a wrong guess
/// tells that its sector does not hold its type; any other that its sector
/// does.
pub open spec fn token_holds(s: Seq<SectorType>, token: Token) -> bool {
    if !token.placed || token.secret.sector_type is None {
        true
    } else if token.secret.meeting_index == 4 {
        type_at(s, token.secret.sector_index as int) != token.sector_type
    } else {
        type_at(s, token.secret.sector_index as int) == token.sector_type
    }
}

/// Whether layout `s` agrees with every operation of the log.
pub open spec fn all_ops_hold(s: Seq<SectorType>, ops: Seq<(Operation, OperationResult)>) -> bool {
    forall|i: int| 0 <= i < ops.len() ==> op_holds(s, (#[trigger] ops[i]).0, ops[i].1)
}

/// Whether layout `s` agrees with every token.
pub open spec fn all_tokens_hold(s: Seq<SectorType>, tokens: Seq<Token>) -> bool {
    forall|i: int| 0 <= i < tokens.len() ==> token_holds(s, #[trigger] tokens[i])
}

/// The test of one operation.
pub open spec fn passes_op(op: Operation, result: OperationResult) -> spec_fn(
    Seq<SectorType>,
) -> bool {
    |s: Seq<SectorType>| op_holds(s, op, result)
}

/// The test of a set of tokens.
pub open spec fn passes_tokens(tokens: Seq<Token>) -> spec_fn(Seq<SectorType>) -> bool {
    |s: Seq<SectorType>| all_tokens_hold(s, tokens)
}

/// The test of a log of operations and a set of tokens.
pub open spec fn passes_all(ops: Seq<(Operation, OperationResult)>, tokens: Seq<Token>) -> spec_fn(
    Seq<SectorType>,
) -> bool {
    |s: Seq<SectorType>| all_ops_hold(s, ops) && all_tokens_hold(s, tokens)
}

/// The layouts of a list of boards.
pub open spec fn layouts_of(all: Seq<Sectors>) -> Seq<Seq<SectorType>> {
    Seq::new(all.len(), |i: int| all[i]@)
}

/// The layouts of a list that grew by one.
pub proof fn lemma_layouts_push(all: Seq<Sectors>, x: Sectors)
    ensures
        layouts_of(all.push(x)) == layouts_of(all).push(x@),
{
    assert(layouts_of(all.push(x)) =~= layouts_of(all).push(x@));
}

/// `str::starts_with` with a string as the pattern: whether the string
/// begins with the prefix.
#[verifier::external_body]
pub(crate) fn starts_with(s: &str, prefix: &str) -> (r: bool)
    ensures
        r == prefix@.is_prefix_of(s@),
{
    s.starts_with(prefix)
}

/// What one player can still take the true layout to be. It starts without
/// candidates and keeps a log of what the player has learned; once a pass
/// over all layouts of the board leaves few enough, it holds them and from
/// then on only strikes candidates out.
#[derive(Debug, Clone)]
pub struct ChoiceFilter {
    map_type: MapType,
    id: String,
    pub all: Vec<Sectors>,
    ops: Vec<(Operation, OperationResult)>,
    tokens: Vec<Token>,
    pub initialized: bool,
}

impl ChoiceFilter {
    /// The board of the game.
    pub closed spec fn board(&self) -> MapType {
        self.map_type
    }

    /// The player's name.
    pub closed spec fn name(&self) -> Seq<char> {
        self.id@
    }

    /// What the player has done and learned, oldest first.
    pub closed spec fn log(&self) -> Seq<(Operation, OperationResult)> {
        self.ops@
    }

    /// The tokens that the filter has put by for its first pass.
    pub closed spec fn held_tokens(&self) -> Seq<Token> {
        self.tokens@
    }

    /// The boards that the filter holds.
    pub closed spec fn pool(&self) -> Seq<Sectors> {
        self.all@
    }

    /// Whether the first pass has left few enough candidates for the filter
    /// to hold them.
    pub closed spec fn ready(&self) -> bool {
        self.initialized
    }

    /// The candidates as layouts.
    pub open spec fn candidates(&self) -> Seq<Seq<SectorType>> {
        layouts_of(self.pool())
    }

    /// Whether the player is a bot: its name begins with `bot-`.
    pub open spec fn spec_is_bot(&self) -> bool {
        "bot-"@.is_prefix_of(self.name())
    }

    /// The most candidates that the filter keeps.
    pub open spec fn cap(&self) -> usize {
        if self.spec_is_bot() {
            MAX_CACHED_COUNT_FOR_BOT
        } else {
            MAX_CACHED_COUNT
        }
    }

    /// The candidates are boards of the game's size, there are none before
    /// the first pass has left few enough, and the log and the tokens speak
    /// of sectors that such a board has.
    pub open spec fn wf(&self) -> bool {
        let n = self.board().sector_count() as int;
        &&& !self.ready() ==> self.pool().len() == 0
        &&& forall|i: int|
            0 <= i < self.pool().len() ==> (#[trigger] self.pool()[i]).wf() && self.pool()[i]@.len()
                == n
        &&& forall|i: int|
            0 <= i < self.log().len() ==> op_valid(n, (#[trigger] self.log()[i]).0, self.log()[i].1)
        &&& forall|i: int|
            0 <= i < self.held_tokens().len() ==> token_valid(n, #[trigger] self.held_tokens()[i])
    }

    pub fn new(map_type: MapType, id: String) -> (r: Self)
        ensures
            r.wf(),
            r.board() == map_type,
            r.name() == id@,
            !r.ready(),
            r.pool().len() == 0,
            r.log().len() == 0,
            r.held_tokens().len() == 0,
    {
        Self {
            map_type,
            id,
            all: Vec::new(),
            ops: Vec::new(),
            tokens: Vec::new(),
            initialized: false,
        }
    }

    /// Whether the filter holds candidates.
    pub fn is_ready(&self) -> (r: bool)
        ensures
            r == self.ready(),
    {
        self.initialized
    }

    #[verifier::when_used_as_spec(spec_is_bot)]
    pub fn is_bot(&self) -> (r: bool)
        ensures
            r == self.spec_is_bot(),
    {
        starts_with(self.id.as_str(), "bot-")
    }

    /// How many candidates the filter holds; 0 before its first pass has
    /// left few enough.
    pub fn len(&self) -> (r: usize)
        ensures
            r == self.candidates().len(),
            self.wf() && !self.ready() ==> r == 0,
    {
        self.all.len()
    }

    /// Whether a board agrees with what a token has shown.
    pub fn filter_token(ss: &Sectors, token: &Token) -> (r: bool)
        requires
            token_valid(ss@.len() as int, *token),
        ensures
            r == token_holds(ss@, *token),
    {
        if !token.placed {
            return true;
        }
        if token.secret.sector_type.is_none() {
            return true;
        }
        proof {
            lemma_view_neighbours(ss, token.secret.sector_index as int);
        }
        if token.secret.meeting_index == 4 {
            ss.data[token.secret.sector_index - 1].sector_type != token.sector_type
        } else {
            ss.data[token.secret.sector_index - 1].sector_type == token.sector_type
        }
    }

    /// Whether a board would have given this answer to this operation.
    pub fn filter_op(ss: &Sectors, op: &Operation, opr: &OperationResult) -> (r: bool)
        requires
            ss.wf(),
            op_valid(ss@.len() as int, *op, *opr),
        ensures
            r == op_holds(ss@, *op, *opr),
    {
        match (op, opr) {
            (Operation::Survey(survey), OperationResult::Survey(cnt)) => ss.get_range_type_cnt(
                survey.start,
                survey.end,
                &survey.sector_type,
            ) == *cnt,
            (Operation::Target(target), OperationResult::Target(seen)) => {
                proof {
                    lemma_view_neighbours(ss, target.index as int);
                }
                let found = ss.data[target.index - 1].sector_type;
                match seen {
                    SectorType::Space => found == SectorType::Space || found == SectorType::X,
                    _ => found == *seen,
                }
            },
            (Operation::Research(_), OperationResult::Research(clue)) => check_clue_with_sectors(
                clue,
                ss,
            ),
            (Operation::Locate(locate), OperationResult::Locate(found)) => {
                if *found {
                    proof {
                        lemma_view_neighbours(ss, locate.index as int);
                    }
                    ss.data[locate.index - 1].sector_type == SectorType::X && ss.prev(
                        locate.index,
                    ).sector_type == locate.pre_sector_type && ss.next(locate.index).sector_type
                        == locate.next_sector_type
                } else {
                    true
                }
            },
            _ => true,
        }
    }

    /// Whether a board agrees with every token of the list.
    fn filter_tokens(ss: &Sectors, tokens: &[Token]) -> (r: bool)
        requires
            forall|i: int| 0 <= i < tokens@.len() ==> token_valid(ss@.len() as int, #[trigger] tokens@[i]),
        ensures
            r == all_tokens_hold(ss@, tokens@),
    {
        let mut i: usize = 0;
        while i < tokens.len()
            invariant
                i <= tokens@.len(),
                forall|j: int|
                    0 <= j < tokens@.len() ==> token_valid(ss@.len() as int, #[trigger] tokens@[j]),
                forall|j: int| 0 <= j < i ==> token_holds(ss@, #[trigger] tokens@[j]),
            decreases tokens@.len() - i,
        {
            if !Self::filter_token(ss, &tokens[i]) {
                return false;
            }
            i += 1;
        }
        true
    }

    /// Whether a board agrees with every operation of the log.
    fn filter_ops(ss: &Sectors, ops: &Vec<(Operation, OperationResult)>) -> (r: bool)
        requires
            ss.wf(),
            forall|i: int|
                0 <= i < ops@.len() ==> op_valid(ss@.len() as int, (#[trigger] ops@[i]).0, ops@[i].1),
        ensures
            r == all_ops_hold(ss@, ops@),
    {
        let mut i: usize = 0;
        while i < ops.len()
            invariant
                ss.wf(),
                i <= ops@.len(),
                forall|j: int|
                    0 <= j < ops@.len() ==> op_valid(
                        ss@.len() as int,
                        (#[trigger] ops@[j]).0,
                        ops@[j].1,
                    ),
                forall|j: int| 0 <= j < i ==> op_holds(ss@, (#[trigger] ops@[j]).0, ops@[j].1),
            decreases ops@.len() - i,
        {
            if !Self::filter_op(ss, &ops[i].0, &ops[i].1) {
                return false;
            }
            i += 1;
        }
        true
    }

    /// Takes in the player's tokens as they now are. Before the first pass
    /// they are put by; after it, the candidates that disagree with them are
    /// struck out.
    pub fn update_tokens(&mut self, token: &[Token])
        requires
            old(self).wf(),
            forall|i: int|
                0 <= i < token@.len() ==> token_valid(
                    old(self).board().sector_count() as int,
                    #[trigger] token@[i],
                ),
        ensures
            final(self).wf(),
            final(self).board() == old(self).board(),
            final(self).name() == old(self).name(),
            final(self).log() == old(self).log(),
            final(self).ready() == old(self).ready(),
            !old(self).ready() ==> final(self).held_tokens() == token@ && final(self).pool()
                == old(self).pool(),
            old(self).ready() ==> final(self).held_tokens() == old(self).held_tokens()
                && final(self).candidates() == old(self).candidates().filter(passes_tokens(token@)),
            final(self).candidates().len() <= old(self).candidates().len(),
    {
        if !self.initialized {
            let mut copy: Vec<Token> = Vec::new();
            let mut i: usize = 0;
            while i < token.len()
                invariant
                    *self == *old(self),
                    i <= token@.len(),
                    copy@ == token@.take(i as int),
                decreases token@.len() - i,
            {
                copy.push(token[i].clone());
                i += 1;
            }
            assert(token@.take(token@.len() as int) =~= token@);
            self.tokens = copy;
            assert(self.pool() == old(self).pool());
            assert(self.log() == old(self).log());
            return ;
        }
        let ghost n = self.map_type.sector_count() as int;
        let ghost before = self.candidates();
        let ghost pred = passes_tokens(token@);
        let mut kept: Vec<Sectors> = Vec::new();
        let mut i: usize = 0;
        assert(before.take(0) =~= Seq::<Seq<SectorType>>::empty());
        assert(layouts_of(kept@) =~= Seq::<Seq<SectorType>>::empty());
        while i < self.all.len()
            invariant
                *self == *old(self),
                i <= self.all@.len(),
                before == layouts_of(self.all@),
                n == self.map_type.sector_count(),
                pred == passes_tokens(token@),
                forall|j: int|
                    0 <= j < self.all@.len() ==> (#[trigger] self.all@[j]).wf()
                        && self.all@[j]@.len() == n,
                forall|j: int| 0 <= j < token@.len() ==> token_valid(n, #[trigger] token@[j]),
                layouts_of(kept@) == before.take(i as int).filter(pred),
                forall|j: int|
                    0 <= j < kept@.len() ==> (#[trigger] kept@[j]).wf() && kept@[j]@.len() == n,
            decreases self.all@.len() - i,
        {
            proof {
                assert(before.take(i + 1) =~= before.take(i as int).push(before[i as int]));
                before.take(i as int).lemma_filter_push(before[i as int], pred);
            }
            if Self::filter_tokens(&self.all[i], token) {
                let copy = self.all[i].clone();
                assert(copy@ =~= self.all@[i as int]@);
                proof {
                    lemma_layouts_push(kept@, copy);
                }
                kept.push(copy);
            }
            i += 1;
        }
        proof {
            assert(before.take(self.all@.len() as int) =~= before);
            before.lemma_filter_len(pred);
        }
        self.all = kept;
        assert(self.log() == old(self).log());
        assert(self.held_tokens() == old(self).held_tokens());
    }
}

impl ChoiceFilter {
    /// Whether the filter puts off its first pass: on the large board it
    /// waits until its log holds three operations.
    pub open spec fn waits(map_type: MapType, logged: nat) -> bool {
        map_type == MapType::Expert && logged < 3
    }

    /// The layouts of the board that agree with a log and a set of tokens.
    pub open spec fn consistent(
        map_type: MapType,
        ops: Seq<(Operation, OperationResult)>,
        tokens: Seq<Token>,
    ) -> Seq<Seq<SectorType>> {
        enumeration(map_type).filter(passes_all(ops, tokens))
    }

    /// Passes over all layouts of the board and gathers those that agree
    /// with the log and the tokens put by; gives up as soon as they are more
    /// than the filter keeps.
    fn materialize(&self) -> (r: Option<Vec<Sectors>>)
        requires
            self.wf(),
        ensures
            match r {
                Some(found) => {
                    &&& layouts_of(found@) == Self::consistent(
                        self.board(),
                        self.log(),
                        self.held_tokens(),
                    )
                    &&& found@.len() <= self.cap()
                    &&& forall|i: int|
                        0 <= i < found@.len() ==> (#[trigger] found@[i]).wf() && found@[i]@.len()
                            == self.board().sector_count()
                },
                None => Self::consistent(self.board(), self.log(), self.held_tokens()).len()
                    > self.cap(),
            },
    {
        let limit = if self.is_bot() {
            MAX_CACHED_COUNT_FOR_BOT
        } else {
            MAX_CACHED_COUNT
        };
        let m = MapEnumerator::new();
        let mut it = m.gen_sec(&self.map_type);
        let ghost all = enumeration(self.map_type);
        let ghost pred = passes_all(self.ops@, self.tokens@);
        let ghost n = self.map_type.sector_count();
        let ghost seen = Seq::<Seq<SectorType>>::empty();
        let mut found: Vec<Sectors> = Vec::new();
        proof {
            assert(layouts_of(found@) =~= Seq::<Seq<SectorType>>::empty());
            assert(seen + it.remaining() =~= all);
        }
        loop
            invariant
                self.wf(),
                limit == self.cap(),
                all == enumeration(self.map_type),
                pred == passes_all(self.ops@, self.tokens@),
                n == self.map_type.sector_count(),
                it.wf(),
                it.board() == self.map_type,
                seen + it.remaining() == all,
                layouts_of(found@) == seen.filter(pred),
                found@.len() <= limit,
                forall|i: int|
                    0 <= i < found@.len() ==> (#[trigger] found@[i]).wf() && found@[i]@.len() == n,
            decreases it.remaining().len(),
        {
            let ghost rest = it.remaining();
            match it.next() {
                None => {
                    assert(seen =~= all);
                    return Some(found);
                },
                Some(ss) => {
                    proof {
                        assert(all[seen.len() as int] == rest[0]);
                        lemma_enumeration_len(self.map_type, seen.len() as int);
                        seen.lemma_filter_push(ss@, pred);
                        assert(seen.push(ss@) + it.remaining() =~= all);
                        assert(ss@.len() == n);
                        assert forall|i: int| 0 <= i < self.ops@.len() implies op_valid(
                            ss@.len() as int,
                            (#[trigger] self.ops@[i]).0,
                            self.ops@[i].1,
                        ) by {
                            assert(self.log()[i] == self.ops@[i]);
                        }
                        assert forall|i: int| 0 <= i < self.tokens@.len() implies token_valid(
                            ss@.len() as int,
                            #[trigger] self.tokens@[i],
                        ) by {
                            assert(self.held_tokens()[i] == self.tokens@[i]);
                        }
                    }
                    if Self::filter_ops(&ss, &self.ops) && Self::filter_tokens(
                        &ss,
                        self.tokens.as_slice(),
                    ) {
                        if found.len() >= limit {
                            proof {
                                let head = seen.push(ss@);
                                Seq::filter_distributes_over_add(head, it.remaining(), pred);
                                it.remaining().lemma_filter_len(pred);
                                assert(all.filter(pred).len() == head.filter(pred).len()
                                    + it.remaining().filter(pred).len());
                            }
                            return None;
                        }
                        proof {
                            lemma_layouts_push(found@, ss);
                        }
                        found.push(ss);
                    }
                    proof {
                        seen = seen.push(ss@);
                    }
                },
            }
        }
    }

    /// Takes in an operation and its answer. Once the filter holds
    /// candidates, those that would not have given the answer are struck
    /// out. Before that the pair joins the log, and unless the filter still
    /// waits it passes over all layouts of the board: if those that agree
    /// with the log and the tokens put by are no more than the filter keeps,
    /// they become its candidates.
    pub fn add_operation(&mut self, op: Operation, result: OperationResult)
        requires
            old(self).wf(),
            op_valid(old(self).board().sector_count() as int, op, result),
        ensures
            final(self).wf(),
            final(self).board() == old(self).board(),
            final(self).name() == old(self).name(),
            final(self).held_tokens() == old(self).held_tokens(),
            final(self).log() == old(self).log().push((op, result)),
            old(self).ready() ==> final(self).ready() && final(self).candidates() == old(
                self,
            ).candidates().filter(passes_op(op, result)) && final(self).candidates().len() <= old(
                self,
            ).candidates().len(),
            !old(self).ready() ==> {
                let found = Self::consistent(
                    final(self).board(),
                    final(self).log(),
                    final(self).held_tokens(),
                );
                if !Self::waits(final(self).board(), final(self).log().len()) && found.len()
                    <= final(self).cap() {
                    final(self).ready() && final(self).candidates() == found
                } else {
                    !final(self).ready() && final(self).pool() == old(self).pool()
                }
            },
    {
        let ghost n = self.map_type.sector_count() as int;
        if !self.initialized {
            self.ops.push((op, result));
            assert(self.pool() == old(self).pool());
            assert(self.held_tokens() == old(self).held_tokens());
            assert(self.log() == old(self).log().push((op, result)));
            assert forall|i: int| 0 <= i < self.log().len() implies op_valid(
                n,
                (#[trigger] self.log()[i]).0,
                self.log()[i].1,
            ) by {
                if i < old(self).log().len() {
                    assert(self.log()[i] == old(self).log()[i]);
                }
            }
            assert(self.wf());
            if matches!(self.map_type, MapType::Expert) && self.ops.len() < 3 {
                return ;
            }
            match self.materialize() {
                Some(found) => {
                    self.all = found;
                    self.initialized = true;
                    assert(self.log() == old(self).log().push((op, result)));
                    assert(self.held_tokens() == old(self).held_tokens());
                },
                None => {},
            }
            return ;
        }
        let ghost before = self.candidates();
        let ghost pred = passes_op(op, result);
        let mut kept: Vec<Sectors> = Vec::new();
        let mut i: usize = 0;
        assert(before.take(0) =~= Seq::<Seq<SectorType>>::empty());
        assert(layouts_of(kept@) =~= Seq::<Seq<SectorType>>::empty());
        while i < self.all.len()
            invariant
                *self == *old(self),
                i <= self.all@.len(),
                before == layouts_of(self.all@),
                n == self.map_type.sector_count(),
                pred == passes_op(op, result),
                op_valid(n, op, result),
                forall|j: int|
                    0 <= j < self.all@.len() ==> (#[trigger] self.all@[j]).wf()
                        && self.all@[j]@.len() == n,
                layouts_of(kept@) == before.take(i as int).filter(pred),
                forall|j: int|
                    0 <= j < kept@.len() ==> (#[trigger] kept@[j]).wf() && kept@[j]@.len() == n,
            decreases self.all@.len() - i,
        {
            proof {
                assert(before.take(i + 1) =~= before.take(i as int).push(before[i as int]));
                before.take(i as int).lemma_filter_push(before[i as int], pred);
            }
            if Self::filter_op(&self.all[i], &op, &result) {
                let copy = self.all[i].clone();
                assert(copy@ =~= self.all@[i as int]@);
                proof {
                    lemma_layouts_push(kept@, copy);
                }
                kept.push(copy);
            }
            i += 1;
        }
        proof {
            assert(before.take(self.all@.len() as int) =~= before);
            before.lemma_filter_len(pred);
        }
        self.all = kept;
        self.ops.push((op, result));
        assert(self.held_tokens() == old(self).held_tokens());
        assert(self.log() == old(self).log().push((op, result)));
    }
}

/// What each candidate would answer to a survey.
pub open spec fn survey_outcomes(cands: Seq<Seq<SectorType>>, survey: SurveyOperatoin) -> Seq<
    usize,
> {
    Seq::new(
        cands.len(),
        |i: int|
            range_count(cands[i], survey.start as int, survey.end as int, survey.sector_type)
                as usize,
    )
}

/// The class of what a target shows: X cannot be told from `Space`.
pub open spec fn target_class(t: SectorType) -> usize {
    match t {
        SectorType::Comet => 0,
        SectorType::Asteroid => 1,
        SectorType::DwarfPlanet => 2,
        SectorType::Nebula => 3,
        SectorType::X => 4,
        SectorType::Space => 4,
    }
}

/// What each candidate would show to a target of position `index`.
pub open spec fn target_outcomes(cands: Seq<Seq<SectorType>>, index: int) -> Seq<usize> {
    Seq::new(cands.len(), |i: int| target_class(type_at(cands[i], index)))
}

/// The test of a clue.
pub open spec fn meets_clue(clue: Clue) -> spec_fn(Seq<SectorType>) -> bool {
    |s: Seq<SectorType>| clue_holds(s, clue.subject, clue.object, clue.conn)
}

/// The share of the candidates of which a clue is true; 0 where there are
/// none.
pub open spec fn clue_share(cands: Seq<Seq<SectorType>>, clue: Clue) -> Ratio {
    if cands.len() == 0 {
        Ratio::spec_zero()
    } else {
        Ratio { num: cands.filter(meets_clue(clue)).len() as u128, den: cands.len() as u128 }
    }
}

impl ChoiceFilter {
    /// How much a survey would tell: how mixed the answers of the candidates
    /// are. 0 before the filter holds candidates.
    pub fn effect_survey(&self, survey: &SurveyOperatoin) -> (r: Ratio)
        requires
            self.wf(),
            0 < survey.start <= self.board().sector_count(),
            0 < survey.end <= self.board().sector_count(),
        ensures
            r == if self.ready() {
                spec_impurity(
                    survey_outcomes(self.candidates(), *survey),
                    self.board().sector_count() + 1,
                )
            } else {
                Ratio::spec_zero()
            },
            r.den > 0,
            r.num <= r.den,
    {
        if !self.initialized {
            return Ratio::zero();
        }
        let n = self.map_type.sector_count();
        let ghost cands = self.candidates();
        let mut outcomes: Vec<usize> = Vec::new();
        let mut i: usize = 0;
        while i < self.all.len()
            invariant
                self.wf(),
                n == self.map_type.sector_count(),
                cands == layouts_of(self.all@),
                0 < survey.start <= n,
                0 < survey.end <= n,
                i <= self.all@.len(),
                outcomes@ == survey_outcomes(cands, *survey).take(i as int),
                forall|j: int| 0 <= j < outcomes@.len() ==> outcomes@[j] < n + 1,
            decreases self.all@.len() - i,
        {
            assert(self.pool()[i as int].wf());
            let count = self.all[i].get_range_type_cnt(
                survey.start,
                survey.end,
                &survey.sector_type,
            );
            outcomes.push(count);
            assert(outcomes@ =~= survey_outcomes(cands, *survey).take(i + 1));
            i += 1;
        }
        assert(outcomes@ =~= survey_outcomes(cands, *survey));
        impurity(&outcomes, n + 1)
    }

    /// How much a target would tell: how mixed what the candidates show at
    /// the position is, X taken for `Space`. 0 before the filter holds
    /// candidates.
    pub fn effect_target(&self, index: usize) -> (r: Ratio)
        requires
            self.wf(),
            1 <= index <= self.board().sector_count(),
        ensures
            r == if self.ready() {
                spec_impurity(target_outcomes(self.candidates(), index as int), 5)
            } else {
                Ratio::spec_zero()
            },
            r.den > 0,
            r.num <= r.den,
    {
        if !self.initialized {
            return Ratio::zero();
        }
        let ghost cands = self.candidates();
        let mut outcomes: Vec<usize> = Vec::new();
        let mut i: usize = 0;
        while i < self.all.len()
            invariant
                self.wf(),
                cands == layouts_of(self.all@),
                1 <= index <= self.map_type.sector_count(),
                i <= self.all@.len(),
                outcomes@ == target_outcomes(cands, index as int).take(i as int),
                forall|j: int| 0 <= j < outcomes@.len() ==> outcomes@[j] < 5,
            decreases self.all@.len() - i,
        {
            assert(self.pool()[i as int].wf());
            proof {
                lemma_view_neighbours(&self.all@[i as int], index as int);
            }
            let class: usize = match self.all[i].data[index - 1].sector_type {
                SectorType::Comet => 0,
                SectorType::Asteroid => 1,
                SectorType::DwarfPlanet => 2,
                SectorType::Nebula => 3,
                SectorType::X => 4,
                SectorType::Space => 4,
            };
            outcomes.push(class);
            assert(outcomes@ =~= target_outcomes(cands, index as int).take(i + 1));
            i += 1;
        }
        assert(outcomes@ =~= target_outcomes(cands, index as int));
        impurity(&outcomes, 5)
    }

    /// How likely a clue is to be true: the share of the candidates of which
    /// it is. 0 before the filter holds candidates.
    pub fn effect_research(&self, clue: &Clue) -> (r: Ratio)
        requires
            self.wf(),
        ensures
            r == if self.ready() {
                clue_share(self.candidates(), *clue)
            } else {
                Ratio::spec_zero()
            },
            r.den > 0,
            r.num <= r.den,
    {
        if !self.initialized || self.all.len() == 0 {
            return Ratio::zero();
        }
        let ghost cands = self.candidates();
        let ghost pred = meets_clue(*clue);
        let mut cnt: usize = 0;
        let mut i: usize = 0;
        assert(cands.take(0) =~= Seq::<Seq<SectorType>>::empty());
        while i < self.all.len()
            invariant
                self.wf(),
                cands == layouts_of(self.all@),
                pred == meets_clue(*clue),
                i <= self.all@.len(),
                cnt <= i,
                cnt == cands.take(i as int).filter(pred).len(),
            decreases self.all@.len() - i,
        {
            assert(self.pool()[i as int].wf());
            proof {
                assert(cands.take(i + 1) =~= cands.take(i as int).push(cands[i as int]));
                cands.take(i as int).lemma_filter_push(cands[i as int], pred);
            }
            if check_clue_with_sectors(clue, &self.all[i]) {
                cnt += 1;
            }
            i += 1;
        }
        assert(cands.take(self.all@.len() as int) =~= cands);
        Ratio { num: cnt as u128, den: self.all.len() as u128 }
    }
}

/// The place of a sector type in the order of their declaration.
pub open spec fn type_rank(t: SectorType) -> int {
    match t {
        SectorType::Comet => 0,
        SectorType::Asteroid => 1,
        SectorType::DwarfPlanet => 2,
        SectorType::Nebula => 3,
        SectorType::X => 4,
        SectorType::Space => 5,
    }
}

/// The sector type at a place in the order of their declaration.
pub open spec fn type_of_rank(k: int) -> SectorType {
    if k == 0 {
        SectorType::Comet
    } else if k == 1 {
        SectorType::Asteroid
    } else if k == 2 {
        SectorType::DwarfPlanet
    } else if k == 3 {
        SectorType::Nebula
    } else if k == 4 {
        SectorType::X
    } else {
        SectorType::Space
    }
}

fn rank_of(t: SectorType) -> (r: usize)
    ensures
        r == type_rank(t),
        r < 6,
{
    match t {
        SectorType::Comet => 0,
        SectorType::Asteroid => 1,
        SectorType::DwarfPlanet => 2,
        SectorType::Nebula => 3,
        SectorType::X => 4,
        SectorType::Space => 5,
    }
}

fn type_at_rank(k: usize) -> (r: SectorType)
    requires
        k < 6,
    ensures
        r == type_of_rank(k as int),
        type_rank(r) == k,
{
    if k == 0 {
        SectorType::Comet
    } else if k == 1 {
        SectorType::Asteroid
    } else if k == 2 {
        SectorType::DwarfPlanet
    } else if k == 3 {
        SectorType::Nebula
    } else if k == 4 {
        SectorType::X
    } else {
        SectorType::Space
    }
}

/// The test that a layout holds type `t` at position `pos`.
pub open spec fn shows(pos: int, t: SectorType) -> spec_fn(Seq<SectorType>) -> bool {
    |s: Seq<SectorType>| type_at(s, pos) == t
}

/// How many candidates hold type `t` at position `pos`.
pub open spec fn type_count(cands: Seq<Seq<SectorType>>, pos: int, t: SectorType) -> nat {
    cands.filter(shows(pos, t)).len()
}

/// The counts of the six types at a position add up to the number of
/// candidates.
pub proof fn lemma_type_counts_total(cands: Seq<Seq<SectorType>>, pos: int)
    ensures
        type_count(cands, pos, SectorType::Comet) + type_count(cands, pos, SectorType::Asteroid)
            + type_count(cands, pos, SectorType::DwarfPlanet) + type_count(
            cands,
            pos,
            SectorType::Nebula,
        ) + type_count(cands, pos, SectorType::X) + type_count(cands, pos, SectorType::Space)
            == cands.len(),
    decreases cands.len(),
{
    reveal(Seq::filter);
    if cands.len() > 0 {
        lemma_type_counts_total(cands.drop_last(), pos);
    }
}

/// One type that a sector may hold, and the share of the candidates in which
/// it does.
#[derive(Clone, Copy, Debug)]
pub struct SectorPossibility {
    pub sector_type: SectorType,
    pub rate: Ratio,
}

/// What one sector may hold, likeliest first.
#[derive(Debug)]
pub struct SectorPossibilities {
    /// The position of the sector, counted from 1.
    pub index: usize,
    pub possibilities: Vec<SectorPossibility>,
}

/// What each sector may hold, in the order of the positions.
#[derive(Debug)]
pub struct AllSectorPossibilities(pub Vec<SectorPossibilities>);

/// The numerators of a row, summed.
pub open spec fn row_sum(row: Seq<SectorPossibility>) -> nat
    decreases row.len(),
{
    if row.len() == 0 {
        0
    } else {
        row_sum(row.drop_last()) + row.last().rate.num as nat
    }
}

/// Whether an entry of a row comes before another: it is likelier, or as
/// likely and of a type declared earlier.
pub open spec fn comes_before(a: SectorPossibility, b: SectorPossibility) -> bool {
    a.rate.num > b.rate.num || (a.rate.num == b.rate.num && type_rank(a.sector_type) < type_rank(
        b.sector_type,
    ))
}

/// Whether `row` is the row of position `pos`: it has an entry for each type
/// that some candidate holds there and for no other, each with the share of
/// the candidates that hold it, the entries in the order of `comes_before`.
#[verifier::opaque]
pub open spec fn row_ok(cands: Seq<Seq<SectorType>>, pos: int, row: Seq<SectorPossibility>) -> bool {
    &&& forall|i: int|
        0 <= i < row.len() ==> (#[trigger] row[i]).rate == (Ratio {
            num: type_count(cands, pos, row[i].sector_type) as u128,
            den: cands.len() as u128,
        }) && type_count(cands, pos, row[i].sector_type) > 0
    &&& forall|t: SectorType| #[trigger]
        type_count(cands, pos, t) > 0 ==> exists|i: int|
            0 <= i < row.len() && (#[trigger] row[i]).sector_type == t
    &&& forall|i: int, j: int|
        0 <= i < j < row.len() ==> comes_before(#[trigger] row[i], #[trigger] row[j])
    &&& row_sum(row) == cands.len()
}

/// Whether `p` is where X is likeliest: no position has X in more
/// candidates, and none before `p` in as many.
pub open spec fn is_likeliest_x(cands: Seq<Seq<SectorType>>, n: int, p: int) -> bool {
    &&& 1 <= p <= n
    &&& type_count(cands, p, SectorType::X) > 0
    &&& forall|q: int|
        1 <= q <= n ==> #[trigger] type_count(cands, q, SectorType::X) <= type_count(
            cands,
            p,
            SectorType::X,
        )
    &&& forall|q: int|
        1 <= q < p ==> #[trigger] type_count(cands, q, SectorType::X) < type_count(
            cands,
            p,
            SectorType::X,
        )
}

/// Whether `t` is the likeliest type other than X at position `pos`: some
/// candidate holds it there, no other type but X is held there by more, and
/// of those held by as many it is declared first.
pub open spec fn is_likeliest_other(cands: Seq<Seq<SectorType>>, pos: int, t: SectorType) -> bool {
    &&& t != SectorType::X
    &&& type_count(cands, pos, t) > 0
    &&& forall|u: SectorType|
        u != SectorType::X ==> #[trigger] type_count(cands, pos, u) < type_count(cands, pos, t)
            || (type_count(cands, pos, u) == type_count(cands, pos, t) && type_rank(t)
            <= type_rank(u))
}

/// Whether no type other than X is held at position `pos` by any candidate.
pub open spec fn no_likeliest_other(cands: Seq<Seq<SectorType>>, pos: int) -> bool {
    forall|t: SectorType| !#[trigger] is_likeliest_other(cands, pos, t)
}

impl ChoiceFilter {
    /// In how many candidates position `pos` holds each type, by the rank of
    /// the type.
    fn counts_at(&self, pos: usize) -> (r: Vec<usize>)
        requires
            self.wf(),
            1 <= pos <= self.board().sector_count(),
        ensures
            r@.len() == 6,
            forall|k: int|
                0 <= k < 6 ==> #[trigger] r@[k] == type_count(
                    self.candidates(),
                    pos as int,
                    type_of_rank(k),
                ),
            forall|t: SectorType| #[trigger]
                type_count(self.candidates(), pos as int, t) == r@[type_rank(t)],
            r@[0] + r@[1] + r@[2] + r@[3] + r@[4] + r@[5] == self.candidates().len(),
    {
        let ghost cands = self.candidates();
        let mut counts: Vec<usize> = vec![0, 0, 0, 0, 0, 0];
        let mut i: usize = 0;
        assert(cands.take(0) =~= Seq::<Seq<SectorType>>::empty());
        assert forall|k: int| 0 <= k < 6 implies cands.take(0).filter(
            shows(pos as int, type_of_rank(k)),
        ).len() == 0 by {
            cands.take(0).lemma_filter_len(shows(pos as int, type_of_rank(k)));
        }
        while i < self.all.len()
            invariant
                self.wf(),
                cands == layouts_of(self.all@),
                1 <= pos <= self.map_type.sector_count(),
                i <= self.all@.len(),
                counts@.len() == 6,
                forall|k: int|
                    0 <= k < 6 ==> #[trigger] counts@[k] == cands.take(i as int).filter(
                        shows(pos as int, type_of_rank(k)),
                    ).len(),
                forall|k: int| 0 <= k < 6 ==> #[trigger] counts@[k] <= i,
            decreases self.all@.len() - i,
        {
            assert(self.pool()[i as int].wf());
            proof {
                lemma_view_neighbours(&self.all@[i as int], pos as int);
                assert(cands.take(i + 1) =~= cands.take(i as int).push(cands[i as int]));
                assert forall|k: int| 0 <= k < 6 implies cands.take(i + 1).filter(
                    shows(pos as int, type_of_rank(k)),
                ).len() == cands.take(i as int).filter(shows(pos as int, type_of_rank(k))).len()
                    + if type_at(cands[i as int], pos as int) == type_of_rank(k) {
                    1nat
                } else {
                    0nat
                } by {
                    cands.take(i as int).lemma_filter_push(
                        cands[i as int],
                        shows(pos as int, type_of_rank(k)),
                    );
                }
            }
            let k = rank_of(self.all[i].data[pos - 1].sector_type);
            let c = counts[k];
            counts.set(k, c + 1);
            i += 1;
        }
        proof {
            assert(cands.take(self.all@.len() as int) =~= cands);
            lemma_type_counts_total(cands, pos as int);
            assert forall|t: SectorType| #[trigger]
                type_count(cands, pos as int, t) == counts@[type_rank(t)] by {
                assert(type_of_rank(type_rank(t)) == t);
            }
            assert(type_of_rank(0) == SectorType::Comet);
            assert(type_of_rank(1) == SectorType::Asteroid);
            assert(type_of_rank(2) == SectorType::DwarfPlanet);
            assert(type_of_rank(3) == SectorType::Nebula);
            assert(type_of_rank(4) == SectorType::X);
            assert(type_of_rank(5) == SectorType::Space);
        }
        counts
    }

    /// The likeliest type other than X that the counts of a position show.
    fn likeliest_other(counts: &Vec<usize>) -> (r: Option<SectorType>)
        requires
            counts@.len() == 6,
        ensures
            match r {
                Some(t) => {
                    &&& t != SectorType::X
                    &&& counts@[type_rank(t)] > 0
                    &&& forall|u: SectorType|
                        u != SectorType::X ==> counts@[#[trigger] type_rank(u)]
                            < counts@[type_rank(t)] || (counts@[type_rank(u)]
                            == counts@[type_rank(t)] && type_rank(t) <= type_rank(u))
                },
                None => forall|u: SectorType|
                    u != SectorType::X ==> counts@[#[trigger] type_rank(u)] == 0,
            },
    {
        let mut best: usize = 6;
        let mut k: usize = 0;
        while k < 6
            invariant
                k <= 6,
                counts@.len() == 6,
                best <= 6,
                best != 4,
                best < 6 ==> best < k && counts@[best as int] > 0,
                forall|j: int|
                    0 <= j < k && j != 4 ==> if best < 6 {
                        counts@[j] < counts@[best as int] || (counts@[j] == counts@[best as int]
                            && best <= j)
                    } else {
                        counts@[j] == 0
                    },
            decreases 6 - k,
        {
            if k != 4 && counts[k] > 0 && (best == 6 || counts[k] > counts[best]) {
                best = k;
            }
            k += 1;
        }
        if best == 6 {
            None
        } else {
            Some(type_at_rank(best))
        }
    }

    /// The position where X is likeliest, or 0 where no candidate is left.
    fn likeliest_x(&self) -> (r: usize)
        requires
            self.wf(),
        ensures
            r <= self.board().sector_count(),
            r > 0 ==> is_likeliest_x(
                self.candidates(),
                self.board().sector_count() as int,
                r as int,
            ),
            forall|p: int| #[trigger]
                is_likeliest_x(self.candidates(), self.board().sector_count() as int, p) ==> p
                    == r,
    {
        let n = self.map_type.sector_count();
        let ghost cands = self.candidates();
        let mut x_index: usize = 0;
        let mut max_count: usize = 0;
        let mut pos: usize = 1;
        while pos <= n
            invariant
                self.wf(),
                n == self.map_type.sector_count(),
                cands == self.candidates(),
                1 <= pos <= n + 1,
                x_index < pos,
                x_index == 0 ==> max_count == 0,
                x_index > 0 ==> max_count > 0 && max_count == type_count(
                    cands,
                    x_index as int,
                    SectorType::X,
                ),
                forall|q: int|
                    1 <= q < pos ==> #[trigger] type_count(cands, q, SectorType::X) <= max_count,
                forall|q: int|
                    1 <= q < x_index ==> #[trigger] type_count(cands, q, SectorType::X) < max_count,
            decreases n + 1 - pos,
        {
            let counts = self.counts_at(pos);
            assert(counts@[4] == type_count(cands, pos as int, SectorType::X));
            if counts[4] > max_count {
                max_count = counts[4];
                x_index = pos;
            }
            pos += 1;
        }
        assert forall|p: int| #[trigger] is_likeliest_x(cands, n as int, p) implies p
            == x_index by {
            if x_index == 0 {
                assert(type_count(cands, p, SectorType::X) <= max_count);
            } else if p < x_index {
                assert(type_count(cands, p, SectorType::X) < max_count);
            } else if p > x_index {
                assert(type_count(cands, x_index as int, SectorType::X) < type_count(
                    cands,
                    p,
                    SectorType::X,
                ));
            }
        }
        x_index
    }

    /// The likeliest type other than X at a position, or `None` where
    /// every candidate holds X there.
    fn likeliest_other_at(&self, pos: usize) -> (r: Option<SectorType>)
        requires
            self.wf(),
            1 <= pos <= self.board().sector_count(),
        ensures
            match r {
                Some(t) => is_likeliest_other(self.candidates(), pos as int, t),
                None => no_likeliest_other(self.candidates(), pos as int),
            },
    {
        let ghost cands = self.candidates();
        let counts = self.counts_at(pos);
        let r = Self::likeliest_other(&counts);
        proof {
            match r {
                Some(t) => {
                    assert(is_likeliest_other(cands, pos as int, t));
                },
                None => {
                    assert forall|t: SectorType| !#[trigger]
                        is_likeliest_other(cands, pos as int, t) by {
                        if t != SectorType::X {
                            assert(counts@[type_rank(t)] == 0);
                        }
                    }
                },
            }
        }
        r
    }

    /// Where X is likeliest and what most likely lies on its two sides:
    /// the claim to make when X is to be located. `None` where no candidate
    /// is left, or where a side holds X in every candidate.
    pub fn try_locate(&self) -> (r: Option<LocateOperation>)
        requires
            self.wf(),
        ensures
            !self.ready() ==> r is None,
            match r {
                Some(op) => {
                    let n = self.board().sector_count() as int;
                    &&& is_likeliest_x(self.candidates(), n, op.index as int)
                    &&& is_likeliest_other(
                        self.candidates(),
                        prev_index(n, op.index as int),
                        op.pre_sector_type,
                    )
                    &&& is_likeliest_other(
                        self.candidates(),
                        next_index(n, op.index as int),
                        op.next_sector_type,
                    )
                },
                None => forall|p: int| #[trigger]
                    is_likeliest_x(self.candidates(), self.board().sector_count() as int, p) ==> {
                        let n = self.board().sector_count() as int;
                        ||| no_likeliest_other(self.candidates(), prev_index(n, p))
                        ||| no_likeliest_other(self.candidates(), next_index(n, p))
                    },
            },
    {
        let n = self.map_type.sector_count();
        let x_index = self.likeliest_x();
        if x_index == 0 {
            return None;
        }
        let pre_index = if x_index == 1 {
            n
        } else {
            x_index - 1
        };
        let next_index = if x_index == n {
            1
        } else {
            x_index + 1
        };
        let pre = self.likeliest_other_at(pre_index);
        let next = self.likeliest_other_at(next_index);
        match (pre, next) {
            (Some(pre_sector_type), Some(next_sector_type)) => Some(
                LocateOperation { index: x_index, pre_sector_type, next_sector_type },
            ),
            _ => None,
        }
    }
}

/// Whether a row has an entry for type `t`.
pub open spec fn row_has(row: Seq<SectorPossibility>, t: SectorType) -> bool {
    exists|i: int| 0 <= i < row.len() && (#[trigger] row[i]).sector_type == t
}

/// How many of the six types are still to be dealt with.
spec fn undone(done: Seq<bool>) -> int {
    (if done[0] { 0int } else { 1 }) + (if done[1] { 0int } else { 1 }) + (if done[2] { 0int } else { 1 })
        + (if done[3] { 0int } else { 1 }) + (if done[4] { 0int } else { 1 }) + (if done[5] { 0int } else { 1 })
}

/// The counts of the types that are still to be dealt with, summed.
spec fn pending(counts: Seq<usize>, done: Seq<bool>) -> int {
    (if done[0] { 0int } else { counts[0] as int }) + (if done[1] { 0int } else { counts[1] as int })
        + (if done[2] { 0int } else { counts[2] as int }) + (if done[3] { 0int } else { counts[3] as int })
        + (if done[4] { 0int } else { counts[4] as int }) + (if done[5] { 0int } else { counts[5] as int })
}

/// The type to deal with next: of those not dealt with yet the one with the
/// largest count, and of those with that count the one declared first.
fn pick_best(counts: &Vec<usize>, done: &Vec<bool>) -> (best: usize)
    requires
        counts@.len() == 6,
        done@.len() == 6,
        undone(done@) >= 1,
    ensures
        best < 6,
        !done@[best as int],
        forall|j: int|
            0 <= j < 6 && !#[trigger] done@[j] ==> counts@[j] < counts@[best as int] || (counts@[j]
                == counts@[best as int] && best <= j),
{
    let mut best: usize = 6;
    let mut k: usize = 0;
    while k < 6
        invariant
            k <= 6,
            counts@.len() == 6,
            done@.len() == 6,
            best <= 6,
            best < 6 ==> best < k && !done@[best as int],
            best == 6 ==> forall|j: int| 0 <= j < k ==> done@[j],
            forall|j: int|
                0 <= j < k && !#[trigger] done@[j] && best < 6 ==> counts@[j]
                    < counts@[best as int] || (counts@[j] == counts@[best as int] && best <= j),
        decreases 6 - k,
    {
        if !done[k] && (best == 6 || counts[k] > counts[best]) {
            best = k;
        }
        k += 1;
    }
    best
}

/// The row that the counts of a position make.
#[verifier::rlimit(50)]
fn sorted_row(counts: &Vec<usize>, total: usize) -> (row: Vec<SectorPossibility>)
    requires
        counts@.len() == 6,
        counts@[0] + counts@[1] + counts@[2] + counts@[3] + counts@[4] + counts@[5] == total,
    ensures
        forall|i: int|
            0 <= i < row@.len() ==> (#[trigger] row@[i]).rate == (Ratio {
                num: counts@[type_rank(row@[i].sector_type)] as u128,
                den: total as u128,
            }) && counts@[type_rank(row@[i].sector_type)] > 0,
        forall|k: int| 0 <= k < 6 && counts@[k] > 0 ==> row_has(row@, #[trigger] type_of_rank(k)),
        forall|i: int, j: int|
            0 <= i < j < row@.len() ==> comes_before(#[trigger] row@[i], #[trigger] row@[j]),
        row_sum(row@) == total,
{
    let mut done: Vec<bool> = vec![false, false, false, false, false, false];
    let mut row: Vec<SectorPossibility> = Vec::new();
    let mut step: usize = 0;
    while step < 6
        invariant
            step <= 6,
            counts@.len() == 6,
            done@.len() == 6,
            counts@[0] + counts@[1] + counts@[2] + counts@[3] + counts@[4] + counts@[5] == total,
            undone(done@) == 6 - step,
            row_sum(row@) + pending(counts@, done@) == total,
            forall|i: int|
                0 <= i < row@.len() ==> (#[trigger] row@[i]).rate == (Ratio {
                    num: counts@[type_rank(row@[i].sector_type)] as u128,
                    den: total as u128,
                }) && counts@[type_rank(row@[i].sector_type)] > 0,
            forall|k: int|
                0 <= k < 6 && done@[k] && counts@[k] > 0 ==> row_has(
                    row@,
                    #[trigger] type_of_rank(k),
                ),
            forall|i: int, j: int|
                0 <= i < j < row@.len() ==> comes_before(#[trigger] row@[i], #[trigger] row@[j]),
            forall|i: int, k: int|
                0 <= i < row@.len() && 0 <= k < 6 && !#[trigger] done@[k] ==> (#[trigger] row@[i]).rate.num
                    > counts@[k] || (row@[i].rate.num == counts@[k] && type_rank(
                    row@[i].sector_type,
                ) < k),
        decreases 6 - step,
    {
        let best = pick_best(counts, &done);
        let ghost done_before = done@;
        let ghost row_before = row@;
        done.set(best, true);
        if counts[best] > 0 {
            let entry = SectorPossibility {
                sector_type: type_at_rank(best),
                rate: Ratio { num: counts[best] as u128, den: total as u128 },
            };
            row.push(entry);
            proof {
                assert(row@.drop_last() =~= row_before);
                assert(row@[row_before.len() as int] == entry);
                assert forall|j: int|
                    0 <= j < 6 && done@[j] && counts@[j] > 0 implies row_has(
                    row@,
                    #[trigger] type_of_rank(j),
                ) by {
                    if j == best {
                        assert(row@[row_before.len() as int].sector_type == type_of_rank(j));
                    } else {
                        assert(row_has(row_before, type_of_rank(j)));
                        let w = choose|w: int|
                            0 <= w < row_before.len() && (#[trigger] row_before[w]).sector_type
                                == type_of_rank(j);
                        assert(row@[w].sector_type == type_of_rank(j));
                    }
                }
            }
        }
        step += 1;
    }
    row
}

/// A row made from the counts of a position is the row of the position.
proof fn lemma_row_ok(
    cands: Seq<Seq<SectorType>>,
    pos: int,
    counts: Seq<usize>,
    row: Seq<SectorPossibility>,
)
    requires
        counts.len() == 6,
        forall|t: SectorType| #[trigger] type_count(cands, pos, t) == counts[type_rank(t)],
        forall|i: int|
            0 <= i < row.len() ==> (#[trigger] row[i]).rate == (Ratio {
                num: counts[type_rank(row[i].sector_type)] as u128,
                den: cands.len() as u128,
            }) && counts[type_rank(row[i].sector_type)] > 0,
        forall|k: int| 0 <= k < 6 && counts[k] > 0 ==> row_has(row, #[trigger] type_of_rank(k)),
        forall|i: int, j: int|
            0 <= i < j < row.len() ==> comes_before(#[trigger] row[i], #[trigger] row[j]),
        row_sum(row) == cands.len(),
    ensures
        row_ok(cands, pos, row),
{
    reveal(row_ok);
    assert forall|i: int| 0 <= i < row.len() implies (#[trigger] row[i]).rate == (Ratio {
        num: type_count(cands, pos, row[i].sector_type) as u128,
        den: cands.len() as u128,
    }) && type_count(cands, pos, row[i].sector_type) > 0 by {
        assert(type_count(cands, pos, row[i].sector_type) == counts[type_rank(
            row[i].sector_type,
        )]);
    }
    assert forall|t: SectorType| #[trigger] type_count(cands, pos, t) > 0 implies exists|i: int|
        0 <= i < row.len() && (#[trigger] row[i]).sector_type == t by {
        assert(type_of_rank(type_rank(t)) == t);
        assert(row_has(row, type_of_rank(type_rank(t))));
    }
}

impl ChoiceFilter {
    /// For each sector, the types that it may hold with the share of the
    /// candidates in which it holds them, likeliest first. The shares of a
    /// sector add up to one. Empty where the filter holds no candidates.
    pub fn all_possibilities(&self) -> (r: AllSectorPossibilities)
        requires
            self.wf(),
        ensures
            !self.ready() ==> r.0@.len() == 0,
            self.candidates().len() == 0 ==> r.0@.len() == 0,
            self.candidates().len() > 0 ==> r.0@.len() == self.board().sector_count(),
            forall|p: int|
                1 <= p <= r.0@.len() ==> (#[trigger] r.0@[p - 1]).index == p && row_ok(
                    self.candidates(),
                    p,
                    r.0@[p - 1].possibilities@,
                ),
    {
        let mut res: Vec<SectorPossibilities> = Vec::new();
        if self.all.len() == 0 {
            return AllSectorPossibilities(res);
        }
        let n = self.map_type.sector_count();
        let total = self.all.len();
        let ghost cands = self.candidates();
        let mut pos: usize = 1;
        while pos <= n
            invariant
                self.wf(),
                n == self.map_type.sector_count(),
                cands == self.candidates(),
                total == cands.len(),
                1 <= pos <= n + 1,
                res@.len() == pos - 1,
                forall|p: int|
                    1 <= p < pos ==> (#[trigger] res@[p - 1]).index == p && row_ok(
                        cands,
                        p,
                        res@[p - 1].possibilities@,
                    ),
            decreases n + 1 - pos,
        {
            let counts = self.counts_at(pos);
            let possibilities = sorted_row(&counts, total);
            proof {
                lemma_row_ok(cands, pos as int, counts@, possibilities@);
            }
            res.push(SectorPossibilities { index: pos, possibilities });
            pos += 1;
        }
        AllSectorPossibilities(res)
    }
}

/// The first position that holds X, or 0 where none does.
pub open spec fn x_place(s: Seq<SectorType>) -> int {
    if exists|p: int| is_x_place(s, p) {
        choose|p: int| is_x_place(s, p)
    } else {
        0
    }
}

/// Whether `p` is the first position that holds X.
pub open spec fn is_x_place(s: Seq<SectorType>, p: int) -> bool {
    holds_at(s, p, SectorType::X) && forall|q: int| 1 <= q < p ==> type_at(s, q) != SectorType::X
}

/// The types of the positions `1..=upto` that have X next to them, in the
/// order of the positions.
pub open spec fn beside_x_upto(s: Seq<SectorType>, upto: int) -> Seq<SectorType>
    decreases upto,
{
    if upto <= 0 {
        Seq::empty()
    } else if adjacent_to(s, upto, SectorType::X) {
        beside_x_upto(s, upto - 1).push(type_at(s, upto))
    } else {
        beside_x_upto(s, upto - 1)
    }
}

/// What a layout says of X that a locate has to get right: where X is, and
/// the types next to it.
pub open spec fn locate_signature(s: Seq<SectorType>) -> (Seq<SectorType>, int) {
    (beside_x_upto(s, s.len() as int), x_place(s))
}

/// The signature as a list of numbers: the ranks of the types, then the
/// place.
pub open spec fn signature_code(sig: (Seq<SectorType>, int)) -> Seq<usize> {
    Seq::new(sig.0.len(), |i: int| type_rank(sig.0[i]) as usize).push(sig.1 as usize)
}

/// Signatures with one code are one signature.
pub proof fn lemma_signature_code_injective(a: (Seq<SectorType>, int), b: (Seq<SectorType>, int))
    requires
        0 <= a.1 <= usize::MAX,
        0 <= b.1 <= usize::MAX,
        signature_code(a) == signature_code(b),
    ensures
        a == b,
{
    let ca = signature_code(a);
    let cb = signature_code(b);
    assert(ca.len() == a.0.len() + 1);
    assert(cb.len() == b.0.len() + 1);
    assert(ca[a.0.len() as int] == a.1 as usize);
    assert(cb[b.0.len() as int] == b.1 as usize);
    assert forall|i: int| 0 <= i < a.0.len() implies a.0[i] == b.0[i] by {
        assert(ca[i] == type_rank(a.0[i]) as usize);
        assert(cb[i] == type_rank(b.0[i]) as usize);
    }
    assert(a.0 =~= b.0);
}

/// `Itertools::all_equal` over a list of lists of numbers: whether every
/// item equals every other. True of an empty list.
#[verifier::external_body]
fn all_equal(items: &Vec<Vec<usize>>) -> (r: bool)
    ensures
        r == forall|i: int, j: int|
            0 <= i < items@.len() && 0 <= j < items@.len() ==> (#[trigger] items@[i])@
                == (#[trigger] items@[j])@,
{
    items.iter().all_equal()
}

/// The signature of a board as a list of numbers.
fn signature_of(ss: &Sectors) -> (r: Vec<usize>)
    requires
        ss.wf(),
    ensures
        r@ == signature_code(locate_signature(ss@)),
        0 <= locate_signature(ss@).1 <= usize::MAX,
{
    let n = ss.data.len();
    let ghost s = ss@;
    let mut x_index: usize = 0;
    let mut i: usize = 0;
    while i < n
        invariant
            s == ss@,
            n == s.len(),
            i <= n,
            x_index <= i,
            x_index == 0 ==> forall|q: int| 1 <= q <= i ==> type_at(s, q) != SectorType::X,
            x_index > 0 ==> is_x_place(s, x_index as int),
        decreases n - i,
    {
        proof {
            lemma_view_neighbours(ss, i + 1);
        }
        if x_index == 0 && ss.data[i].sector_type == SectorType::X {
            x_index = i + 1;
        }
        i += 1;
    }
    proof {
        if x_index > 0 {
            let p = choose|p: int| is_x_place(s, p);
            if p < x_index {
                assert(type_at(s, p) != SectorType::X);
            } else if p > x_index {
                assert(type_at(s, x_index as int) != SectorType::X);
            }
            assert(x_place(s) == x_index);
        } else {
            assert forall|p: int| !is_x_place(s, p) by {
                if holds_at(s, p, SectorType::X) {
                    assert(type_at(s, p) != SectorType::X);
                }
            }
            assert(x_place(s) == 0);
        }
    }
    let mut code: Vec<usize> = Vec::new();
    let mut k: usize = 0;
    while k < n
        invariant
            s == ss@,
            n == s.len(),
            k <= n,
            code@ == Seq::new(
                beside_x_upto(s, k as int).len(),
                |j: int| type_rank(beside_x_upto(s, k as int)[j]) as usize,
            ),
        decreases n - k,
    {
        proof {
            lemma_view_neighbours(ss, k + 1);
        }
        if ss.prev(k + 1).sector_type == SectorType::X || ss.next(k + 1).sector_type
            == SectorType::X {
            code.push(rank_of(ss.data[k].sector_type));
        }
        assert(code@ =~= Seq::new(
            beside_x_upto(s, k + 1).len(),
            |j: int| type_rank(beside_x_upto(s, k + 1)[j]) as usize,
        ));
        k += 1;
    }
    code.push(x_index);
    code
}

impl ChoiceFilter {
    /// Whether the candidates all say the same of X: where it is, and what
    /// lies next to it. False before the filter holds candidates, and false
    /// when none is left: nothing can be located from no candidates.
    pub fn can_locate(&self) -> (r: bool)
        requires
            self.wf(),
        ensures
            r == (self.ready() && self.candidates().len() > 0 && forall|i: int, j: int|
                0 <= i < self.candidates().len() && 0 <= j < self.candidates().len()
                    ==> locate_signature(#[trigger] self.candidates()[i]) == locate_signature(
                    #[trigger] self.candidates()[j],
                )),
    {
        if !self.initialized || self.all.len() == 0 {
            return false;
        }
        let ghost cands = self.candidates();
        let mut codes: Vec<Vec<usize>> = Vec::new();
        let mut i: usize = 0;
        while i < self.all.len()
            invariant
                self.wf(),
                cands == layouts_of(self.all@),
                i <= self.all@.len(),
                codes@.len() == i,
                forall|j: int|
                    0 <= j < i ==> (#[trigger] codes@[j])@ == signature_code(
                        locate_signature(cands[j]),
                    ) && 0 <= locate_signature(cands[j]).1 <= usize::MAX,
            decreases self.all@.len() - i,
        {
            assert(self.pool()[i as int].wf());
            codes.push(signature_of(&self.all[i]));
            i += 1;
        }
        let r = all_equal(&codes);
        proof {
            if r {
                assert forall|a: int, b: int|
                    0 <= a < cands.len() && 0 <= b < cands.len() implies locate_signature(
                    #[trigger] cands[a],
                ) == locate_signature(#[trigger] cands[b]) by {
                    assert(codes@[a]@ == codes@[b]@);
                    lemma_signature_code_injective(
                        locate_signature(cands[a]),
                        locate_signature(cands[b]),
                    );
                }
            } else {
                let (a, b) = choose|a: int, b: int|
                    0 <= a < codes@.len() && 0 <= b < codes@.len() && (#[trigger] codes@[a])@
                        != (#[trigger] codes@[b])@;
                assert(locate_signature(cands[a]) != locate_signature(cands[b]));
            }
        }
        r
    }
}

} // verus!

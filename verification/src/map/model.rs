use vstd::prelude::*;

verus! {

/// What a sector of the board holds. `X` is the hidden object of the game; to
/// every observation but a successful locate it looks like `Space`.
#[derive(Clone, Copy, Debug, PartialEq, Eq, Hash, Structural)]
pub enum SectorType {
    Comet,
    Asteroid,
    DwarfPlanet,
    Nebula,
    X,
    Space,
}

/// The displayed name of a sector type.
pub open spec fn spec_type_name(t: SectorType) -> Seq<char> {
    match t {
        SectorType::Comet => "彗星"@,
        SectorType::Asteroid => "小行星"@,
        SectorType::DwarfPlanet => "矮行星"@,
        SectorType::Nebula => "气体云"@,
        SectorType::X => "X"@,
        SectorType::Space => "空域"@,
    }
}

impl SectorType {
    /// The name under which the type is shown to players.
    pub fn to_string(&self) -> (r: String)
        ensures
            r@ == spec_type_name(*self),
    {
        match self {
            SectorType::Comet => String::from_str("彗星"),
            SectorType::Asteroid => String::from_str("小行星"),
            SectorType::DwarfPlanet => String::from_str("矮行星"),
            SectorType::Nebula => String::from_str("气体云"),
            SectorType::X => String::from_str("X"),
            SectorType::Space => String::from_str("空域"),
        }
    }
}

/// The position that follows `i` on a ring of positions `1..=n`.
pub open spec fn next_index(n: int, i: int) -> int {
    if i == n {
        1
    } else {
        i + 1
    }
}

/// The position that precedes `i` on a ring of positions `1..=n`.
pub open spec fn prev_index(n: int, i: int) -> int {
    if i == 1 {
        n
    } else {
        i - 1
    }
}

/// The position half a ring away from `i`.
pub open spec fn opposite_index(n: int, i: int) -> int {
    if i <= n / 2 {
        i + n / 2
    } else {
        i - n / 2
    }
}

/// The position reached from `i` by `k` steps forward.
pub open spec fn forward(n: int, i: int, k: nat) -> int
    decreases k,
{
    if k == 0 {
        i
    } else {
        next_index(n, forward(n, i, (k - 1) as nat))
    }
}

/// The position reached from `i` by `k` steps backward.
pub open spec fn backward(n: int, i: int, k: nat) -> int
    decreases k,
{
    if k == 0 {
        i
    } else {
        prev_index(n, backward(n, i, (k - 1) as nat))
    }
}

/// The type at position `pos` (counted from 1) of a layout.
pub open spec fn type_at(s: Seq<SectorType>, pos: int) -> SectorType {
    s[pos - 1]
}

/// The type found `d` steps after position `pos`.
pub open spec fn type_ahead(s: Seq<SectorType>, pos: int, d: nat) -> SectorType {
    type_at(s, forward(s.len() as int, pos, d))
}

/// The type found `d` steps before position `pos`.
pub open spec fn type_behind(s: Seq<SectorType>, pos: int, d: nat) -> SectorType {
    type_at(s, backward(s.len() as int, pos, d))
}

/// Whether type `t` occurs within `k` steps after `pos`, or within `k` steps
/// before it. The two directions are looked at separately.
pub open spec fn range_exists(s: Seq<SectorType>, pos: int, t: SectorType, k: nat) -> bool {
    ||| exists|d: nat| 1 <= d <= k && #[trigger] type_ahead(s, pos, d) == t
    ||| exists|d: nat| 1 <= d <= k && #[trigger] type_behind(s, pos, d) == t
}

/// The distance between two positions of a ring, both ends counted: the
/// shorter way round, plus one.
pub open spec fn pair_distance(n: int, a: int, b: int) -> int {
    let d = if a >= b {
        a - b
    } else {
        b - a
    };
    if d <= n - d {
        d + 1
    } else {
        n - d + 1
    }
}

/// Whether a sector of type `found` counts in a survey for `wanted`: a survey
/// for `Space` cannot tell `X` from `Space`.
pub open spec fn survey_matches(wanted: SectorType, found: SectorType) -> bool {
    if wanted == SectorType::Space {
        found == SectorType::Space || found == SectorType::X
    } else {
        found == wanted
    }
}

/// Whether `input` lies on the arc that runs from `start` forward to `end` on
/// a ring of positions `1..=max`. An arc whose ends coincide is the whole ring.
pub open spec fn spec_in_range(start: int, end: int, input: int, max: int) -> bool {
    if start < end {
        start <= input <= end
    } else {
        (start <= input <= max) || (1 <= input <= end)
    }
}

/// How many of the positions `1..=upto` lie on the arc from `st` to `ed` and
/// count in a survey for `wanted`.
pub open spec fn range_count_upto(
    s: Seq<SectorType>,
    st: int,
    ed: int,
    wanted: SectorType,
    upto: int,
) -> nat
    decreases upto,
{
    if upto <= 0 {
        0
    } else {
        range_count_upto(s, st, ed, wanted, upto - 1) + if spec_in_range(
            st,
            ed,
            upto,
            s.len() as int,
        ) && survey_matches(wanted, type_at(s, upto)) {
            1nat
        } else {
            0nat
        }
    }
}

/// A survey counts no more sectors than it looks at.
pub proof fn lemma_range_count_bound(
    s: Seq<SectorType>,
    st: int,
    ed: int,
    wanted: SectorType,
    upto: int,
)
    ensures
        upto >= 0 ==> range_count_upto(s, st, ed, wanted, upto) <= upto,
        upto < 0 ==> range_count_upto(s, st, ed, wanted, upto) == 0,
    decreases upto,
{
    if upto > 0 {
        lemma_range_count_bound(s, st, ed, wanted, upto - 1);
    }
}

/// The answer of a survey: how many sectors on the arc from `st` to `ed`
/// count for `wanted`.
pub open spec fn range_count(s: Seq<SectorType>, st: int, ed: int, wanted: SectorType) -> nat {
    range_count_upto(s, st, ed, wanted, s.len() as int)
}

pub fn in_range(start: usize, end: usize, input: usize, max: usize) -> (r: bool)
    requires
        0 < start <= max,
        0 < end <= max,
    ensures
        r == spec_in_range(start as int, end as int, input as int, max as int),
{
    if start < end {
        start <= input && input <= end
    } else {
        (start <= input && input <= max) || (1 <= input && input <= end)
    }
}

/// What `validate_index_in_range` decides: the first input lies on the arc, and
/// the second, where there is one, lies on it no earlier than the first.
pub open spec fn spec_validate_index_in_range(
    start: int,
    end: int,
    input_st: int,
    input_ed: Option<usize>,
    max: int,
) -> bool {
    spec_in_range(start, end, input_st, max) && match input_ed {
        None => true,
        Some(ed) => spec_in_range(start, end, ed as int, max) && spec_in_range(
            input_st,
            end,
            ed as int,
            max,
        ),
    }
}

pub fn validate_index_in_range(
    start: usize,
    end: usize,
    input_st: usize,
    input_ed: Option<usize>,
    max: usize,
) -> (r: bool)
    requires
        0 < start <= max,
        0 < end <= max,
    ensures
        r == spec_validate_index_in_range(
            start as int,
            end as int,
            input_st as int,
            input_ed,
            max as int,
        ),
{
    if !in_range(start, end, input_st, max) {
        return false;
    }
    match input_ed {
        None => true,
        Some(ed) => in_range(start, end, ed, max) && in_range(input_st, end, ed, max),
    }
}

/// One sector of the board: its position, counted from 1, and what it holds.
#[derive(Clone, Copy, Debug)]
pub struct Sector {
    pub index: usize,
    pub sector_type: SectorType,
}

/// A layout: the sectors of the board in the order of their positions.
#[derive(Debug)]
pub struct Sectors {
    pub data: Vec<Sector>,
}

impl View for Sectors {
    type V = Seq<SectorType>;

    /// The layout as the sequence of its types, position 1 first.
    open spec fn view(&self) -> Seq<SectorType> {
        Seq::new(self.data@.len(), |i: int| self.data@[i].sector_type)
    }
}

impl Clone for Sectors {
    fn clone(&self) -> (r: Self)
        ensures
            r.data@ == self.data@,
    {
        let mut data: Vec<Sector> = Vec::new();
        let mut i: usize = 0;
        while i < self.data.len()
            invariant
                i <= self.data@.len(),
                data@ == self.data@.take(i as int),
            decreases self.data@.len() - i,
        {
            data.push(self.data[i]);
            i += 1;
        }
        Sectors { data }
    }
}

impl Sectors {
    /// Every sector carries the number of the place where it stands.
    pub open spec fn wf(&self) -> bool {
        forall|i: int| 0 <= i < self.data@.len() ==> (#[trigger] self.data@[i]).index == i + 1
    }

    pub fn next(&self, index: usize) -> (r: &Sector)
        requires
            1 <= index <= self.data@.len(),
        ensures
            *r == self.data@[next_index(self.data@.len() as int, index as int) - 1],
    {
        let next_index = if index == self.data.len() {
            1
        } else {
            index + 1
        };
        &self.data[next_index - 1]
    }

    pub fn prev(&self, index: usize) -> (r: &Sector)
        requires
            1 <= index <= self.data@.len(),
        ensures
            *r == self.data@[prev_index(self.data@.len() as int, index as int) - 1],
    {
        let prev_index = if index == 1 {
            self.data.len()
        } else {
            index - 1
        };
        &self.data[prev_index - 1]
    }

    pub fn opposite(&self, index: usize) -> (r: &Sector)
        requires
            1 <= index <= self.data@.len(),
        ensures
            *r == self.data@[opposite_index(self.data@.len() as int, index as int) - 1],
    {
        let half = self.data.len() / 2;
        let opposite_index = if index <= half {
            index + half
        } else {
            index - half
        };
        &self.data[opposite_index - 1]
    }

    pub fn check_range_exist(&self, index: usize, object: &SectorType, range: usize) -> (r: bool)
        requires
            self.wf(),
            1 <= index <= self.data@.len(),
        ensures
            r == range_exists(self@, index as int, *object, range as nat),
    {
        let ghost n = self.data@.len() as int;
        let mut nindex = index;
        let mut i: usize = 0;
        while i < range
            invariant
                self.wf(),
                n == self.data@.len(),
                i <= range,
                1 <= nindex <= n,
                nindex == forward(n, index as int, i as nat),
                forall|d: nat| 1 <= d <= i ==> #[trigger] type_ahead(self@, index as int, d) != *object,
            decreases range - i,
        {
            let next = self.next(nindex);
            i += 1;
            assert(next.index == forward(n, index as int, i as nat));
            assert(next.sector_type == type_ahead(self@, index as int, i as nat));
            if next.sector_type == *object {
                return true;
            }
            nindex = next.index;
        }
        let mut pindex = index;
        let mut j: usize = 0;
        while j < range
            invariant
                self.wf(),
                n == self.data@.len(),
                j <= range,
                1 <= pindex <= n,
                pindex == backward(n, index as int, j as nat),
                forall|d: nat| 1 <= d <= range ==> #[trigger] type_ahead(self@, index as int, d) != *object,
                forall|d: nat| 1 <= d <= j ==> #[trigger] type_behind(self@, index as int, d) != *object,
            decreases range - j,
        {
            let prev = self.prev(pindex);
            j += 1;
            assert(prev.index == backward(n, index as int, j as nat));
            assert(prev.sector_type == type_behind(self@, index as int, j as nat));
            if prev.sector_type == *object {
                return true;
            }
            pindex = prev.index;
        }
        false
    }

    /// The widest pair of sectors of one type: the largest `pair_distance`
    /// over all pairs of positions that hold `object`, a position paired with
    /// itself included; 0 where no sector holds it. The sectors stand in the
    /// order of their numbers, so the place of a sector in the list is the
    /// position that its number gives.
    pub fn check_type_max_distance(&self, object: &SectorType) -> (r: usize)
        requires
            self.wf(),
        ensures
            forall|a: int, b: int|
                1 <= a <= self@.len() && 1 <= b <= self@.len() && type_at(self@, a) == *object
                    && type_at(self@, b) == *object ==> #[trigger] pair_distance(
                    self@.len() as int,
                    a,
                    b,
                ) <= r,
            r == 0 <==> forall|a: int| 1 <= a <= self@.len() ==> type_at(self@, a) != *object,
            r != 0 ==> exists|a: int, b: int|
                1 <= a <= self@.len() && 1 <= b <= self@.len() && type_at(self@, a) == *object
                    && type_at(self@, b) == *object && #[trigger] pair_distance(
                    self@.len() as int,
                    a,
                    b,
                ) == r,
    {
        let n = self.data.len();
        let mut best: usize = 0;
        let mut a: usize = 0;
        while a < n
            invariant
                n == self.data@.len(),
                a <= n,
                best <= n + 1,
                forall|x: int, y: int|
                    1 <= x <= a && 1 <= y <= n && type_at(self@, x) == *object && type_at(
                        self@,
                        y,
                    ) == *object ==> #[trigger] pair_distance(n as int, x, y) <= best,
                best == 0 <==> forall|x: int| 1 <= x <= a ==> type_at(self@, x) != *object,
                best != 0 ==> exists|x: int, y: int|
                    1 <= x <= n && 1 <= y <= n && type_at(self@, x) == *object && type_at(
                        self@,
                        y,
                    ) == *object && #[trigger] pair_distance(n as int, x, y) == best,
            decreases n - a,
        {
            if self.data[a].sector_type == *object {
                let mut b: usize = 0;
                while b < n
                    invariant
                        n == self.data@.len(),
                        a < n,
                        b <= n,
                        best <= n + 1,
                        type_at(self@, a + 1) == *object,
                        forall|x: int, y: int|
                            1 <= x <= a && 1 <= y <= n && type_at(self@, x) == *object && type_at(
                                self@,
                                y,
                            ) == *object ==> #[trigger] pair_distance(n as int, x, y) <= best,
                        forall|y: int|
                            1 <= y <= b && type_at(self@, y) == *object ==> #[trigger] pair_distance(
                                n as int,
                                a + 1,
                                y,
                            ) <= best,
                        b > a ==> best != 0,
                        best != 0 ==> exists|x: int, y: int|
                            1 <= x <= n && 1 <= y <= n && type_at(self@, x) == *object && type_at(
                                self@,
                                y,
                            ) == *object && #[trigger] pair_distance(n as int, x, y) == best,
                    decreases n - b,
                {
                    if self.data[b].sector_type == *object {
                        let distance = if a >= b {
                            a - b
                        } else {
                            b - a
                        };
                        let wrapped = n - distance;
                        let d = if distance <= wrapped {
                            distance + 1
                        } else {
                            wrapped + 1
                        };
                        assert(d == pair_distance(n as int, a + 1, b + 1));
                        assert(type_at(self@, b + 1) == *object);
                        if d > best {
                            best = d;
                        }
                    }
                    b += 1;
                }
            }
            a += 1;
        }
        best
    }

    /// Counts the sectors on the arc from `st` to `ed` that a survey for
    /// `object` would report.
    pub fn get_range_type_cnt(&self, st: usize, ed: usize, object: &SectorType) -> (r: usize)
        requires
            self.wf(),
            0 < st <= self.data@.len(),
            0 < ed <= self.data@.len(),
        ensures
            r == range_count(self@, st as int, ed as int, *object),
            r <= self@.len(),
    {
        let n = self.data.len();
        let mut cnt: usize = 0;
        let mut i: usize = 0;
        while i < n
            invariant
                self.wf(),
                n == self.data@.len(),
                0 < st <= n,
                0 < ed <= n,
                i <= n,
                cnt <= i,
                cnt == range_count_upto(self@, st as int, ed as int, *object, i as int),
            decreases n - i,
        {
            let s = &self.data[i];
            let hit = match object {
                SectorType::Space => s.sector_type == SectorType::Space || s.sector_type
                    == SectorType::X,
                _ => s.sector_type == *object,
            };
            assert(hit == survey_matches(*object, type_at(self@, i + 1)));
            if in_range(st, ed, s.index, n) && hit {
                cnt += 1;
            }
            i += 1;
        }
        cnt
    }
}

/// The two boards of the game.
#[derive(Clone, Copy, Debug, PartialEq, Eq, Structural)]
pub enum MapType {
    /// 12 sectors.
    Standard,
    /// 18 sectors.
    Expert,
}

impl MapType {
    pub open spec fn spec_sector_count(&self) -> usize {
        match self {
            MapType::Standard => 12,
            MapType::Expert => 18,
        }
    }

    #[verifier::when_used_as_spec(spec_sector_count)]
    pub fn sector_count(&self) -> (r: usize)
        ensures
            r == self.spec_sector_count(),
    {
        match self {
            MapType::Standard => 12,
            MapType::Expert => 18,
        }
    }

    /// The places on the track where a meeting is held, each as position and
    /// rank within the position.
    pub fn meeting_points(&self) -> (r: Vec<(usize, usize)>)
        ensures
            *self == MapType::Standard ==> r@ == seq![
                (3usize, 5usize),
                (6usize, 5usize),
                (9usize, 5usize),
                (12usize, 5usize),
            ],
            *self == MapType::Expert ==> r@ == seq![
                (3usize, 5usize),
                (6usize, 5usize),
                (9usize, 5usize),
                (12usize, 5usize),
                (15usize, 5usize),
                (18usize, 5usize),
            ],
    {
        match self {
            MapType::Standard => vec![(3, 5), (6, 5), (9, 5), (12, 5)],
            MapType::Expert => vec![(3, 5), (6, 5), (9, 5), (12, 5), (15, 5), (18, 5)],
        }
    }

    /// The places on the track where a clue about X is handed out.
    pub fn xclue_points(&self) -> (r: Vec<(usize, usize)>)
        ensures
            *self == MapType::Standard ==> r@ == seq![(10usize, 5usize)],
            *self == MapType::Expert ==> r@ == seq![(7usize, 5usize), (16usize, 5usize)],
    {
        match self {
            MapType::Standard => vec![(10, 5)],
            MapType::Expert => vec![(7, 5), (16, 5)],
        }
    }
}

/// What the other players see of a token.
#[derive(Debug)]
pub struct SecretToken {
    pub user_id: String,
    /// The owner's place in the order of play: 1 to 4.
    pub user_index: usize,
    /// The sector the token lies on; 0 while it lies on none.
    pub sector_index: usize,
    /// How far the token is from being checked: 3 when just published, 0 when
    /// checked, 4 when the guess was wrong.
    pub meeting_index: usize,
    /// The type the token shows once it is revealed.
    pub sector_type: Option<SectorType>,
}

impl Clone for SecretToken {
    fn clone(&self) -> (r: Self)
        ensures
            r == *self,
    {
        SecretToken {
            user_id: self.user_id.clone(),
            user_index: self.user_index,
            sector_index: self.sector_index,
            meeting_index: self.meeting_index,
            sector_type: self.sector_type,
        }
    }
}

/// A player's guess that a sector holds a type.
#[derive(Debug)]
pub struct Token {
    pub placed: bool,
    pub secret: SecretToken,
    pub sector_type: SectorType,
}

impl Clone for Token {
    fn clone(&self) -> (r: Self)
        ensures
            r == *self,
    {
        Token { placed: self.placed, secret: self.secret.clone(), sector_type: self.sector_type }
    }
}

impl Token {
    /// A token as it is dealt: of the given type, owned by the given player,
    /// not placed, on no sector, showing nothing.
    pub open spec fn is_fresh(
        &self,
        sector_type: SectorType,
        user_id: Seq<char>,
        user_index: usize,
    ) -> bool {
        &&& !self.placed
        &&& self.sector_type == sector_type
        &&& self.secret.user_id@ == user_id
        &&& self.secret.user_index == user_index
        &&& self.secret.sector_index == 0
        &&& self.secret.meeting_index == 0
        &&& self.secret.sector_type is None
    }

    pub fn new(sector_type: SectorType, user_id: &str, user_index: usize) -> (r: Self)
        ensures
            r.is_fresh(sector_type, user_id@, user_index),
    {
        Self {
            placed: false,
            secret: SecretToken {
                user_id: user_id.to_owned(),
                user_index,
                sector_index: 0,
                meeting_index: 0,
                sector_type: None,
            },
            sector_type,
        }
    }

    pub open spec fn spec_is_success_located_any(&self) -> bool {
        self.placed && self.secret.meeting_index != 4 && self.secret.sector_type is Some
    }

    pub fn is_success_located(&self, sector_type: SectorType) -> (r: bool)
        ensures
            r == (self.sector_type == sector_type && self.spec_is_success_located_any()),
    {
        self.sector_type == sector_type && self.is_success_located_any()
    }

    #[verifier::when_used_as_spec(spec_is_success_located_any)]
    pub fn is_success_located_any(&self) -> (r: bool)
        ensures
            r == self.spec_is_success_located_any(),
    {
        self.placed && self.secret.meeting_index != 4 && self.secret.sector_type.is_some()
    }

    pub open spec fn spec_is_not_used(&self, sector_type: &SectorType) -> bool {
        !self.placed && self.sector_type == *sector_type
    }

    #[verifier::when_used_as_spec(spec_is_not_used)]
    pub fn is_not_used(&self, sector_type: &SectorType) -> (r: bool)
        ensures
            r == self.spec_is_not_used(sector_type),
    {
        !self.placed && self.sector_type == *sector_type
    }

    pub open spec fn spec_is_ready_published(&self, sector_type: &SectorType) -> bool {
        self.placed && self.sector_type == *sector_type && self.secret.sector_index == 0
    }

    #[verifier::when_used_as_spec(spec_is_ready_published)]
    pub fn is_ready_published(&self, sector_type: &SectorType) -> (r: bool)
        ensures
            r == self.spec_is_ready_published(sector_type),
    {
        self.placed && self.sector_type == *sector_type && self.secret.sector_index == 0
    }

    pub open spec fn spec_is_revealed_checked(&self) -> bool {
        self.placed && self.secret.sector_type is Some && self.secret.meeting_index == 0
    }

    #[verifier::when_used_as_spec(spec_is_revealed_checked)]
    pub fn is_revealed_checked(&self) -> (r: bool)
        ensures
            r == self.spec_is_revealed_checked(),
    {
        self.placed && self.secret.sector_type.is_some() && self.secret.meeting_index == 0
    }

    pub open spec fn spec_any_ready_published(&self) -> bool {
        self.placed && self.secret.sector_index == 0
    }

    #[verifier::when_used_as_spec(spec_any_ready_published)]
    pub fn any_ready_published(&self) -> (r: bool)
        ensures
            r == self.spec_any_ready_published(),
    {
        self.placed && self.secret.sector_index == 0
    }

    /// Takes the token in hand and hands it back for what is to be done
    /// with it next.
    pub fn set_to_be_placed(&mut self) -> (r: &mut Self)
        ensures
            *r == (Token { placed: true, ..*old(self) }),
            *final(self) == *final(r),
    {
        self.placed = true;
        self
    }

    pub open spec fn spec_any_ready_checked(&self) -> bool {
        self.placed && self.secret.meeting_index == 0 && self.secret.sector_type is None
    }

    #[verifier::when_used_as_spec(spec_any_ready_checked)]
    pub fn any_ready_checked(&self) -> (r: bool)
        ensures
            r == self.spec_any_ready_checked(),
    {
        self.placed && self.secret.meeting_index == 0 && self.secret.sector_type.is_none()
    }

    /// Lays the token on a sector, three meetings away from its check.
    pub fn set_published(&mut self, sector_index: usize)
        requires
            old(self).placed,
            old(self).secret.sector_index == 0,
        ensures
            *final(self) == (Token {
                secret: SecretToken {
                    sector_index,
                    meeting_index: 3,
                    ..old(self).secret
                },
                ..*old(self)
            }),
    {
        self.secret.sector_index = sector_index;
        self.secret.meeting_index = 3;
    }

    /// Whether a meeting moves the token one step nearer to its check: it lies
    /// on a sector that is not revealed, unrevealed itself, with steps left.
    pub open spec fn moves_at_meeting(&self, revealed_sectors: Seq<usize>) -> bool {
        &&& self.placed
        &&& self.secret.sector_index != 0
        &&& 0 < self.secret.meeting_index <= 3
        &&& self.secret.sector_type is None
        &&& !revealed_sectors.contains(self.secret.sector_index)
    }

    pub fn push_at_meeting(&mut self, revealed_sectors: &[usize])
        ensures
            old(self).moves_at_meeting(revealed_sectors@) ==> *final(self) == (Token {
                secret: SecretToken {
                    meeting_index: (old(self).secret.meeting_index - 1) as usize,
                    ..old(self).secret
                },
                ..*old(self)
            }),
            !old(self).moves_at_meeting(revealed_sectors@) ==> *final(self) == *old(self),
    {
        if self.placed && self.secret.sector_index != 0 && self.secret.meeting_index > 0
            && self.secret.meeting_index <= 3 && self.secret.sector_type.is_none()
            && !slice_contains(revealed_sectors, self.secret.sector_index) {
            self.secret.meeting_index -= 1;
        }
    }

    /// Reveals a placed token that shows nothing yet; says whether it did.
    pub fn reveal_in_the_end(&mut self) -> (r: bool)
        ensures
            r == (old(self).placed && old(self).secret.sector_type is None),
            r ==> *final(self) == (Token {
                secret: SecretToken {
                    sector_type: Some(old(self).sector_type),
                    ..old(self).secret
                },
                ..*old(self)
            }),
            !r ==> *final(self) == *old(self),
    {
        if self.placed && self.secret.sector_type.is_none() {
            self.secret.sector_type = Some(self.sector_type);
            return true;
        }
        false
    }
}

/// Whether `items` holds `x`.
pub fn slice_contains(items: &[usize], x: usize) -> (r: bool)
    ensures
        r == items@.contains(x),
{
    let mut i: usize = 0;
    while i < items.len()
        invariant
            i <= items@.len(),
            forall|j: int| 0 <= j < i ==> items@[j] != x,
        decreases items@.len() - i,
    {
        if items[i] == x {
            return true;
        }
        i += 1;
    }
    false
}

impl MapType {
    /// How many tokens of a type a player is dealt.
    pub open spec fn token_count(&self, sector_type: SectorType) -> nat {
        match sector_type {
            SectorType::Comet => 2,
            SectorType::Asteroid => 4,
            SectorType::DwarfPlanet => match self {
                MapType::Standard => 1,
                MapType::Expert => 4,
            },
            SectorType::Nebula => 2,
            _ => 0,
        }
    }

    /// The type of the `i`-th token dealt: comets first, then asteroids,
    /// dwarf planets and nebulae.
    pub open spec fn token_type_at(&self, i: int) -> SectorType {
        let dwarfs = self.token_count(SectorType::DwarfPlanet);
        if i < 2 {
            SectorType::Comet
        } else if i < 6 {
            SectorType::Asteroid
        } else if i < 6 + dwarfs {
            SectorType::DwarfPlanet
        } else {
            SectorType::Nebula
        }
    }

    /// Deals a player's tokens.
    pub fn generate_tokens(&self, user_id: String, user_index: usize) -> (r: Vec<Token>)
        ensures
            r@.len() == 8 + self.token_count(SectorType::DwarfPlanet),
            forall|i: int|
                0 <= i < r@.len() ==> (#[trigger] r@[i]).is_fresh(
                    self.token_type_at(i),
                    user_id@,
                    user_index,
                ),
    {
        let dwarfs: usize = match self {
            MapType::Standard => 1,
            MapType::Expert => 4,
        };
        let total: usize = 8 + dwarfs;
        let mut tokens: Vec<Token> = Vec::new();
        let mut i: usize = 0;
        while i < total
            invariant
                dwarfs == self.token_count(SectorType::DwarfPlanet),
                total == 8 + dwarfs,
                i <= total,
                tokens@.len() == i,
                forall|j: int|
                    0 <= j < i ==> (#[trigger] tokens@[j]).is_fresh(
                        self.token_type_at(j),
                        user_id@,
                        user_index,
                    ),
            decreases total - i,
        {
            let sector_type = if i < 2 {
                SectorType::Comet
            } else if i < 6 {
                SectorType::Asteroid
            } else if i < 6 + dwarfs {
                SectorType::DwarfPlanet
            } else {
                SectorType::Nebula
            };
            tokens.push(Token::new(sector_type, user_id.as_str(), user_index));
            i += 1;
        }
        tokens
    }
}

/// The board of one game: its shape and the true layout.
#[derive(Debug)]
pub struct GameMap {
    pub map_type: MapType,
    pub sectors: Sectors,
}

impl Clone for GameMap {
    fn clone(&self) -> (r: Self)
        ensures
            r.map_type == self.map_type,
            r.sectors.data@ == self.sectors.data@,
    {
        GameMap { map_type: self.map_type, sectors: self.sectors.clone() }
    }
}

/// What a target of position `index` shows: the type there, and `Space`
/// where X hides.
pub open spec fn target_result(s: Seq<SectorType>, index: int) -> SectorType {
    if type_at(s, index) == SectorType::X {
        SectorType::Space
    } else {
        type_at(s, index)
    }
}

/// Whether X is at `index` between the two given neighbours.
pub open spec fn locate_result(
    s: Seq<SectorType>,
    index: int,
    pre: SectorType,
    next: SectorType,
) -> bool {
    &&& type_at(s, index) == SectorType::X
    &&& type_at(s, prev_index(s.len() as int, index)) == pre
    &&& type_at(s, next_index(s.len() as int, index)) == next
}

impl GameMap {
    /// A board without sectors, for a game that has not started.
    pub fn place_holder() -> (r: Self)
        ensures
            r.map_type == MapType::Standard,
            r.sectors.data@.len() == 0,
    {
        Self { map_type: MapType::Standard, sectors: Sectors { data: Vec::new() } }
    }

    pub fn size(&self) -> (r: usize)
        ensures
            r == self.sectors@.len(),
    {
        self.sectors.data.len()
    }

    pub fn survey_sector(&self, st: usize, ed: usize, object: &SectorType) -> (r: usize)
        requires
            self.sectors.wf(),
            0 < st <= self.sectors@.len(),
            0 < ed <= self.sectors@.len(),
        ensures
            r == range_count(self.sectors@, st as int, ed as int, *object),
    {
        self.sectors.get_range_type_cnt(st, ed, object)
    }

    pub fn target_sector(&self, index: usize) -> (r: SectorType)
        requires
            1 <= index <= self.sectors@.len(),
        ensures
            r == target_result(self.sectors@, index as int),
    {
        match self.sectors.data[index - 1].sector_type {
            SectorType::X => SectorType::Space,
            rest => rest,
        }
    }

    pub fn locate_x(
        &self,
        index: usize,
        pre_sector_type: &SectorType,
        next_sector_type: &SectorType,
    ) -> (r: bool)
        requires
            1 <= index <= self.sectors@.len(),
        ensures
            r == locate_result(self.sectors@, index as int, *pre_sector_type, *next_sector_type),
    {
        let sector = &self.sectors.data[index - 1];
        let next_sector = self.sectors.next(index);
        let pre_sector = self.sectors.prev(index);
        sector.sector_type == SectorType::X && pre_sector.sector_type == *pre_sector_type
            && next_sector.sector_type == *next_sector_type
    }

    /// Whether the sector at `index` holds `target_type`.
    pub fn meeting_check(&self, index: usize, target_type: &SectorType) -> (r: bool)
        requires
            1 <= index <= self.sectors@.len(),
        ensures
            r == (type_at(self.sectors@, index as int) == *target_type),
    {
        let sector = &self.sectors.data[index - 1];
        sector.sector_type == *target_type
    }
}

} // verus!

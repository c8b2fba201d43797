use xplanet::map::SectorType::{Asteroid, Comet, DwarfPlanet, Nebula, Space, X};
use xplanet::map::{
    impurity, ChoiceFilter, Clue, ClueConnection, ClueEnum, MapType, Ratio, SecretToken, Sector,
    SectorType, Sectors, Token,
};
use xplanet::operation::{
    DoPublishOperation, LocateOperation, Operation, OperationResult, ReadyPublishOperation,
    SurveyOperatoin, TargetOperation,
};

const EPSILON: f64 = 1e-12;

fn as_f64(r: Ratio) -> f64 {
    r.num as f64 / r.den as f64
}

fn board(types: &[SectorType]) -> Sectors {
    Sectors {
        data: types
            .iter()
            .enumerate()
            .map(|(i, t)| Sector { index: i + 1, sector_type: *t })
            .collect(),
    }
}

/// A filter over the small board that holds the given boards.
fn filter_of(boards: Vec<Sectors>) -> ChoiceFilter {
    let mut cf = ChoiceFilter::new(MapType::Standard, "player".to_string());
    cf.all = boards;
    cf.initialized = true;
    cf
}

fn base() -> [SectorType; 12] {
    [Asteroid, Nebula, Space, Nebula, DwarfPlanet, Space, Comet, Asteroid, Asteroid, X, Comet, Asteroid]
}

fn moved(x_at: usize) -> Sectors {
    let mut t = base();
    t[9] = Space;
    t[x_at - 1] = X;
    board(&t)
}

#[test]
fn impurity_is_one_minus_the_squared_shares() {
    assert_eq!(impurity(&vec![], 3), Ratio { num: 0, den: 1 });
    assert_eq!(impurity(&vec![2], 3), Ratio { num: 0, den: 1 });
    assert_eq!(impurity(&vec![1, 1, 1, 1], 3), Ratio { num: 0, den: 16 });
    assert_eq!(impurity(&vec![0, 1], 2), Ratio { num: 2, den: 4 });
    // shares 0.2, 0.3 and 0.5 give 1 - 0.38
    assert_eq!(impurity(&vec![0, 0, 1, 1, 1, 2, 2, 2, 2, 2], 3), Ratio { num: 62, den: 100 });
    assert!((as_f64(impurity(&vec![0, 0, 1, 1, 1, 2, 2, 2, 2, 2], 3)) - 0.62).abs() < EPSILON);
}

#[test]
fn effect_survey_on_one_candidate_is_zero() {
    let cf = filter_of(vec![board(&base())]);
    let survey = SurveyOperatoin { sector_type: Asteroid, start: 1, end: 6 };
    let r = cf.effect_survey(&survey);
    assert_eq!(r.num, 0);
    assert_eq!(as_f64(r), 0.0);
    assert_eq!(as_f64(cf.effect_target(3)), 0.0);
}

#[test]
fn effects_before_the_first_pass_are_zero() {
    let cf = ChoiceFilter::new(MapType::Expert, "player".to_string());
    let survey = SurveyOperatoin { sector_type: Asteroid, start: 1, end: 6 };
    assert_eq!(cf.effect_survey(&survey), Ratio { num: 0, den: 1 });
    assert_eq!(cf.effect_target(3), Ratio { num: 0, den: 1 });
    let clue = Clue { index: ClueEnum::A, subject: Comet, object: Nebula, conn: ClueConnection::NotAdjacent };
    assert_eq!(cf.effect_research(&clue), Ratio { num: 0, den: 1 });
    assert_eq!(cf.len(), 0);
    assert!(!cf.can_locate());
    assert!(cf.all_possibilities().0.is_empty());
    assert!(cf.try_locate().is_none());
}

#[test]
fn effects_on_a_few_candidates() {
    // X at 10, at 3 and at 6: the space sectors of the base layout
    let cf = filter_of(vec![moved(10), moved(3), moved(6), moved(10)]);
    // a survey for space cannot tell the candidates apart
    let space = SurveyOperatoin { sector_type: Space, start: 1, end: 12 };
    assert_eq!(cf.effect_survey(&space).num, 0);
    // a target of sector 10 shows space in all of them
    assert_eq!(cf.effect_target(10), Ratio { num: 0, den: 16 });
    // a target of sector 7 shows a comet in all of them
    assert_eq!(cf.effect_target(7), Ratio { num: 0, den: 16 });
    // "X is next to a comet" holds where X is at 10 or at 6
    let clue = Clue { index: ClueEnum::X1, subject: X, object: Comet, conn: ClueConnection::AllAdjacent };
    assert_eq!(cf.effect_research(&clue), Ratio { num: 3, den: 4 });
    assert!((as_f64(cf.effect_research(&clue)) - 0.75).abs() < EPSILON);
    // a survey for asteroids over 8..=9 gives 2 everywhere
    let asteroids = SurveyOperatoin { sector_type: Asteroid, start: 8, end: 9 };
    assert_eq!(cf.effect_survey(&asteroids), Ratio { num: 0, den: 16 });
}

#[test]
fn survey_effect_of_mixed_answers() {
    let mut other = base();
    other.swap(0, 1); // the asteroid of sector 1 and the nebula of sector 2
    let cf = filter_of(vec![board(&base()), board(&other), board(&other), board(&other)]);
    let survey = SurveyOperatoin { sector_type: Asteroid, start: 1, end: 1 };
    // start == end is the whole ring: four asteroids in every candidate
    assert_eq!(cf.effect_survey(&survey), Ratio { num: 0, den: 16 });
    let survey = SurveyOperatoin { sector_type: Asteroid, start: 12, end: 1 };
    // 2 in the first candidate, 1 in the others: 1 - (1/16 + 9/16)
    assert_eq!(cf.effect_survey(&survey), Ratio { num: 6, den: 16 });
    assert_eq!(cf.effect_target(1), Ratio { num: 6, den: 16 });
}

#[test]
fn shares_of_a_sector_add_up_to_one() {
    let cf = filter_of(vec![moved(10), moved(3), moved(6), moved(10), moved(3), moved(10)]);
    let table = cf.all_possibilities();
    assert_eq!(table.0.len(), 12);
    for (i, row) in table.0.iter().enumerate() {
        assert_eq!(row.index, i + 1);
        let sum: f64 = row.possibilities.iter().map(|p| as_f64(p.rate)).sum();
        assert!((sum - 1.0).abs() < EPSILON);
        let total: u128 = row.possibilities.iter().map(|p| p.rate.num).sum();
        assert_eq!(total, 6);
        for pair in row.possibilities.windows(2) {
            assert!(pair[0].rate.num >= pair[1].rate.num);
        }
    }
    let row10: Vec<_> = table.0[9].possibilities.iter().map(|p| (p.sector_type, p.rate.num)).collect();
    assert_eq!(row10, vec![(X, 3), (Space, 3)]);
    let row3: Vec<_> = table.0[2].possibilities.iter().map(|p| (p.sector_type, p.rate.num)).collect();
    assert_eq!(row3, vec![(Space, 4), (X, 2)]);
    let row1: Vec<_> = table.0[0].possibilities.iter().map(|p| (p.sector_type, p.rate.num)).collect();
    assert_eq!(row1, vec![(Asteroid, 6)]);
}

#[test]
fn locate_needs_agreement_on_x_and_its_sides() {
    assert!(filter_of(vec![moved(10), moved(10)]).can_locate());
    assert!(!filter_of(vec![]).can_locate());
    assert!(!filter_of(vec![moved(10), moved(3)]).can_locate());
    let mut swapped = base();
    swapped.swap(8, 10); // the asteroid before X and the comet after it
    assert!(!filter_of(vec![board(&base()), board(&swapped)]).can_locate());
    let mut elsewhere = base();
    elsewhere.swap(0, 1);
    assert!(filter_of(vec![board(&base()), board(&elsewhere)]).can_locate());
}

#[test]
fn try_locate_picks_the_likeliest_x() {
    let cf = filter_of(vec![moved(10), moved(3), moved(6), moved(10)]);
    let op = cf.try_locate().unwrap();
    assert_eq!(op.index, 10);
    assert_eq!(op.pre_sector_type, Asteroid);
    assert_eq!(op.next_sector_type, Comet);
    // a tie goes to the position that comes first
    let cf = filter_of(vec![moved(6), moved(3), moved(10)]);
    let op = cf.try_locate().unwrap();
    assert_eq!(op.index, 3);
    assert_eq!(op.pre_sector_type, Nebula);
    assert_eq!(op.next_sector_type, Nebula);
    assert!(filter_of(vec![]).try_locate().is_none());
}

fn token(placed: bool, sector_index: usize, meeting_index: usize, shown: bool, t: SectorType) -> Token {
    Token {
        placed,
        secret: SecretToken {
            user_id: "u".to_string(),
            user_index: 1,
            sector_index,
            meeting_index,
            sector_type: if shown { Some(t) } else { None },
        },
        sector_type: t,
    }
}

#[test]
fn tokens_filter_only_when_shown() {
    let s = board(&base());
    // not placed, or nothing shown yet: no filter
    assert!(ChoiceFilter::filter_token(&s, &token(false, 7, 0, true, Nebula)));
    assert!(ChoiceFilter::filter_token(&s, &token(true, 7, 2, false, Nebula)));
    // shown and right
    assert!(ChoiceFilter::filter_token(&s, &token(true, 7, 0, true, Comet)));
    assert!(!ChoiceFilter::filter_token(&s, &token(true, 7, 0, true, Nebula)));
    // a wrong guess strikes out what matches it
    assert!(ChoiceFilter::filter_token(&s, &token(true, 7, 4, true, Nebula)));
    assert!(!ChoiceFilter::filter_token(&s, &token(true, 7, 4, true, Comet)));
}

#[test]
fn update_tokens_strikes_out_or_puts_by() {
    let mut cf = filter_of(vec![moved(10), moved(3), moved(6)]);
    cf.update_tokens(&[token(true, 3, 0, true, Space)]);
    assert_eq!(cf.len(), 2);
    cf.update_tokens(&[token(true, 6, 4, true, Space)]);
    assert_eq!(cf.len(), 1);
    let mut cf = ChoiceFilter::new(MapType::Standard, "player".to_string());
    cf.update_tokens(&[token(true, 7, 0, true, Comet), token(true, 10, 4, true, Comet)]);
    assert!(!cf.initialized);
    cf.add_operation(
        Operation::Survey(SurveyOperatoin { sector_type: Comet, start: 2, end: 3 }),
        OperationResult::Survey(0),
    );
    assert!(cf.initialized);
    assert!(cf.len() > 0);
    assert!(cf.all.iter().all(|c| c.data[6].sector_type == Comet
        && c.data[9].sector_type != Comet
        && c.data[1].sector_type != Comet
        && c.data[2].sector_type != Comet));
}

#[test]
fn what_never_filters() {
    let s = board(&base());
    let locate = Operation::Locate(LocateOperation { index: 3, pre_sector_type: Comet, next_sector_type: Comet });
    assert!(ChoiceFilter::filter_op(&s, &locate, &OperationResult::Locate(false)));
    assert!(!ChoiceFilter::filter_op(&s, &locate, &OperationResult::Locate(true)));
    let locate = Operation::Locate(LocateOperation { index: 10, pre_sector_type: Asteroid, next_sector_type: Comet });
    assert!(ChoiceFilter::filter_op(&s, &locate, &OperationResult::Locate(true)));
    let ready = Operation::ReadyPublish(ReadyPublishOperation { sectors: vec![Comet] });
    assert!(ChoiceFilter::filter_op(&s, &ready, &OperationResult::ReadyPublish(1)));
    let publish = Operation::DoPublish(DoPublishOperation { index: 1, sector_type: Nebula });
    assert!(ChoiceFilter::filter_op(&s, &publish, &OperationResult::DoPublish((1, Nebula))));
    // an answer of another kind than the operation tells nothing
    let target = Operation::Target(TargetOperation { index: 1 });
    assert!(ChoiceFilter::filter_op(&s, &target, &OperationResult::Survey(9)));
    let survey = Operation::Survey(SurveyOperatoin { sector_type: DwarfPlanet, start: 1, end: 6 });
    assert!(ChoiceFilter::filter_op(&s, &survey, &OperationResult::Survey(1)));
    assert!(!ChoiceFilter::filter_op(&s, &survey, &OperationResult::Survey(0)));
}

#[test]
fn the_large_board_waits_for_three_operations() {
    let mut cf = ChoiceFilter::new(MapType::Expert, "bot-1".to_string());
    assert!(cf.is_bot());
    let op = || Operation::Survey(SurveyOperatoin { sector_type: DwarfPlanet, start: 1, end: 9 });
    cf.add_operation(op(), OperationResult::Survey(4));
    assert!(!cf.initialized);
    cf.add_operation(op(), OperationResult::Survey(4));
    assert!(!cf.initialized);
    cf.add_operation(op(), OperationResult::Survey(4));
    assert!(cf.initialized);
    let kept = cf.len();
    assert!(kept > 100000 && kept <= 500000);
    // a human player keeps no more than a hundred thousand
    let mut cf = ChoiceFilter::new(MapType::Expert, "anna".to_string());
    assert!(!cf.is_bot());
    cf.add_operation(op(), OperationResult::Survey(4));
    cf.add_operation(op(), OperationResult::Survey(4));
    cf.add_operation(op(), OperationResult::Survey(4));
    assert!(!cf.initialized);
    assert_eq!(cf.len(), 0);
    cf.add_operation(
        Operation::Survey(SurveyOperatoin { sector_type: Comet, start: 2, end: 7 }),
        OperationResult::Survey(2),
    );
    assert!(cf.initialized);
    assert!(cf.len() <= 100000);
    assert!(cf.len() < kept);
}

use xplanet::map::clue::{type_step, x_set_step};
use xplanet::map::generator::{assemble_layout, round_step, MAX_ROUNDS, RAND_TRY_TIMES};
use xplanet::map::SectorType::{Asteroid, Comet, DwarfPlanet, Nebula, Space, X};
use xplanet::map::{
    ChoiceFilter, Clue, ClueConnection, ClueEnum, ClueError, ClueGenerator, ClueStep, MapError,
    MapType, Sector, SectorType, Sectors, XSetStep,
};
use xplanet::operation::{Operation, OperationResult, SurveyOperatoin};

const TYPES: [SectorType; 12] = [
    Asteroid, Nebula, Space, Nebula, DwarfPlanet, Space, Comet, Asteroid, Asteroid, X, Comet,
    Asteroid,
];

fn sectors_of(types: &[SectorType]) -> Vec<Sector> {
    types.iter().enumerate().map(|(i, t)| Sector { index: i + 1, sector_type: *t }).collect()
}

fn generator() -> ClueGenerator {
    ClueGenerator::new(7, Sectors { data: sectors_of(&TYPES) }, MapType::Standard)
}

#[test]
fn a_filter_without_candidates_locates_nothing() {
    let mut cf = ChoiceFilter::new(MapType::Standard, "player".to_string());
    assert!(!cf.can_locate());
    cf.add_operation(
        Operation::Survey(SurveyOperatoin { sector_type: Asteroid, start: 1, end: 6 }),
        OperationResult::Survey(6),
    );
    assert!(cf.initialized);
    assert_eq!(cf.len(), 0);
    assert!(!cf.can_locate());
    assert!(cf.try_locate().is_none());
    assert!(cf.all_possibilities().0.is_empty());
}

#[test]
fn a_roll_gives_a_type_or_none() {
    assert_eq!(type_step(0, false, false), Some(Comet));
    assert_eq!(type_step(1, false, false), Some(Asteroid));
    assert_eq!(type_step(2, true, true), Some(DwarfPlanet));
    assert_eq!(type_step(3, false, true), Some(Nebula));
    assert_eq!(type_step(4, true, false), None);
    assert_eq!(type_step(4, false, true), Some(X));
    assert_eq!(type_step(5, false, true), None);
    assert_eq!(type_step(5, true, false), Some(Space));
}

#[test]
fn a_drawn_clue_is_kept_dropped_or_given_up() {
    let g = generator();
    let apart = ClueConnection::NotAdjacent;
    let a = Clue { index: ClueEnum::A, subject: Comet, object: Nebula, conn: apart };
    assert!(g.check_clue(&[], &Comet, &Nebula, &apart));
    assert_eq!(g.clue_step(&[], false, 0, Some(Comet), Some(Nebula), apart), ClueStep::Keep(a));
    assert_eq!(
        g.clue_step(&[], false, 999_999, Some(Comet), Some(Nebula), apart),
        ClueStep::Keep(a)
    );
    assert_eq!(
        g.clue_step(&[], false, 1_000_000, Some(Comet), Some(Nebula), apart),
        ClueStep::GiveUp(ClueError::OutOfDraws)
    );
    assert_eq!(
        g.clue_step(&[], false, 0, None, Some(Nebula), apart),
        ClueStep::GiveUp(ClueError::OutOfDraws)
    );
    assert_eq!(
        g.clue_step(&[], false, 0, Some(Comet), None, apart),
        ClueStep::GiveUp(ClueError::OutOfDraws)
    );
    assert_eq!(g.clue_step(&[], false, 0, Some(Space), Some(Nebula), apart), ClueStep::Again);
    let beside = ClueConnection::AllAdjacent;
    assert!(!g.check_clue(&[], &Comet, &Nebula, &beside));
    assert_eq!(g.clue_step(&[], false, 0, Some(Comet), Some(Nebula), beside), ClueStep::Again);
    assert!(!g.check_clue(&[a], &Comet, &Nebula, &apart));
    assert_eq!(g.clue_step(&[a], false, 0, Some(Comet), Some(Nebula), apart), ClueStep::Again);
    let mut kept = 0;
    for subject in [Comet, Asteroid, DwarfPlanet, Nebula] {
        for object in [Comet, Asteroid, DwarfPlanet, Nebula, Space] {
            for conn in [beside, apart, ClueConnection::OneOpposite, ClueConnection::NotOpposite] {
                let step = g.clue_step(&[a], false, 0, Some(subject), Some(object), conn);
                if g.check_clue(&[a], &subject, &object, &conn) {
                    kept += 1;
                    assert_eq!(step, ClueStep::Keep(Clue { index: ClueEnum::B, subject, object, conn }));
                } else {
                    assert_eq!(step, ClueStep::Again);
                }
            }
        }
    }
    assert!(kept > 0 && kept < 80);
    let near = ClueConnection::OneAdjacent;
    assert!(g.check_clue(&[], &X, &Comet, &near));
    assert_eq!(
        g.clue_step(&[], true, 0, Some(X), Some(Comet), near),
        ClueStep::Keep(Clue { index: ClueEnum::X1, subject: X, object: Comet, conn: near })
    );
    let x1 = Clue { index: ClueEnum::X1, subject: X, object: Comet, conn: near };
    let far = ClueConnection::NotAdjacent;
    assert!(g.check_clue(&[x1], &X, &Nebula, &far));
    assert_eq!(
        g.clue_step(&[x1], true, 3, Some(X), Some(Nebula), far),
        ClueStep::Keep(Clue { index: ClueEnum::X2, subject: X, object: Nebula, conn: far })
    );
}

#[test]
fn a_set_of_x_clues_is_kept_drawn_again_or_given_up() {
    assert_eq!(x_set_step(1, &vec![]), XSetStep::Keep);
    assert_eq!(x_set_step(1, &vec![3]), XSetStep::Again);
    assert_eq!(x_set_step(100, &vec![3, 6]), XSetStep::Again);
    assert_eq!(x_set_step(100, &vec![]), XSetStep::Keep);
    assert_eq!(x_set_step(101, &vec![]), XSetStep::GiveUp);
    assert_eq!(x_set_step(101, &vec![6]), XSetStep::GiveUp);
}

#[test]
fn a_round_lays_the_next_stage_or_gives_up() {
    let s = MapType::Standard;
    assert_eq!(round_step(&s, 0, 0), Ok((Comet, 2, RAND_TRY_TIMES)));
    assert_eq!(round_step(&s, 5, 1), Ok((Asteroid, 2, 10)));
    assert_eq!(round_step(&s, 5, 2), Ok((DwarfPlanet, 1, 10)));
    assert_eq!(round_step(&s, 5, 3), Ok((Nebula, 2, 10)));
    assert_eq!(round_step(&s, MAX_ROUNDS - 1, 4), Ok((X, 1, 1)));
    assert_eq!(round_step(&s, 7, 5), Ok((Space, 2, 10)));
    assert_eq!(round_step(&MapType::Expert, 7, 5), Ok((Space, 5, 10)));
    assert_eq!(round_step(&s, MAX_ROUNDS, 0), Err(MapError::OutOfTries));
    assert_eq!(round_step(&MapType::Expert, 100_000, 5), Err(MapError::OutOfTries));
}

#[test]
fn stages_make_a_layout_or_none() {
    let all = sectors_of(&TYPES);
    let pick = |t: SectorType| all.iter().filter(|s| s.sector_type == t).copied().collect();
    let stages: Vec<Vec<Sector>> =
        vec![pick(Comet), pick(Asteroid), pick(DwarfPlanet), pick(Nebula), pick(X), pick(Space)];
    let data = assemble_layout(&stages, &MapType::Standard).unwrap();
    let laid: Vec<(usize, SectorType)> = data.iter().map(|s| (s.index, s.sector_type)).collect();
    let wanted: Vec<(usize, SectorType)> =
        TYPES.iter().enumerate().map(|(i, t)| (i + 1, *t)).collect();
    assert_eq!(laid, wanted);

    let broken = |stages: &Vec<Vec<Sector>>, board: MapType| {
        assert_eq!(assemble_layout(stages, &board).unwrap_err(), MapError::BrokenRules);
    };
    broken(&stages, MapType::Expert);
    let mut missing = stages.clone();
    missing[5].pop();
    broken(&missing, MapType::Standard);
    let mut twice = stages.clone();
    twice[4][0].index = 3;
    broken(&twice, MapType::Standard);
    let mut outside = stages.clone();
    outside[4][0].index = 13;
    broken(&outside, MapType::Standard);
    outside[4][0].index = 0;
    broken(&outside, MapType::Standard);
    let mut against_the_rules = stages.clone();
    against_the_rules[0][0].index = 3;
    against_the_rules[5][0].index = 7;
    broken(&against_the_rules, MapType::Standard);
    broken(&Vec::new(), MapType::Standard);
}

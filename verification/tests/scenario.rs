use rand::rngs::SmallRng;
use rand::SeedableRng;
use xplanet::map::SectorType::{Asteroid, Comet, DwarfPlanet, Nebula, Space, X};
use xplanet::map::{
    ChoiceFilter, Clue, ClueConnection, ClueEnum, ClueGenerator, GameMap, MapType, Sector,
    SectorType, Sectors,
};
use xplanet::operation::{
    Operation, OperationResult, ResearchOperation, SurveyOperatoin,
};

fn survey(cf: &mut ChoiceFilter, map: &GameMap, t: SectorType, start: usize, end: usize) {
    let cnt = map.survey_sector(start, end, &t);
    cf.add_operation(
        Operation::Survey(SurveyOperatoin { sector_type: t, start, end }),
        OperationResult::Survey(cnt),
    );
}

fn research(cf: &mut ChoiceFilter, clue: &Clue) {
    cf.add_operation(
        Operation::Research(ResearchOperation { index: clue.index }),
        OperationResult::Research(*clue),
    );
}

fn holds_truth(cf: &ChoiceFilter, map: &GameMap) -> bool {
    let truth: Vec<_> = map.sectors.data.iter().map(|s| s.sector_type).collect();
    cf.all.iter().any(|c| c.data.iter().map(|s| s.sector_type).collect::<Vec<_>>() == truth)
}

fn game(seed: u64) -> (GameMap, Vec<Clue>, Vec<Clue>) {
    let map = GameMap::new(SmallRng::seed_from_u64(seed), MapType::Standard).unwrap();
    let mut cg = ClueGenerator::new(seed, map.sectors.clone(), MapType::Standard);
    let (clues, xclues) = cg.generate_clues().unwrap();
    (map, clues, xclues)
}

#[test]
fn two_surveys_and_two_researches_on_the_small_board() {
    let (map, clues, _xclues) = game(12);
    let mut cf = ChoiceFilter::new(MapType::Standard, "player".to_string());
    assert!(!cf.initialized);
    assert_eq!(cf.len(), 0);
    survey(&mut cf, &map, SectorType::Asteroid, 1, 6);
    assert!(cf.initialized);
    let after_one = cf.len();
    assert!(holds_truth(&cf, &map));
    survey(&mut cf, &map, SectorType::Comet, 2, 7);
    assert!(holds_truth(&cf, &map));
    research(&mut cf, &clues[0]);
    assert_eq!(clues[0].index, ClueEnum::A);
    assert!(holds_truth(&cf, &map));
    research(&mut cf, &clues[1]);
    assert!(holds_truth(&cf, &map));
    let after_four = cf.len();
    assert_eq!(after_one, 964);
    assert_eq!(after_four, 200);
    assert!(after_four < 4446);
    assert!(after_four <= after_one);
    survey(&mut cf, &map, SectorType::Nebula, 5, 10);
    assert!(cf.len() <= after_four);
    assert!(holds_truth(&cf, &map));
}

#[test]
fn the_same_moves_on_a_map_written_out() {
    let types = [
        Asteroid, Nebula, Space, Nebula, DwarfPlanet, Space, Comet, Asteroid, Asteroid, X, Comet,
        Asteroid,
    ];
    let map = GameMap {
        map_type: MapType::Standard,
        sectors: Sectors {
            data: types
                .iter()
                .enumerate()
                .map(|(i, t)| Sector { index: i + 1, sector_type: *t })
                .collect(),
        },
    };
    let a = Clue {
        index: ClueEnum::A,
        subject: Comet,
        object: Nebula,
        conn: ClueConnection::NotAdjacent,
    };
    let b = Clue {
        index: ClueEnum::B,
        subject: Comet,
        object: Asteroid,
        conn: ClueConnection::AllAdjacent,
    };
    let mut cf = ChoiceFilter::new(MapType::Standard, "player".to_string());
    survey(&mut cf, &map, Asteroid, 1, 6);
    assert_eq!(cf.len(), 964);
    survey(&mut cf, &map, Comet, 2, 7);
    assert_eq!(cf.len(), 420);
    research(&mut cf, &a);
    assert_eq!(cf.len(), 190);
    research(&mut cf, &b);
    assert_eq!(cf.len(), 86);
    assert!(holds_truth(&cf, &map));
}

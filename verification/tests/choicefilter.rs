use xplanet::map::{
    ChoiceFilter, Clue, ClueConnection, ClueEnum, MapType, Ratio, SecretToken, Sector, SectorType,
    Sectors, Token,
};
use xplanet::operation::{
    Operation, OperationResult, ResearchOperation, SurveyOperatoin, TargetOperation,
};
use xplanet::map::SectorType::{Asteroid, Comet, DwarfPlanet, Nebula, Space, X};

fn survey(cf: &mut ChoiceFilter, t: SectorType, start: usize, end: usize, cnt: usize) {
    cf.add_operation(
        Operation::Survey(SurveyOperatoin { sector_type: t, start, end }),
        OperationResult::Survey(cnt),
    );
}

fn research(cf: &mut ChoiceFilter, i: ClueEnum, conn: ClueConnection, s: SectorType, o: SectorType) {
    cf.add_operation(
        Operation::Research(ResearchOperation { index: i }),
        OperationResult::Research(Clue { index: i, conn, subject: s, object: o }),
    );
}

fn as_f64(r: Ratio) -> f64 {
    r.num as f64 / r.den as f64
}

#[test]
fn test_filter2() {
    let mut cf = ChoiceFilter::new(MapType::Expert, "test".to_string());

    survey(&mut cf, SectorType::DwarfPlanet, 1, 9, 3);
    survey(&mut cf, SectorType::Comet, 3, 11, 1);
    survey(&mut cf, SectorType::DwarfPlanet, 5, 13, 4);
    survey(&mut cf, SectorType::Comet, 7, 13, 1);
    let r = cf.effect_survey(&SurveyOperatoin {
        sector_type: SectorType::Asteroid,
        start: 9,
        end: 17,
    });
    println!("effect: {}", as_f64(r));
    survey(&mut cf, SectorType::Asteroid, 9, 17, 1);
    survey(&mut cf, SectorType::Asteroid, 12, 2, 2);
    survey(&mut cf, SectorType::Nebula, 16, 4, 2);
    survey(&mut cf, SectorType::Comet, 17, 7, 1);
    survey(&mut cf, SectorType::Nebula, 1, 9, 1);
    survey(&mut cf, SectorType::Comet, 3, 11, 1);
    survey(&mut cf, SectorType::DwarfPlanet, 5, 11, 3);

    cf.add_operation(
        Operation::Target(TargetOperation { index: 11 }),
        OperationResult::Target(SectorType::Comet),
    );

    cf.add_operation(
        Operation::Target(TargetOperation { index: 3 }),
        OperationResult::Target(SectorType::Space),
    );

    research(
        &mut cf,
        ClueEnum::X1,
        ClueConnection::AllAdjacent,
        SectorType::X,
        SectorType::Comet,
    );

    cf.update_tokens(&[
        Token {
            placed: true,
            secret: SecretToken {
                user_id: "xxx".to_owned(),
                user_index: 1,
                sector_index: 17,
                meeting_index: 3,
                sector_type: Some(SectorType::Asteroid),
            },
            sector_type: SectorType::Asteroid,
        },
        Token {
            placed: true,
            secret: SecretToken {
                user_id: "xxx".to_owned(),
                user_index: 1,
                sector_index: 11,
                meeting_index: 4,
                sector_type: Some(SectorType::DwarfPlanet),
            },
            sector_type: SectorType::DwarfPlanet,
        },
    ]);

    println!("{:?}", cf.len());
    println!("can locate: {}", cf.can_locate());
    let all_possibilities = cf.all_possibilities();
    for s in all_possibilities.0.iter() {
        println!(
            "{:?}",
            s.possibilities
                .iter()
                .map(|p| format!("{} {:.3}", p.sector_type.to_string(), as_f64(p.rate)))
                .collect::<Vec<_>>()
        );
    }
    println!("try locate: {:?}", cf.try_locate());

    println!("res len: {}", cf.all.len());
    assert!(cf.initialized);
    assert!(cf.len() > 0);
}

fn board(types: &[SectorType]) -> Sectors {
    Sectors {
        data: types
            .iter()
            .enumerate()
            .map(|(i, t)| Sector { index: i + 1, sector_type: *t })
            .collect(),
    }
}

#[test]
fn target_space_accepts_x_and_rejects_comet() {
    let with_x = board(&[Comet, X, Space, Nebula]);
    let with_comet = board(&[Space, Comet, Space, Nebula]);
    let with_space = board(&[Comet, Space, X, Nebula]);
    let op = Operation::Target(TargetOperation { index: 2 });
    let seen_space = OperationResult::Target(Space);
    assert!(ChoiceFilter::filter_op(&with_x, &op, &seen_space));
    assert!(ChoiceFilter::filter_op(&with_space, &op, &seen_space));
    assert!(!ChoiceFilter::filter_op(&with_comet, &op, &seen_space));
    // only this way round: a target that showed a comet does not accept X
    let seen_comet = OperationResult::Target(Comet);
    assert!(ChoiceFilter::filter_op(&with_comet, &op, &seen_comet));
    assert!(!ChoiceFilter::filter_op(&with_x, &op, &seen_comet));
    // and no answer is ever X
    assert!(!ChoiceFilter::filter_op(&with_x, &op, &OperationResult::Target(Nebula)));
}

use xplanet::map::{
    check_clue_with_sectors, check_x_space_only, Clue, ClueConnection, ClueEnum, ClueGenerator,
    MapType, Sector, SectorType, Sectors,
};
use xplanet::map::SectorType::{Asteroid, Comet, DwarfPlanet, Nebula, Space, X};
use xplanet::map::ClueConnection::{
    AllAdjacent, AllInRange, NotAdjacent, NotInRange, NotOpposite, OneAdjacent, OneOpposite,
};

#[test]
fn test_check_x_space_only() {
    let s = Sectors {
        data: vec![
            Sector { index: 1, sector_type: SectorType::Asteroid },
            Sector { index: 2, sector_type: SectorType::X },
            Sector { index: 3, sector_type: SectorType::Space },
            Sector { index: 4, sector_type: SectorType::Nebula },
            Sector { index: 5, sector_type: SectorType::DwarfPlanet },
        ],
    };
    assert_eq!(
        check_x_space_only(
            &[],
            &[Clue {
                index: ClueEnum::X1,
                subject: SectorType::X,
                object: SectorType::DwarfPlanet,
                conn: ClueConnection::NotAdjacent
            }],
            &s
        ),
        Vec::<usize>::new()
    );
    let s = Sectors {
        data: vec![
            Sector { index: 1, sector_type: SectorType::Asteroid },
            Sector { index: 2, sector_type: SectorType::X },
            Sector { index: 3, sector_type: SectorType::Space },
            Sector { index: 4, sector_type: SectorType::Nebula },
            Sector { index: 5, sector_type: SectorType::Space },
            Sector { index: 6, sector_type: SectorType::DwarfPlanet },
        ],
    };
    assert_eq!(
        check_x_space_only(
            &[],
            &[Clue {
                index: ClueEnum::X1,
                subject: SectorType::X,
                object: SectorType::DwarfPlanet,
                conn: ClueConnection::NotAdjacent
            }],
            &s
        ),
        vec![3]
    );
    let s = Sectors {
        data: vec![
            Sector { index: 1, sector_type: SectorType::Asteroid },
            Sector { index: 2, sector_type: SectorType::X },
            Sector { index: 3, sector_type: SectorType::Nebula },
            Sector { index: 4, sector_type: SectorType::Space },
            Sector { index: 5, sector_type: SectorType::Space },
            Sector { index: 6, sector_type: SectorType::DwarfPlanet },
        ],
    };
    assert_eq!(
        check_x_space_only(
            &[],
            &[Clue {
                index: ClueEnum::X1,
                subject: SectorType::X,
                object: SectorType::DwarfPlanet,
                conn: ClueConnection::NotAdjacent
            }],
            &s
        ),
        vec![4]
    );
    let s = Sectors {
        data: vec![
            Sector { index: 1, sector_type: SectorType::Space },
            Sector { index: 2, sector_type: SectorType::X },
            Sector { index: 3, sector_type: SectorType::Nebula },
            Sector { index: 4, sector_type: SectorType::Space },
            Sector { index: 5, sector_type: SectorType::Asteroid },
            Sector { index: 6, sector_type: SectorType::Asteroid },
        ],
    };
    assert_eq!(
        check_x_space_only(
            &[Clue {
                index: ClueEnum::A,
                subject: SectorType::Asteroid,
                object: SectorType::Space,
                conn: ClueConnection::AllAdjacent
            }],
            &[Clue {
                index: ClueEnum::X1,
                subject: SectorType::X,
                object: SectorType::DwarfPlanet,
                conn: ClueConnection::NotAdjacent
            }],
            &s
        ),
        Vec::<usize>::new()
    );
}

fn board(types: &[SectorType]) -> Sectors {
    Sectors {
        data: types
            .iter()
            .enumerate()
            .map(|(i, t)| Sector { index: i + 1, sector_type: *t })
            .collect(),
    }
}

fn clue(subject: SectorType, object: SectorType, conn: ClueConnection) -> Clue {
    Clue { index: ClueEnum::A, subject, object, conn }
}

#[test]
fn relations_on_a_small_ring() {
    let s = board(&[Comet, Asteroid, Asteroid, Nebula, Space, X, Space, Comet]);
    assert!(check_clue_with_sectors(&clue(Asteroid, Asteroid, AllAdjacent), &s));
    assert!(!check_clue_with_sectors(&clue(Comet, Asteroid, AllAdjacent), &s));
    assert!(check_clue_with_sectors(&clue(Comet, Asteroid, OneAdjacent), &s));
    assert!(!check_clue_with_sectors(&clue(Comet, Nebula, OneAdjacent), &s));
    assert!(check_clue_with_sectors(&clue(Comet, Nebula, NotAdjacent), &s));
    assert!(!check_clue_with_sectors(&clue(Nebula, Space, NotAdjacent), &s));
    assert!(check_clue_with_sectors(&clue(Comet, Space, OneOpposite), &s));
    assert!(!check_clue_with_sectors(&clue(Comet, X, OneOpposite), &s));
    assert!(check_clue_with_sectors(&clue(Asteroid, X, OneOpposite), &s));
    assert!(check_clue_with_sectors(&clue(Comet, X, NotOpposite), &s));
    assert!(!check_clue_with_sectors(&clue(Asteroid, X, NotOpposite), &s));
    assert!(check_clue_with_sectors(&clue(Comet, Comet, AllInRange(2)), &s));
    assert!(!check_clue_with_sectors(&clue(Space, Space, AllInRange(2)), &s));
    assert!(check_clue_with_sectors(&clue(Space, Space, AllInRange(3)), &s));
    assert!(check_clue_with_sectors(&clue(Comet, Asteroid, AllInRange(2)), &s));
    assert!(!check_clue_with_sectors(&clue(Comet, Nebula, AllInRange(3)), &s));
    assert!(check_clue_with_sectors(&clue(Comet, Nebula, NotInRange(2)), &s));
    assert!(!check_clue_with_sectors(&clue(Comet, Nebula, NotInRange(4)), &s));
    assert!(check_clue_with_sectors(&clue(DwarfPlanet, Nebula, AllAdjacent), &s));
    assert!(!check_clue_with_sectors(&clue(DwarfPlanet, Nebula, OneAdjacent), &s));
}

#[test]
fn secret_names_subject_and_object() {
    assert_eq!(clue(Comet, Asteroid, AllAdjacent).as_secret(), "彗星 小行星");
    assert_eq!(clue(Comet, Comet, AllInRange(3)).as_secret(), "彗星");
    assert_eq!(clue(Nebula, Space, NotOpposite).as_secret(), "气体云");
    assert_eq!(clue(X, DwarfPlanet, NotInRange(2)).as_secret(), "X 矮行星");
}

#[test]
fn check_clue_turns_down_what_may_not_join() {
    let s = board(&[
        Comet, Asteroid, Asteroid, Nebula, Space, X, Space, Comet, DwarfPlanet, Nebula, Asteroid,
        Asteroid,
    ]);
    let g = ClueGenerator::new(1, s, MapType::Standard);
    let chosen = vec![
        Clue { index: ClueEnum::A, subject: Asteroid, object: Comet, conn: OneAdjacent },
        Clue { index: ClueEnum::B, subject: Nebula, object: Comet, conn: NotAdjacent },
    ];
    assert!(g.check_clue(&[], &Asteroid, &Comet, &OneAdjacent));
    // true, but it repeats a signature
    assert!(!g.check_clue(&chosen, &Asteroid, &Comet, &NotOpposite));
    // true, but it turns the first clue round with the same kind of relation
    assert!(g.check_clue(&[], &Comet, &Asteroid, &OneAdjacent));
    assert!(!g.check_clue(&chosen, &Comet, &Asteroid, &OneAdjacent));
    // turned round with another relation it may join
    assert!(g.check_clue(&chosen, &Comet, &Asteroid, &AllInRange(3)));
    assert!(!g.check_clue(&chosen, &Comet, &Asteroid, &AllInRange(2)));
    // comet is already the object of two clues
    assert!(g.check_clue(&[], &DwarfPlanet, &Comet, &OneAdjacent));
    assert!(!g.check_clue(&chosen, &DwarfPlanet, &Comet, &OneAdjacent));
    // on the deny list although true
    assert!(!g.check_clue(&[], &Asteroid, &Asteroid, &AllAdjacent));
    assert!(!g.check_clue(&[], &Nebula, &Space, &AllAdjacent));
    assert!(!g.check_clue(&[], &X, &DwarfPlanet, &NotAdjacent));
    assert!(!g.check_clue(&[], &DwarfPlanet, &DwarfPlanet, &AllInRange(4)));
    // not true of the layout
    assert!(!g.check_clue(&[], &Comet, &Nebula, &AllAdjacent));
    assert!(g.check_clue(&[], &Comet, &Comet, &AllInRange(6)));
    assert!(!g.check_clue(&[], &Comet, &Comet, &AllInRange(5)));
}

#[test]
fn clues_written_out() {
    assert_eq!(clue(Asteroid, DwarfPlanet, NotAdjacent).to_string(), "没有 小行星 和 矮行星 相邻");
    assert_eq!(clue(Comet, Nebula, AllAdjacent).to_string(), "所有 彗星 和 气体云 相邻");
    assert_eq!(clue(Comet, Nebula, OneAdjacent).to_string(), "至少一个 彗星 和 气体云 相邻");
    assert_eq!(clue(Comet, Nebula, OneOpposite).to_string(), "至少一个 彗星 和 气体云 正对");
    assert_eq!(clue(Comet, Nebula, NotOpposite).to_string(), "没有 彗星 和 气体云 正对");
    assert_eq!(clue(Comet, Nebula, AllInRange(3)).to_string(), "所有 彗星 在 气体云 的 3 格范围内");
    assert_eq!(clue(Comet, Comet, AllInRange(12)).to_string(), "所有 彗星 都在一个长度为 12 的区间内");
    assert_eq!(clue(Comet, Nebula, NotInRange(2)).to_string(), "没有 彗星 在 气体云 的 2 格内");
    assert_eq!(clue(X, Comet, AllAdjacent).to_string(), "X 和 彗星 相邻");
    assert_eq!(clue(X, Comet, OneAdjacent).to_string(), "X 和 彗星 相邻");
    assert_eq!(clue(X, Comet, NotAdjacent).to_string(), "X 不和 彗星 相邻");
    assert_eq!(clue(X, Comet, OneOpposite).to_string(), "X 和 彗星 正对");
    assert_eq!(clue(X, Comet, NotOpposite).to_string(), "X 不和 彗星 正对");
    assert_eq!(clue(X, Comet, AllInRange(4)).to_string(), "X 在 彗星 的 4 格范围内");
    assert_eq!(clue(X, Space, NotInRange(305)).to_string(), "X 不在 空域 的 305 格内");
    assert_eq!(
        Sector { index: 17, sector_type: Space }.to_string(),
        "Sector 17 - 空域"
    );
    assert_eq!(Sector { index: 0, sector_type: X }.to_string(), "Sector 0 - X");
}

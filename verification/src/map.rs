pub mod choicefilter;
pub mod clue;
pub mod completeness;
pub mod enumerator;
pub mod generator;
pub mod laws;
pub mod lists;
pub mod model;
pub mod origin;
pub mod ratio;
pub mod soundness;
pub mod text;
pub mod uniqueness;
pub mod validity;

pub use choicefilter::{
    AllSectorPossibilities, ChoiceFilter, SectorPossibilities, SectorPossibility,
};
pub use clue::{
    check_clue_with_sectors, check_x_space_only, Clue, ClueConnection, ClueDetail, ClueEnum,
    ClueError, ClueGenerator, ClueSecret, ClueStep, XSetStep,
};
pub use enumerator::{MapEnumerator, SectorsIter};
pub use generator::{MapError, MapGenerator};
pub use model::{
    in_range, validate_index_in_range, GameMap, MapType, SecretToken, Sector, SectorType, Sectors,
    Token,
};
pub use ratio::{impurity, Ratio};
pub use validity::{check_sectors_rules, count_type};

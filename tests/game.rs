use tmbingo::game::{is_claim_accepted, medal_is_sufficient, new_bingos, ActiveGameData, BingoLine, Direction, MapCell, MapClaim};
use tmbingo::room::{Medal, NetworkPlayer};

fn claim(team: usize, time: u64, medal: Medal) -> MapClaim {
    MapClaim { player: NetworkPlayer { name: format!("p{}", team), team: Some(team) }, time, medal }
}

fn grid_with(n: usize, claims: &[(usize, usize)]) -> ActiveGameData {
    let mut g = ActiveGameData::new(n * n, 0);
    for &(cell, team) in claims {
        g.cells[cell] = MapCell { claim: Some(claim(team, 1000, Medal::Gold)) };
    }
    g
}

fn lines(g: &ActiveGameData, n: usize) -> Vec<(u32, u32, usize)> {
    g.check_for_bingos(n).iter().map(|b| (b.direction.code(), b.index, b.team)).collect()
}

#[test]
fn new_game_has_empty_cells() {
    let g = ActiveGameData::new(9, 1234);
    assert_eq!(g.cells.len(), 9);
    assert!(g.cells.iter().all(|c| c.claim.is_none()));
    assert_eq!(g.start_time, 1234);
    assert_eq!(ActiveGameData::new(0, 0).cells.len(), 0);
}

#[test]
fn medal_requirement() {
    assert!(medal_is_sufficient(Medal::Silver, Medal::Silver));
    assert!(medal_is_sufficient(Medal::Author, Medal::Silver));
    assert!(!medal_is_sufficient(Medal::Bronze, Medal::Silver));
    assert!(!medal_is_sufficient(Medal::NoMedal, Medal::NoMedal));
    assert!(medal_is_sufficient(Medal::Bronze, Medal::NoMedal));
}

#[test]
fn claim_arbitration_rule() {
    let current = Some(claim(0, 60000, Medal::Silver));
    assert!(is_claim_accepted(Medal::Silver, Medal::Silver, 59000, &current));
    assert!(!is_claim_accepted(Medal::Silver, Medal::Silver, 60000, &current));
    assert!(!is_claim_accepted(Medal::Silver, Medal::Bronze, 1, &current));
    assert!(is_claim_accepted(Medal::Silver, Medal::Gold, 70000, &current));
    assert!(is_claim_accepted(Medal::Bronze, Medal::Bronze, 99999, &None));
    assert!(!is_claim_accepted(Medal::Bronze, Medal::NoMedal, 1, &None));
}

#[test]
fn claim_overwrites_only_when_accepted() {
    let mut g = ActiveGameData::new(4, 0);
    assert!(g.claim(2, claim(0, 500, Medal::Gold), Medal::Silver));
    assert!(!g.claim(2, claim(1, 600, Medal::Gold), Medal::Silver));
    assert_eq!(g.cells[2].claim.as_ref().unwrap().player.team, Some(0));
    assert!(g.claim(2, claim(1, 400, Medal::Gold), Medal::Silver));
    assert_eq!(g.cells[2].claim.as_ref().unwrap().time, 400);
    assert!(!g.claim(3, claim(1, 1, Medal::Bronze), Medal::Silver));
    assert!(g.cells[3].claim.is_none());
}

#[test]
fn bingo_rows_columns_diagonals() {
    assert_eq!(lines(&grid_with(3, &[(0, 0), (1, 0), (2, 0)]), 3), vec![(1, 0, 0)]);
    assert_eq!(lines(&grid_with(3, &[(1, 1), (4, 1), (7, 1)]), 3), vec![(2, 1, 1)]);
    assert_eq!(lines(&grid_with(3, &[(0, 2), (4, 2), (8, 2)]), 3), vec![(3, 0, 2)]);
    assert_eq!(lines(&grid_with(3, &[(2, 0), (4, 0), (6, 0)]), 3), vec![(3, 1, 0)]);
    assert!(lines(&grid_with(3, &[(0, 0), (1, 1), (2, 0)]), 3).is_empty());
    assert!(lines(&grid_with(3, &[(0, 0), (1, 0)]), 3).is_empty());
}

#[test]
fn bingo_order_is_rows_then_columns_then_diagonals() {
    let all: Vec<(usize, usize)> = (0..9).map(|c| (c, 1)).collect();
    let got = lines(&grid_with(3, &all), 3);
    assert_eq!(
        got,
        vec![(1, 0, 1), (1, 1, 1), (1, 2, 1), (2, 0, 1), (2, 1, 1), (2, 2, 1), (3, 0, 1), (3, 1, 1)]
    );
}

#[test]
fn bingo_needs_a_team_on_every_cell() {
    let mut g = grid_with(2, &[(0, 0)]);
    g.cells[1] = MapCell { claim: Some(MapClaim { player: NetworkPlayer { name: "x".into(), team: None }, time: 1, medal: Medal::Gold }) };
    assert!(lines(&g, 2).is_empty());
    let one = grid_with(1, &[(0, 3)]);
    assert_eq!(lines(&one, 1), vec![(1, 0, 3), (2, 0, 3), (3, 0, 3), (3, 1, 3)]);
}

#[test]
fn only_fresh_lines_are_new() {
    let a = BingoLine { direction: Direction::Horizontal, index: 0, team: 0 };
    let b = BingoLine { direction: Direction::Vertical, index: 2, team: 0 };
    let c = BingoLine { direction: Direction::Diagonal, index: 1, team: 1 };
    assert_eq!(new_bingos(&vec![a], &vec![a, b, c]), vec![b, c]);
    assert_eq!(new_bingos(&vec![a, b], &vec![a, b]), vec![]);
    assert_eq!(new_bingos(&vec![], &vec![c]), vec![c]);
}

#[test]
fn bingo_on_degenerate_grids() {
    assert!(ActiveGameData::new(0, 0).check_for_bingos(0).is_empty());
    let g = grid_with(2, &[(0, 1), (1, 1)]);
    let mut longer = ActiveGameData::new(6, 0);
    longer.cells[0] = g.cells[0].clone();
    longer.cells[1] = g.cells[1].clone();
    assert_eq!(lines(&longer, 2), vec![(1, 0, 1)]);
}

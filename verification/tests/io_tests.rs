use game_of_life_reverse::grid_text::{grid_to_string, parse_grid_from_string};
use game_of_life_reverse::grid::Grid;
use game_of_life_reverse::settings::BoundaryCondition;

#[test]
fn test_parse_grid_from_string() {
    let content = "010\n101\n010\n";
    let grid = parse_grid_from_string(content, BoundaryCondition::Dead).unwrap();
    assert_eq!(grid.width, 3);
    assert_eq!(grid.height, 3);
    assert_eq!(grid.living_count(), 4);
    assert!(grid.get(0, 1));
    assert!(grid.get(1, 0));
    assert!(grid.get(1, 2));
    assert!(grid.get(2, 1));
}

#[test]
fn test_grid_to_string() {
    let cells = vec![
        vec![false, true, false],
        vec![true, false, true],
        vec![false, true, false],
    ];
    let grid = Grid::from_cells(cells, BoundaryCondition::Dead).unwrap();
    let string_repr = grid_to_string(&grid);
    assert_eq!(string_repr, "010\n101\n010\n");
}

#[test]
fn test_round_trip() {
    let original_content = "010\n101\n010\n";
    let grid = parse_grid_from_string(original_content, BoundaryCondition::Dead).unwrap();
    let regenerated_content = grid_to_string(&grid);
    assert_eq!(original_content, regenerated_content);
}

#[test]
fn test_invalid_input() {
    let invalid_content = "010\n1X1\n010\n";
    assert!(parse_grid_from_string(invalid_content, BoundaryCondition::Dead).is_err());
    let inconsistent_content = "010\n11\n010\n";
    assert!(parse_grid_from_string(inconsistent_content, BoundaryCondition::Dead).is_err());
    let empty_content = "";
    assert!(parse_grid_from_string(empty_content, BoundaryCondition::Dead).is_err());
}

#[test]
fn test_write_then_parse_identity() {
    let cells = vec![vec![true, false, true], vec![false, true, false]];
    let grid = Grid::from_cells(cells, BoundaryCondition::Wrap).unwrap();
    let text = grid_to_string(&grid);
    let parsed = parse_grid_from_string(&text, BoundaryCondition::Wrap).unwrap();
    assert_eq!(parsed.width, grid.width);
    assert_eq!(parsed.height, grid.height);
    assert_eq!(parsed.cells, grid.cells);
}

#[test]
fn test_parse_trims_blanks_and_skips_blank_lines() {
    let content = "  010  \n\n 101 \n010\n\n";
    let grid = parse_grid_from_string(content, BoundaryCondition::Dead).unwrap();
    assert_eq!(grid.height, 3);
    assert_eq!(grid.width, 3);
    assert_eq!(grid_to_string(&grid), "010\n101\n010\n");
}

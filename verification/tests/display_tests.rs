use game_of_life_reverse::display::{Color, ColorOutput, ProgressIndicator, SolutionFormatter};
use game_of_life_reverse::grid::Grid;
use game_of_life_reverse::settings::BoundaryCondition;

#[test]
fn test_grid_formatting() {
    let cells = vec![
        vec![true, false, true],
        vec![false, true, false],
        vec![true, false, true],
    ];
    let grid = Grid::from_cells(cells, BoundaryCondition::Dead).unwrap();
    let compact = SolutionFormatter::format_grid_compact(&grid);
    assert!(compact.contains('█'));
    assert!(compact.contains('·'));
    let with_coords = SolutionFormatter::format_grid_with_coords(&grid);
    assert!(with_coords.contains("0  1  2"));
}

#[test]
fn test_progress_indicator() {
    let mut progress = ProgressIndicator::new(100);
    progress.update(50);
    assert_eq!(progress.current, 50);
    assert_eq!(progress.total, 100);
}

#[test]
fn test_color_output() {
    let colored = ColorOutput::colored("test", Color::Red, true);
    assert!(colored.contains("test"));
    let success = ColorOutput::success("OK", true);
    assert!(success.contains("OK"));
}

#[test]
fn test_color_output_unsupported_terminal() {
    assert_eq!(ColorOutput::colored("plain", Color::Red, false), "plain");
    assert_eq!(ColorOutput::warning("careful", false), "careful");
    assert_eq!(ColorOutput::error("broken", true), "\u{1b}[31mbroken\u{1b}[0m");
}

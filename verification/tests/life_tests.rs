use mobius_life::gameoflife::get_neighbor_indices;
use mobius_life::gameoflife::InputType;
use mobius_life::gameoflife::Life;
use mobius_life::gameoflife::Lifeform;
use mobius_life::gameoflife::BRUSH_RADIUS;

const SECOND: u64 = 1_000_000_000;

fn board(width: i32, height: i32, alive: &[usize]) -> Vec<u8> {
    let mut cells = vec![0u8; (width * height) as usize];
    for &i in alive {
        cells[i] = 1;
    }
    cells
}

fn alive_cells(life: &Life) -> Vec<usize> {
    life.game_area
        .iter()
        .enumerate()
        .filter(|(_, &v)| v == 1)
        .map(|(i, _)| i)
        .collect()
}

#[test]
fn new_game_starts_running_with_an_empty_clock() {
    let life = Life::new(vec![0, 1, 0, 1], 2, 2, 4);
    assert_eq!(life.game_area, vec![0, 1, 0, 1]);
    assert_eq!(life.width, 2);
    assert_eq!(life.height, 2);
    assert_eq!(life.progress, 0);
    assert_eq!(life.fps, 4);
    assert!(life.enabled);
    assert!(life.input.is_none());
    assert!(life.prev_drawed_elem.is_none());
    assert!(life.lifeforms.is_empty());
}

#[test]
fn blinker_oscillates() {
    let mut life = Life::new(board(5, 5, &[11, 12, 13]), 5, 5, 1);
    life.calculate_iteration(SECOND);
    assert_eq!(alive_cells(&life), vec![7, 12, 17]);
    assert_eq!(life.progress, 0);
    life.calculate_iteration(SECOND);
    assert_eq!(alive_cells(&life), vec![11, 12, 13]);
}

#[test]
fn block_is_still() {
    let mut life = Life::new(board(4, 4, &[5, 6, 9, 10]), 4, 4, 1);
    life.calculate_iteration(SECOND);
    assert_eq!(alive_cells(&life), vec![5, 6, 9, 10]);
}

#[test]
fn dead_board_stays_dead() {
    let mut life = Life::new(vec![0; 12], 4, 3, 1);
    life.calculate_iteration(SECOND);
    assert_eq!(life.game_area, vec![0; 12]);
}

#[test]
fn lonely_and_crowded_cells_die() {
    // A single cell dies of loneliness; the centre of a plus dies of crowding.
    let mut lonely = Life::new(board(5, 5, &[12]), 5, 5, 1);
    lonely.calculate_iteration(SECOND);
    assert!(alive_cells(&lonely).is_empty());

    let mut plus = Life::new(board(5, 5, &[7, 11, 12, 13, 17]), 5, 5, 1);
    plus.calculate_iteration(SECOND);
    assert_eq!(plus.game_area[12], 0);
    // A dead corner with three live neighbours comes alive.
    assert_eq!(plus.game_area[6], 1);
}

#[test]
fn glider_moves_across_the_edge() {
    // A glider moves one cell diagonally every four generations, so on an
    // 8 x 8 torus it is back where it started after 32 generations.
    let start = board(8, 8, &[1, 10, 16, 17, 18]);
    let mut life = Life::new(start.clone(), 8, 8, 1);
    life.calculate_iteration(SECOND);
    assert_ne!(life.game_area, start);
    for _ in 1..32 {
        life.calculate_iteration(SECOND);
    }
    assert_eq!(life.game_area, start);
}

#[test]
fn paused_game_does_not_change() {
    let mut life = Life::new(board(5, 5, &[11, 12, 13]), 5, 5, 1);
    life.toggle();
    assert!(!life.enabled);
    life.calculate_iteration(10 * SECOND);
    assert_eq!(alive_cells(&life), vec![11, 12, 13]);
    assert_eq!(life.progress, 0);
    life.toggle();
    assert!(life.enabled);
}

#[test]
fn clock_steps_once_a_whole_frame_has_elapsed() {
    let mut life = Life::new(board(5, 5, &[11, 12, 13]), 5, 5, 4);
    let tenth = SECOND / 10;
    life.calculate_iteration(tenth);
    assert_eq!(life.progress, 400_000_000);
    life.calculate_iteration(tenth);
    assert_eq!(alive_cells(&life), vec![11, 12, 13]);
    life.calculate_iteration(tenth);
    assert_eq!(alive_cells(&life), vec![7, 12, 17]);
    assert_eq!(life.progress, 200_000_000);
    life.reset_time();
    assert_eq!(life.progress, 0);
}

#[test]
fn long_frame_takes_only_one_step() {
    let mut life = Life::new(board(5, 5, &[11, 12, 13]), 5, 5, 2);
    life.calculate_iteration(3 * SECOND);
    assert_eq!(alive_cells(&life), vec![7, 12, 17]);
    assert_eq!(life.progress, 5_000_000_000);
}

#[test]
fn zero_fps_never_steps() {
    let mut life = Life::new(board(5, 5, &[11, 12, 13]), 5, 5, 0);
    life.calculate_iteration(u64::MAX);
    assert_eq!(alive_cells(&life), vec![11, 12, 13]);
    assert_eq!(life.progress, 0);
}

#[test]
fn neighbour_sum_wraps_around() {
    let life = Life::new(board(4, 4, &[0]), 4, 4, 1);
    assert_eq!(life.neighboor_sum(0, 0), 1);
    assert_eq!(life.neighboor_sum(3, 3), 1);
    assert_eq!(life.neighboor_sum(1, 1), 1);
    assert_eq!(life.neighboor_sum(2, 2), 0);
    assert_eq!(life.neighboor_sum(-1, -1), 1);
    assert_eq!(life.neighboor_sum(4, 4), life.neighboor_sum(0, 0));
    assert_eq!(life.neighboor_sum(6, 2), life.neighboor_sum(2, 2));
    let full = Life::new(vec![1; 9], 3, 3, 1);
    assert_eq!(full.neighboor_sum(1, 1), 9);
}

#[test]
fn texture_copy_scales_cells() {
    let mut life = Life::new(vec![0, 1, 1, 0], 2, 2, 1);
    assert_eq!(life.convert_copy_01_to_0255(), vec![0, 255, 255, 0]);
    assert_eq!(life.game_area, vec![0, 1, 1, 0]);
}

#[test]
fn neighbour_indices_follow_the_window_row_by_row() {
    assert_eq!(get_neighbor_indices(0, 3, 3, 1), vec![8, 6, 7, 2, 1, 5, 3, 4]);
    assert_eq!(get_neighbor_indices(4, 3, 3, 1), vec![0, 1, 2, 3, 5, 6, 7, 8]);
    assert!(get_neighbor_indices(4, 3, 3, 0).is_empty());
    assert!(get_neighbor_indices(4, 3, 3, -3).is_empty());
}

#[test]
fn neighbour_indices_are_distinct_on_a_large_board() {
    let n = get_neighbor_indices(12, 5, 5, 2);
    assert_eq!(n.len(), 24);
    let mut sorted = n.clone();
    sorted.sort();
    sorted.dedup();
    assert_eq!(sorted.len(), 24);
    assert!(!n.contains(&12));
    assert!(n.iter().all(|&i| i < 25));
}

#[test]
fn neighbour_indices_wrap_on_a_small_board() {
    // On a board narrower than the window, the same cells come back more than once.
    let n = get_neighbor_indices(0, 2, 2, 1);
    assert_eq!(n, vec![3, 2, 3, 1, 1, 3, 2, 3]);
}

#[test]
fn lifeform_is_stamped_around_the_middle_point() {
    let mut life = Life::new(vec![0; 25], 5, 5, 1);
    let glider = Lifeform {
        name: String::from("glider"),
        data: vec![0, 1, 0, 0, 0, 1, 1, 1, 1],
        width: 3,
        height: 3,
    };
    life.insert_premade_lifeform(glider, 12);
    assert_eq!(alive_cells(&life), vec![7, 13, 16, 17, 18]);
}

#[test]
fn lifeform_stamp_wraps_and_overwrites() {
    let mut life = Life::new(vec![1; 25], 5, 5, 1);
    let dot = Lifeform {
        name: String::from("dot"),
        data: vec![0, 0, 0, 0],
        width: 2,
        height: 2,
    };
    // The 2 x 2 pattern centred on cell 0 covers columns 4, 0 and rows 4, 0.
    life.insert_premade_lifeform(dot, 0);
    let dead: Vec<usize> = life
        .game_area
        .iter()
        .enumerate()
        .filter(|(_, &v)| v == 0)
        .map(|(i, _)| i)
        .collect();
    assert_eq!(dead, vec![0, 4, 20, 24]);
}

#[test]
fn empty_lifeform_changes_nothing() {
    let mut life = Life::new(board(3, 3, &[4]), 3, 3, 1);
    let mut empty = Lifeform::new(String::from("x"), 2, 2);
    empty.reset(0);
    life.insert_premade_lifeform(empty, 4);
    assert_eq!(alive_cells(&life), vec![4]);
}

#[test]
fn lifeforms_are_kept_in_order() {
    let mut life = Life::new(vec![0; 4], 2, 2, 1);
    life.add_lifeform(Lifeform::new(String::from("a"), 1, 1));
    life.add_lifeform(Lifeform::new(String::from("b"), 2, 1));
    assert_eq!(life.lifeforms.len(), 2);
    assert_eq!(life.lifeforms[0].name, "a");
    assert_eq!(life.lifeforms[1].name, "b");
    assert_eq!(life.game_area, vec![0; 4]);
}

#[test]
fn pointer_input_is_recorded() {
    let mut life = Life::new(vec![0; 4], 2, 2, 1);
    life.toggle_input(Some(InputType::Insert));
    assert!(matches!(life.input, Some(InputType::Insert)));
    life.toggle_input(Some(InputType::Delete));
    assert!(matches!(life.input, Some(InputType::Delete)));
    life.toggle_input(None);
    assert!(life.input.is_none());
}

#[test]
fn stroke_paints_and_searches_near_the_last_cell() {
    let mut life = Life::new(vec![0; 900], 30, 30, 1);
    assert!(life.stroke_search_cells().is_none());
    life.toggle_input(Some(InputType::Insert));
    life.paint_cell(465);
    assert_eq!(life.game_area[465], 1);
    assert_eq!(life.prev_drawed_elem, Some(465));
    let cells = life.stroke_search_cells().unwrap();
    assert_eq!(cells, get_neighbor_indices(465, 30, 30, BRUSH_RADIUS));
    assert_eq!(cells.len(), 440);
    life.finish_stroke(Some(3));
    assert_eq!(life.game_area[3], 1);
    assert!(life.input.is_none());
    assert!(life.prev_drawed_elem.is_none());
    life.finish_stroke(None);
    assert_eq!(alive_cells(&life), vec![3, 465]);
}

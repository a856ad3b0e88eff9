use oscarv2::display::graphics::{block_size, get_cell_color, Canvas};
use oscarv2::model::agent::SpeciesKind;
use oscarv2::model::position::Position;
use oscarv2::model::world::World;

fn rows_of(canvas: &Canvas) -> Vec<Vec<u32>> {
    if canvas.width == 0 {
        return vec![vec![]; canvas.height];
    }
    canvas.buffer.chunks(canvas.width).map(|row| row.to_vec()).collect()
}

fn picture(canvas: &Canvas) -> Vec<String> {
    rows_of(canvas)
        .iter()
        .map(|row| row.iter().map(|p| if *p == 0 { '.' } else { '#' }).collect())
        .collect()
}

fn line(x1: usize, y1: usize, x2: usize, y2: usize) -> Vec<String> {
    let mut canvas = Canvas::new(6, 5, 0);
    canvas.draw_line(x1, y1, x2, y2, 9);
    picture(&canvas)
}

#[test]
fn blocks_are_as_large_as_the_window_allows() {
    assert_eq!(block_size(1280, 720, 32, 32), 22);
    assert_eq!(block_size(1280, 720, 10, 100), 12);
    assert_eq!(block_size(100, 100, 3, 7), 14);
    assert_eq!(block_size(100, 10, 3, 7), 3);
    assert_eq!(block_size(5, 100, 1, 6), 0);
    assert_eq!(block_size(0, 0, 1, 1), 0);
    assert_eq!(block_size(usize::MAX, usize::MAX, 1, 1), usize::MAX);
}

#[test]
fn a_cell_has_the_colour_of_its_living_agent() {
    let mut world = World::new(2, 2);
    let a = world.spawn_agent(Position::new(0, 1), SpeciesKind::Animal, 0, "a".to_string(), 0xFF12_3456, 0);
    let b = world.spawn_agent(Position::new(1, 0), SpeciesKind::Animal, 0, "b".to_string(), 0x00AB_CDEF, 0);
    assert_eq!(get_cell_color(&world, Position::new(0, 1), 7), 0x12_3456);
    assert_eq!(get_cell_color(&world, Position::new(1, 0), 7), 0xAB_CDEF);
    assert_eq!(get_cell_color(&world, Position::new(0, 0), 7), 7);
    assert_eq!(get_cell_color(&world, Position::new(2, 0), 7), 7);
    // A dead agent that is still recorded, and a record of no agent: background.
    world.agents[a].kill();
    assert_eq!(get_cell_color(&world, Position::new(0, 1), 7), 7);
    world.set_agent(Position::new(1, 1), Some(99));
    assert_eq!(get_cell_color(&world, Position::new(1, 1), 7), 7);
    world.kill_agent(b);
    assert_eq!(get_cell_color(&world, Position::new(1, 0), 7), 7);
}

#[test]
fn a_world_is_drawn_block_by_block() {
    let mut world = World::new(2, 3);
    world.spawn_agent(Position::new(0, 0), SpeciesKind::Animal, 0, "a".to_string(), 1, 0);
    world.spawn_agent(Position::new(1, 2), SpeciesKind::Animal, 0, "b".to_string(), 2, 0);
    let mut canvas = Canvas::new(6, 4, 5);
    assert_eq!(canvas.buffer, vec![5; 24]);
    canvas.render(&world, 2, 9);
    assert_eq!(
        rows_of(&canvas),
        vec![
            vec![1, 1, 9, 9, 9, 9],
            vec![1, 1, 9, 9, 9, 9],
            vec![9, 9, 9, 9, 2, 2],
            vec![9, 9, 9, 9, 2, 2],
        ]
    );
    // A canvas larger than the world shows background round it.
    let mut canvas = Canvas::new(4, 3, 5);
    canvas.render(&world, 1, 9);
    assert_eq!(
        rows_of(&canvas),
        vec![vec![1, 9, 9, 9], vec![9, 9, 2, 9], vec![9, 9, 9, 9]]
    );
    canvas.clear(3);
    assert_eq!(canvas.buffer, vec![3; 12]);
    assert_eq!((canvas.width, canvas.height), (4, 3));
}

#[test]
fn a_pixel_off_the_canvas_is_left_out() {
    let mut canvas = Canvas::new(3, 2, 0);
    canvas.draw_pixel(2, 1, 7);
    canvas.draw_pixel(0, 0, 8);
    canvas.draw_pixel(3, 0, 9);
    canvas.draw_pixel(0, 2, 9);
    canvas.draw_pixel(usize::MAX, usize::MAX, 9);
    assert_eq!(canvas.buffer, vec![8, 0, 0, 0, 0, 7]);
}

#[test]
fn lines_run_from_end_to_end() {
    assert_eq!(line(0, 0, 5, 0), vec!["######", "......", "......", "......", "......"]);
    assert_eq!(line(2, 0, 2, 4), vec!["..#...", "..#...", "..#...", "..#...", "..#..."]);
    assert_eq!(line(0, 0, 4, 4), vec!["#.....", ".#....", "..#...", "...#..", "....#."]);
    assert_eq!(line(4, 4, 0, 0), vec!["#.....", ".#....", "..#...", "...#..", "....#."]);
    assert_eq!(line(0, 4, 4, 0), vec!["....#.", "...#..", "..#...", ".#....", "#....."]);
    assert_eq!(line(0, 0, 5, 2), vec!["##....", "..##..", "....##", "......", "......"]);
    assert_eq!(line(5, 2, 0, 0), vec!["##....", "..##..", "....##", "......", "......"]);
    assert_eq!(line(0, 0, 1, 4), vec!["#.....", "#.....", "#.....", ".#....", ".#...."]);
    assert_eq!(line(3, 3, 3, 3), vec!["......", "......", "......", "...#..", "......"]);
    // Beyond the canvas the line goes on unseen.
    assert_eq!(line(3, 2, 9, 2), vec!["......", "......", "...###", "......", "......"]);
    assert_eq!(line(8, 8, 9, 9), vec!["......"; 5]);
    assert_eq!(line(0, 3, 2000, 3), vec!["......", "......", "......", "######", "......"]);
}

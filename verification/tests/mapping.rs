use pacman_maze::layout::{world_to_grid, GridLayout, WorldPoint};

fn at(x: i32, y: i32) -> WorldPoint {
    WorldPoint { x, y }
}

#[test]
fn the_first_tile_is_drawn_at_the_classic_place() {
    let layout = GridLayout::standard();
    assert_eq!(layout.cell_to_world(0, 0), Some(at(-600, 300)));
    assert_eq!(layout.cell_to_world(1, 0), Some(at(-568, 300)));
    assert_eq!(layout.cell_to_world(0, 1), Some(at(-600, 268)));
    assert_eq!(layout.cell_to_world(3, 2), Some(at(-504, 236)));
    assert_eq!(layout.cell_to_world(37, 12), Some(at(584, -84)));
}

#[test]
fn the_standard_layout_is_the_one_with_these_numbers() {
    let standard = GridLayout::standard();
    let made = GridLayout::new(32, 615, 100, 13).unwrap();
    for row in 0..13 {
        for col in 0..38 {
            assert_eq!(standard.cell_to_world(col, row), made.cell_to_world(col, row));
        }
    }
    for x in -700..700 {
        assert_eq!(world_to_grid(at(x, 0), &standard), world_to_grid(at(x, 0), &made));
    }
    for y in -200..400 {
        assert_eq!(world_to_grid(at(0, y), &standard), world_to_grid(at(0, y), &made));
    }
}

#[test]
fn world_positions_map_to_cells() {
    let layout = GridLayout::standard();
    assert_eq!(world_to_grid(at(-600, 300), &layout), Some((0, 0)));
    assert_eq!(world_to_grid(at(0, 0), &layout), Some((19, 9)));
    assert_eq!(world_to_grid(at(-504, 236), &layout), Some((3, 2)));
    assert_eq!(world_to_grid(at(584, -84), &layout), Some((37, 12)));
    assert_eq!(world_to_grid(at(100, -100), &layout), Some((22, 13)));
}

#[test]
fn a_column_is_thirty_two_units_wide() {
    let layout = GridLayout::standard();
    assert_eq!(world_to_grid(at(-615, 300), &layout), Some((0, 0)));
    assert_eq!(world_to_grid(at(-584, 300), &layout), Some((0, 0)));
    assert_eq!(world_to_grid(at(-583, 300), &layout), Some((1, 0)));
    assert_eq!(world_to_grid(at(-552, 300), &layout), Some((1, 0)));
    assert_eq!(world_to_grid(at(-551, 300), &layout), Some((2, 0)));
}

#[test]
fn a_row_is_thirty_two_units_high_and_rows_grow_downward() {
    let layout = GridLayout::standard();
    assert_eq!(world_to_grid(at(-600, 316), &layout), Some((0, 0)));
    assert_eq!(world_to_grid(at(-600, 285), &layout), Some((0, 0)));
    assert_eq!(world_to_grid(at(-600, 284), &layout), Some((0, 1)));
    assert_eq!(world_to_grid(at(-600, 253), &layout), Some((0, 1)));
    assert_eq!(world_to_grid(at(-600, 252), &layout), Some((0, 2)));
}

#[test]
fn left_of_the_grid_and_above_it_there_is_no_cell() {
    let layout = GridLayout::standard();
    assert_eq!(world_to_grid(at(-616, 300), &layout), None);
    assert_eq!(world_to_grid(at(-647, 300), &layout), None);
    assert_eq!(world_to_grid(at(-648, 300), &layout), None);
    assert_eq!(world_to_grid(at(-600, 317), &layout), None);
    assert_eq!(world_to_grid(at(-600, 348), &layout), None);
    assert_eq!(world_to_grid(at(-600, 349), &layout), None);
    assert_eq!(world_to_grid(at(-616, 317), &layout), None);
    assert_eq!(world_to_grid(at(i32::MIN, 300), &layout), None);
    assert_eq!(world_to_grid(at(-600, i32::MAX), &layout), None);
    assert_eq!(world_to_grid(at(i32::MIN, i32::MAX), &layout), None);
}

#[test]
fn the_far_corners_of_the_world_map_without_wrapping() {
    let layout = GridLayout::standard();
    // floor((2147483647 + 615) / 32) and floor(13 - (-2147483648 + 100) / 32)
    assert_eq!(world_to_grid(at(i32::MAX, i32::MIN), &layout), Some((67108883, 67108873)));
    let fine = GridLayout::new(1, i32::MAX, i32::MIN, i32::MAX).unwrap();
    assert_eq!(world_to_grid(at(i32::MAX, i32::MIN), &fine), Some((4294967294, 6442450943)));
    assert_eq!(world_to_grid(at(i32::MIN, i32::MAX), &fine), None);
    let coarse = GridLayout::new(i32::MAX, i32::MIN, i32::MAX, i32::MIN).unwrap();
    assert_eq!(world_to_grid(at(i32::MAX, i32::MIN), &coarse), None);
    assert_eq!(world_to_grid(at(i32::MIN, i32::MAX), &coarse), None);
}

#[test]
fn drawing_a_cell_and_asking_back_gives_the_cell() {
    let layout = GridLayout::standard();
    for row in 0..13 {
        for col in 0..38 {
            let place = layout.cell_to_world(col, row).unwrap();
            assert_eq!(world_to_grid(place, &layout), Some((col, row)));
        }
    }
}

#[test]
fn the_round_trip_holds_for_other_layouts() {
    let layouts = [
        (1, 0, 0, 0),
        (1, 7, -3, 5),
        (2, 0, 0, 10),
        (3, -17, 40, 0),
        (7, 1000, -1000, 20),
        (16, 8, 8, 100),
        (33, 615, 100, 13),
        (1000, -5, 5, 3),
    ];
    for (cell, x, y, rows) in layouts {
        let layout = GridLayout::new(cell, x, y, rows).unwrap();
        for row in 0..25 {
            for col in 0..25 {
                let place = layout.cell_to_world(col, row).unwrap();
                assert_eq!(world_to_grid(place, &layout), Some((col, row)), "{:?}", (cell, x, y, rows));
            }
        }
    }
}

#[test]
fn every_point_of_a_cell_maps_to_it() {
    let layout = GridLayout::new(5, 2, -1, 4).unwrap();
    // Column 3 starts at 3 * 5 - 2 and row 2 ends at (4 - 2) * 5 + 1.
    for x in 13..18 {
        for y in 7..12 {
            assert_eq!(world_to_grid(at(x, y), &layout), Some((3, 2)));
        }
    }
    assert_eq!(world_to_grid(at(12, 11), &layout), Some((2, 2)));
    assert_eq!(world_to_grid(at(18, 11), &layout), Some((4, 2)));
    assert_eq!(world_to_grid(at(13, 12), &layout), Some((3, 1)));
    assert_eq!(world_to_grid(at(13, 6), &layout), Some((3, 3)));
    assert_eq!(layout.cell_to_world(3, 2), Some(at(15, 9)));
}

#[test]
fn a_layout_needs_a_positive_cell_size() {
    assert!(GridLayout::new(0, 615, 100, 13).is_none());
    assert!(GridLayout::new(-1, 615, 100, 13).is_none());
    assert!(GridLayout::new(-32, 0, 0, 0).is_none());
    assert!(GridLayout::new(i32::MIN, 0, 0, 0).is_none());
    assert!(GridLayout::new(1, 0, 0, 0).is_some());
    assert!(GridLayout::new(i32::MAX, i32::MIN, i32::MIN, i32::MIN).is_some());
}

#[test]
fn a_cell_beyond_the_world_has_no_place() {
    let layout = GridLayout::standard();
    // 67108882 * 32 - 600 is the last x that is a world coordinate.
    assert_eq!(layout.cell_to_world(67108882, 0), Some(at(2147483624, 300)));
    assert_eq!(layout.cell_to_world(67108883, 0), None);
    assert_eq!(layout.cell_to_world(0, 67108873), Some(at(-600, -2147483636)));
    assert_eq!(layout.cell_to_world(0, 67108874), None);
    assert_eq!(layout.cell_to_world(usize::MAX, 0), None);
    assert_eq!(layout.cell_to_world(0, usize::MAX), None);
    assert_eq!(layout.cell_to_world(usize::MAX, usize::MAX), None);
    let shifted = GridLayout::new(32, i32::MIN, 0, 0).unwrap();
    assert_eq!(shifted.cell_to_world(0, 0), None);
}

use tabletop::atlas::{crop_layout, grid_layout, Layout, Rect};

fn rect(x0: u32, y0: u32, x1: u32, y1: u32) -> Rect {
    Rect { x0, y0, x1, y1 }
}

#[test]
fn crop_is_one_part() {
    assert_eq!(crop_layout(1, 2, 30, 40), Some(Layout { size: (31, 42), textures: vec![rect(1, 2, 31, 42)] }));
    assert_eq!(crop_layout(0, 0, 0, 0), Some(Layout { size: (0, 0), textures: vec![rect(0, 0, 0, 0)] }));
}

#[test]
fn crop_must_lie_within_a_u32() {
    assert_eq!(
        crop_layout(u32::MAX - 5, 0, 5, 1),
        Some(Layout { size: (u32::MAX, 1), textures: vec![rect(u32::MAX - 5, 0, u32::MAX, 1)] })
    );
    assert_eq!(crop_layout(u32::MAX - 5, 0, 6, 1), None);
    assert_eq!(crop_layout(0, u32::MAX, 1, 1), None);
    assert_eq!(crop_layout(u32::MAX, u32::MAX, u32::MAX, u32::MAX), None);
}

#[test]
fn grid_without_gaps() {
    let layout = grid_layout(0, 0, 3, 2, 10, 20, 0, 0).unwrap();
    assert_eq!(layout.size, (30, 40));
    assert_eq!(
        layout.textures,
        vec![
            rect(0, 0, 10, 20),
            rect(10, 0, 20, 20),
            rect(20, 0, 30, 20),
            rect(0, 20, 10, 40),
            rect(10, 20, 20, 40),
            rect(20, 20, 30, 40),
        ]
    );
}

#[test]
fn grid_with_gaps_and_a_start() {
    let layout = grid_layout(5, 7, 2, 2, 10, 20, 3, 4).unwrap();
    assert_eq!(layout.size, (5 + 20 + 3, 7 + 40 + 4));
    assert_eq!(
        layout.textures,
        vec![rect(5, 7, 15, 27), rect(18, 7, 28, 27), rect(5, 31, 15, 51), rect(18, 31, 28, 51)]
    );
}

#[test]
fn grid_with_cells_that_overlap() {
    let layout = grid_layout(0, 0, 3, 1, 10, 10, -4, -4).unwrap();
    assert_eq!(layout.size, (30 - 8, 10));
    assert_eq!(layout.textures, vec![rect(0, 0, 10, 10), rect(6, 0, 16, 10), rect(12, 0, 22, 10)]);
}

#[test]
fn grid_cells_are_counted_row_by_row() {
    let (cols, rows) = (7u32, 5u32);
    let layout = grid_layout(3, 4, cols, rows, 11, 13, 2, -1).unwrap();
    assert_eq!(layout.textures.len(), 35);
    for r in 0..rows {
        for c in 0..cols {
            let cell = layout.textures[(r * cols + c) as usize];
            assert_eq!(cell, rect(3 + c * 13, 4 + r * 12, 3 + c * 13 + 11, 4 + r * 12 + 13));
        }
    }
    assert_eq!(layout.size, (3 + 11 * 7 + 2 * 6, 4 + 13 * 5 - 4));
}

#[test]
fn grid_without_cells() {
    assert_eq!(grid_layout(4, 5, 0, 3, 10, 10, 0, 0), Some(Layout { size: (4, 35), textures: vec![] }));
    assert_eq!(grid_layout(4, 5, 3, 0, 10, 10, 0, 0), Some(Layout { size: (34, 5), textures: vec![] }));
    assert_eq!(grid_layout(4, 5, 0, 0, 10, 10, -1, -2), Some(Layout { size: (5, 7), textures: vec![] }));
    // Without a cell the end lies a gap before the start.
    assert_eq!(grid_layout(0, 0, 0, 1, 10, 10, 1, 0), None);
    assert_eq!(grid_layout(4, 5, 0, 0, 10, 10, 4, 5), Some(Layout { size: (0, 0), textures: vec![] }));
}

#[test]
fn grid_must_lie_within_a_u32() {
    assert!(grid_layout(0, 0, 2, 1, 0x8000_0000, 1, -1, 0).is_some());
    assert_eq!(grid_layout(0, 0, 2, 1, 0x8000_0000, 1, 0, 0), None);
    assert_eq!(grid_layout(0, 0, 1, 2, 1, 0x8000_0000, 0, 1), None);
    assert_eq!(grid_layout(u32::MAX, 0, 1, 1, 1, 1, 0, 0), None);
    assert_eq!(grid_layout(0, 0, u32::MAX, 1, u32::MAX, 1, i32::MAX, 0), None);
    assert_eq!(grid_layout(0, 0, 1, u32::MAX, 1, u32::MAX, 0, i32::MIN), None);
}

#[test]
fn grid_cell_must_not_begin_before_zero() {
    // The second cell would begin at 10 + (5 - 20) = -5.
    assert_eq!(grid_layout(10, 0, 2, 1, 5, 5, -20, 0), None);
    assert_eq!(grid_layout(0, 10, 1, 2, 5, 5, 0, -20), None);
    // At 0 it may begin.
    let layout = grid_layout(10, 0, 2, 1, 5, 5, -15, 0).unwrap();
    assert_eq!(layout.textures, vec![rect(10, 0, 15, 5), rect(0, 0, 5, 5)]);
    assert_eq!(layout.size, (5, 5));
}

#[test]
fn grid_at_the_very_end_fits() {
    let layout = grid_layout(u32::MAX - 4, u32::MAX - 2, 2, 1, 2, 2, 0, 0).unwrap();
    assert_eq!(layout.size, (u32::MAX, u32::MAX));
    assert_eq!(
        layout.textures,
        vec![rect(u32::MAX - 4, u32::MAX - 2, u32::MAX - 2, u32::MAX), rect(u32::MAX - 2, u32::MAX - 2, u32::MAX, u32::MAX)]
    );
}

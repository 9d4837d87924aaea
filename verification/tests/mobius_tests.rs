use mobius_life::mobius::double_sided_layout;
use mobius_life::mobius::mobius_grid_size;
use mobius_life::mobius::mobius_life;
use mobius_life::mobius::mobius_strip_layout;

#[test]
fn front_side_layout() {
    let layout = mobius_strip_layout(3, 3, false, 0);
    assert_eq!(layout.quads.len(), 6);
    assert_eq!(layout.indices.len(), 36);
    assert_eq!(layout.next_offset, 24);
    assert_eq!(&layout.indices[..12], &[0, 1, 2, 0, 2, 3, 4, 5, 6, 4, 6, 7]);
    let q = &layout.quads[0];
    assert_eq!((q.along, q.along_next, q.across, q.quad_id, q.primary), (0, 1, 0, 0, true));
    let q = &layout.quads[1];
    assert_eq!((q.along, q.along_next, q.across, q.quad_id, q.primary), (0, 1, 1, 1, false));
    let q = &layout.quads[5];
    assert_eq!((q.along, q.along_next, q.across, q.quad_id, q.primary), (2, 0, 1, 5, false));
}

#[test]
fn back_side_layout_is_reversed_and_numbered_on() {
    let layout = mobius_strip_layout(3, 3, true, 24);
    assert_eq!(layout.next_offset, 48);
    assert_eq!(&layout.indices[..6], &[24, 26, 25, 24, 27, 26]);
    let q = &layout.quads[0];
    assert_eq!((q.along, q.across, q.quad_id, q.primary), (0, 1, 6, true));
    let q = &layout.quads[1];
    assert_eq!((q.along, q.across, q.quad_id), (0, 0, 7));
}

#[test]
fn both_sides_never_share_a_vertex() {
    let (front, back) = double_sided_layout(4, 5);
    assert_eq!(front.next_offset, 64);
    assert_eq!(back.next_offset, 128);
    let front_max = front.indices.iter().max().unwrap();
    let back_min = back.indices.iter().min().unwrap();
    assert!(front_max < back_min);
    for (k, quad) in front.indices.chunks(6).enumerate() {
        assert!(quad.iter().all(|&i| (4 * k as u32) <= i && i < 4 * k as u32 + 4));
    }
}

#[test]
fn narrow_strip_has_no_quads() {
    let layout = mobius_strip_layout(5, 1, false, 8);
    assert!(layout.quads.is_empty());
    assert!(layout.indices.is_empty());
    assert_eq!(layout.next_offset, 8);
}

#[test]
fn board_covers_both_sides() {
    let size = mobius_grid_size(600, 100);
    assert_eq!((size.width, size.height), (99, 1200));
    let life = mobius_life(300, 30, 2);
    assert_eq!(life.width, 29);
    assert_eq!(life.height, 600);
    assert_eq!(life.game_area.len(), 29 * 600);
    assert!(life.game_area.iter().all(|&v| v == 0));
    assert_eq!(life.fps, 2);
    assert!(life.enabled);
}

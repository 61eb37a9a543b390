use godotty::sprite::{
    braille_grid, dash, draw, draw_block, draw_braille, draw_box, draw_powerline, lines_char, outline_runs, Corner, Rect,
    Shape, LINES,
};

fn r(x0: i32, y0: i32, x1: i32, y1: i32) -> Rect {
    Rect { x0, y0, x1, y1 }
}

fn fills(shapes: &[Shape]) -> Vec<Rect> {
    shapes
        .iter()
        .map(|s| match s {
            Shape::Fill { rect, .. } => *rect,
            other => panic!("not a fill: {other:?}"),
        })
        .collect()
}

#[test]
fn letters_are_no_sprites() {
    assert!(draw(8, 16, 1, 'A' as u32).is_none());
    assert!(draw(8, 16, 1, 0x24ff).is_none());
    assert!(draw(8, 16, 1, 0x25a0).is_none());
    assert!(draw(8, 16, 1, 0x25e6).is_none());
    assert!(draw(8, 16, 1, 0xe0c0).is_none());
    assert!(draw(8, 16, 1, 0x1fb3c).is_none());
}

#[test]
fn every_sprite_range_is_drawn() {
    for cp in (0x2500..=0x259f).chain(0x25e2..=0x25e5).chain(0x2800..=0x28ff).chain(0xe0b0..=0xe0bf).chain(0x1fb00..=0x1fb3b) {
        assert!(draw(8, 16, 1, cp).is_some(), "{cp:x}");
    }
}

#[test]
fn blocks_rise_in_eighths() {
    assert_eq!(draw_block(8, 16, 0x2588), vec![r(0, 0, 8, 16)]);
    assert_eq!(draw_block(8, 16, 0x2581), vec![r(0, 14, 8, 16)]);
    assert_eq!(draw_block(8, 16, 0x2584), vec![r(0, 8, 8, 16)]);
    assert_eq!(draw_block(8, 16, 0x2580), vec![r(0, 0, 8, 8)]);
    assert_eq!(draw_block(8, 16, 0x2594), vec![r(0, 0, 8, 2)]);
    assert_eq!(draw_block(8, 16, 0x2589), vec![r(0, 0, 7, 16)]);
    assert_eq!(draw_block(8, 16, 0x258f), vec![r(0, 0, 1, 16)]);
    assert_eq!(draw_block(8, 16, 0x2590), vec![r(4, 0, 8, 16)]);
    assert_eq!(draw_block(8, 16, 0x2595), vec![r(7, 0, 8, 16)]);
}

#[test]
fn halves_round_up() {
    // 3.5 pixels become 4 on both sides of the boundary.
    assert_eq!(draw_block(7, 7, 0x2580), vec![r(0, 0, 7, 4)]);
    assert_eq!(draw_block(7, 7, 0x2584), vec![r(0, 4, 7, 7)]);
    assert_eq!(draw_block(7, 7, 0x2590), vec![r(4, 0, 7, 7)]);
}

#[test]
fn shades_are_translucent() {
    for (cp, alpha) in [(0x2591, 64), (0x2592, 128), (0x2593, 192)] {
        assert_eq!(draw(8, 16, 1, cp).unwrap(), vec![Shape::Fill { rect: r(0, 0, 8, 16), alpha }]);
    }
    assert_eq!(draw(8, 16, 1, 0x2588).unwrap(), vec![Shape::Fill { rect: r(0, 0, 8, 16), alpha: 255 }]);
}

#[test]
fn quadrants_follow_their_bits() {
    assert_eq!(draw_block(8, 16, 0x2596), vec![r(0, 8, 4, 16)]);
    assert_eq!(draw_block(8, 16, 0x2599), vec![r(0, 0, 4, 8), r(0, 8, 4, 16), r(4, 8, 8, 16)]);
    assert_eq!(draw_block(8, 16, 0x259a), vec![r(0, 0, 4, 8), r(4, 8, 8, 16)]);
}

#[test]
fn sextants_skip_patterns_that_exist_elsewhere() {
    assert_eq!(draw_block(8, 16, 0x1fb00), vec![r(0, 0, 4, 5)]);
    // Index 19 has bits 20, index 20 skips the left half and has bits 22.
    assert_eq!(draw_block(8, 16, 0x1fb13), vec![r(0, 5, 4, 11), r(0, 11, 4, 16)]);
    assert_eq!(draw_block(8, 16, 0x1fb14), vec![r(4, 0, 8, 5), r(0, 5, 4, 11), r(0, 11, 4, 16)]);
    // The last one has bits 62.
    assert_eq!(draw_block(8, 16, 0x1fb3b).len(), 5);
}

#[test]
fn mosaics_of_one_cell_tile_it() {
    for (w, h) in [(7, 15), (8, 16), (11, 23)] {
        let top = draw_block(w, h, 0x2580)[0];
        let bottom = draw_block(w, h, 0x2584)[0];
        assert_eq!(top.y1, bottom.y0);
        assert_eq!((top.y0, bottom.y1), (0, h));
    }
}

#[test]
fn light_line_reaches_both_edges() {
    assert_eq!(lines_char(8, 16, 1, LINES[0]), vec![r(3, 7, 8, 8), r(0, 7, 4, 8)]);
    assert_eq!(lines_char(8, 16, 1, LINES[2]), vec![r(3, 0, 4, 8), r(3, 7, 4, 16)]);
}

#[test]
fn light_cross_meets_in_the_center() {
    assert_eq!(LINES[0x3c], 85);
    assert_eq!(lines_char(8, 16, 1, 85), vec![r(3, 0, 4, 8), r(3, 7, 8, 8), r(3, 7, 4, 16), r(0, 7, 4, 8)]);
}

#[test]
fn heavy_crossing_extends_arms_past_it() {
    // Up light, right and left heavy.
    let spec = 1 | 2 << 2 | 2 << 6;
    assert_eq!(LINES[0x37], spec);
    assert_eq!(lines_char(8, 16, 1, spec), vec![r(3, 0, 4, 9), r(3, 7, 8, 9), r(0, 7, 4, 9)]);
}

#[test]
fn double_cross_leaves_gaps() {
    assert_eq!(LINES[0x6c], 255);
    assert_eq!(
        lines_char(8, 16, 1, 255),
        vec![
            r(2, 0, 3, 7),
            r(4, 0, 5, 7),
            r(4, 6, 8, 7),
            r(4, 8, 8, 9),
            r(2, 8, 3, 16),
            r(4, 8, 5, 16),
            r(0, 6, 3, 7),
            r(0, 8, 3, 9),
        ]
    );
}

#[test]
fn strokes_that_outgrow_the_cell_start_inside() {
    for spec in LINES {
        for rect in lines_char(2, 2, 5, spec) {
            assert!(rect.x0 >= 0 && rect.y0 >= 0);
        }
    }
}

#[test]
fn lines_stay_inside_roomy_cells() {
    for spec in LINES {
        for rect in lines_char(9, 17, 3, spec) {
            assert!(0 <= rect.x0 && rect.x0 <= rect.x1 && rect.x1 <= 9);
            assert!(0 <= rect.y0 && rect.y0 <= rect.y1 && rect.y1 <= 17);
        }
    }
}

#[test]
fn swapped_arms_mirror_the_strips() {
    let by_bounds = |list: Vec<Rect>| {
        let mut list: Vec<(i32, i32, i32, i32)> = list.iter().map(|r| (r.x0, r.y0, r.x1, r.y1)).collect();
        list.sort();
        list.dedup();
        list
    };
    for (w, light) in [(6, 2), (8, 2), (14, 4), (20, 2)] {
        for spec in 0..=255u8 {
            let swapped = (spec & 0b0011_0011) | (spec >> 4 & 0b0000_1100) | ((spec & 0b0000_1100) << 4);
            let seen = lines_char(w, 17, light, spec).iter().map(|s| r(w - s.x1, s.y0, w - s.x0, s.y1)).collect();
            assert_eq!(by_bounds(lines_char(w, 17, light, swapped)), by_bounds(seen), "{w} {light} {spec}");
        }
    }
}

#[test]
fn down_arm_meets_the_up_arm_below() {
    let down = lines_char(8, 16, 2, 3 << 4);
    let up = lines_char(8, 16, 2, 3);
    assert_eq!(down.len(), 2);
    for (a, b) in down.iter().zip(up.iter()) {
        assert_eq!((a.x0, a.x1), (b.x0, b.x1));
        assert_eq!((a.y1, b.y0), (16, 0));
    }
}

#[test]
fn dashes_tile_and_gaps_narrow() {
    assert_eq!(dash(9, 16, 3, 1, 4, false), vec![r(0, 7, 2, 8), r(3, 7, 5, 8), r(6, 7, 8, 8)]);
    // Leftover pixels widen the first dashes.
    assert_eq!(dash(11, 16, 3, 1, 4, false), vec![r(0, 7, 3, 8), r(4, 7, 7, 8), r(8, 7, 10, 8)]);
    assert_eq!(dash(8, 16, 2, 1, 2, true), vec![r(3, 0, 4, 6), r(3, 8, 4, 14)]);
}

#[test]
fn dashes_without_room_are_solid() {
    assert_eq!(dash(5, 16, 3, 1, 4, false), vec![r(0, 7, 5, 8)]);
    assert_eq!(dash(8, 3, 2, 2, 1, true), vec![r(3, 0, 5, 3)]);
}

#[test]
fn dashed_codepoints_pick_their_pattern() {
    assert_eq!(fills(&draw_box(24, 48, 2, 0x2504)), dash(24, 48, 3, 2, 4, false));
    assert_eq!(fills(&draw_box(24, 48, 2, 0x2507)), dash(24, 48, 3, 4, 4, true));
    assert_eq!(fills(&draw_box(24, 48, 6, 0x2509)), dash(24, 48, 4, 12, 6, false));
    assert_eq!(fills(&draw_box(24, 48, 2, 0x250a)), dash(24, 48, 4, 2, 4, true));
    assert_eq!(fills(&draw_box(24, 48, 2, 0x254c)), dash(24, 48, 2, 2, 2, false));
    assert_eq!(fills(&draw_box(24, 48, 2, 0x254d)), dash(24, 48, 2, 4, 4, false));
    assert_eq!(fills(&draw_box(24, 48, 2, 0x254e)), dash(24, 48, 2, 2, 4, true));
    assert_eq!(fills(&draw_box(24, 48, 2, 0x254f)), dash(24, 48, 2, 4, 4, true));
}

#[test]
fn box_specials_are_named_shapes() {
    assert_eq!(draw_box(8, 16, 1, 0x256d), vec![Shape::Arc { right: true, down: true }]);
    assert_eq!(draw_box(8, 16, 1, 0x256e), vec![Shape::Arc { right: false, down: true }]);
    assert_eq!(draw_box(8, 16, 1, 0x256f), vec![Shape::Arc { right: false, down: false }]);
    assert_eq!(draw_box(8, 16, 1, 0x2570), vec![Shape::Arc { right: true, down: false }]);
    assert_eq!(draw_box(8, 16, 1, 0x2571), vec![Shape::Diagonal { up: true }]);
    assert_eq!(draw_box(8, 16, 1, 0x2572), vec![Shape::Diagonal { up: false }]);
    assert_eq!(draw_box(8, 16, 1, 0x2573), vec![Shape::Diagonal { up: true }, Shape::Diagonal { up: false }]);
    assert_eq!(fills(&draw_box(8, 16, 1, 0x2500)), lines_char(8, 16, 1, 68));
}

#[test]
fn table_zeros_are_drawn_otherwise() {
    for (i, spec) in LINES.iter().enumerate() {
        let cp = 0x2500 + i as u32;
        let special = (0x2504..=0x250b).contains(&cp) || (0x254c..=0x254f).contains(&cp) || (0x256d..=0x2573).contains(&cp);
        assert_eq!(*spec == 0, special, "{cp:x}");
    }
}

#[test]
fn braille_dots_fill_the_cell() {
    let g = braille_grid(8, 16);
    assert_eq!((g.dot, g.x_margin, g.y_margin, g.x_spacing, g.y_spacing), (2, 1, 1, 2, 2));
    assert!(draw_braille(8, 16, 0x2800).is_empty());
    assert_eq!(draw_braille(8, 16, 0x2801), vec![r(1, 1, 3, 3)]);
    assert_eq!(draw_braille(8, 16, 0x2880), vec![r(5, 13, 7, 15)]);
    assert_eq!(draw_braille(8, 16, 0x28ff).len(), 8);
}

#[test]
fn braille_spends_spare_pixels() {
    // Eleven by twenty-one: spacing takes the first spare pixels.
    let g = braille_grid(11, 21);
    assert_eq!((g.dot, g.x_margin, g.x_spacing), (2, 2, 3));
    assert_eq!((g.y_margin, g.y_spacing), (2, 3));
}

#[test]
fn braille_dots_stay_visible_and_apart() {
    for w in 2..24 {
        for h in 4..48 {
            let dots = draw_braille(w, h, 0x28ff);
            for (i, a) in dots.iter().enumerate() {
                assert!(a.x1 > a.x0 && a.y1 > a.y0, "{w}x{h}");
                assert!(a.x1 <= w && a.y1 <= h, "{w}x{h}");
                for b in &dots[i + 1..] {
                    assert!(a.x1 <= b.x0 || b.x1 <= a.x0 || a.y1 <= b.y0 || b.y1 <= a.y0, "{w}x{h}");
                }
            }
        }
    }
}

#[test]
fn powerline_glyphs_pick_their_shape() {
    let c = |x, y| Corner { x, y };
    assert_eq!(draw_powerline(0xe0b0), vec![Shape::Triangle { a: c(0, 0), b: c(2, 1), c: c(0, 2) }]);
    assert_eq!(draw_powerline(0xe0b1), vec![Shape::Chevron { flip: false }]);
    assert_eq!(draw_powerline(0xe0b2), vec![Shape::Triangle { a: c(2, 0), b: c(0, 1), c: c(2, 2) }]);
    assert_eq!(draw_powerline(0xe0b5), vec![Shape::HalfDisc { flip: false, fill: false }]);
    assert_eq!(draw_powerline(0xe0b6), vec![Shape::HalfDisc { flip: true, fill: true }]);
    assert_eq!(draw_powerline(0xe0b9), vec![Shape::Diagonal { up: false }]);
    assert_eq!(draw_powerline(0xe0bd), vec![Shape::Diagonal { up: true }]);
    assert_eq!(draw_powerline(0xe0be), vec![Shape::Triangle { a: c(0, 0), b: c(2, 0), c: c(2, 2) }]);
    assert_eq!(draw(8, 16, 1, 0x25e5).unwrap(), draw_powerline(0xe0be));
    assert_eq!(draw(8, 16, 1, 0x25e2).unwrap(), draw_powerline(0xe0ba));
    assert_eq!(draw(8, 16, 1, 0x25e3).unwrap(), draw_powerline(0xe0b8));
    assert_eq!(draw(8, 16, 1, 0x25e4).unwrap(), draw_powerline(0xe0bc));
}

#[test]
fn strokes_have_at_least_a_pixel() {
    assert_eq!(draw(8, 16, 0, 0x253c), draw(8, 16, 1, 0x253c));
    assert_eq!(draw(8, 16, -3, 0x2504), draw(8, 16, 1, 0x2504));
    assert_ne!(draw(8, 16, 2, 0x253c), draw(8, 16, 1, 0x253c));
}

#[test]
fn outlines_leave_boundary_edges_crisp() {
    assert_eq!(outline_runs(&vec![false, false, true]), vec![(0, 2)]);
    assert_eq!(outline_runs(&vec![false, false, false]), vec![(0, 3)]);
    assert_eq!(outline_runs(&vec![true, false, true, false]), vec![(1, 2), (3, 4)]);
    assert_eq!(outline_runs(&vec![true, true]), vec![]);
    assert_eq!(outline_runs(&vec![]), vec![]);
}

use mango_display::layout::{calculate_layout, contains, output_at, project};
use mango_display::output::{logical_size, Output, OutputMode, Rect, Transform};
use mango_display::snap::snap_position;
use mango_display::wrap::wrap_lines;

fn mode(width: u32, height: u32, current: bool) -> OutputMode {
    OutputMode { width, height, refresh_mhz: 60000, current, preferred: false }
}

fn output(name: &str, x: i32, y: i32, width: u32, height: u32) -> Output {
    Output {
        name: name.to_string(),
        description: String::new(),
        physical_size: String::new(),
        position: (x, y),
        scale: 100,
        transform: Transform::Normal,
        enabled: true,
        modes: vec![mode(width, height, true)],
    }
}

#[test]
fn logical_size_normal_transform() {
    assert_eq!(logical_size(&mode(1920, 1080, true), 100, Transform::Normal), (1920, 1080));
}

#[test]
fn logical_size_quarter_turn_swaps() {
    assert_eq!(logical_size(&mode(1920, 1080, true), 100, Transform::Rotate90), (1080, 1920));
    assert_eq!(logical_size(&mode(1920, 1080, true), 100, Transform::Flipped270), (1080, 1920));
    assert_eq!(logical_size(&mode(1920, 1080, true), 100, Transform::Rotate180), (1920, 1080));
}

#[test]
fn logical_size_double_scale_halves() {
    assert_eq!(logical_size(&mode(1920, 1080, true), 200, Transform::Normal), (960, 540));
}

#[test]
fn logical_size_truncates() {
    assert_eq!(logical_size(&mode(1920, 1080, true), 125, Transform::Normal), (1536, 864));
    assert_eq!(logical_size(&mode(1000, 1000, true), 300, Transform::Normal), (333, 333));
}

#[test]
fn output_uses_current_mode() {
    let mut o = output("A", 0, 0, 1920, 1080);
    o.modes = vec![mode(3840, 2160, false), mode(2560, 1440, true)];
    assert_eq!(o.current_mode().width, 2560);
    assert_eq!(o.logical_size(), (2560, 1440));
    assert_eq!(o.rect(), Rect { x: 0, y: 0, w: 2560, h: 1440 });
}

#[test]
fn well_formed_needs_one_current_mode() {
    let mut o = output("A", 0, 0, 1920, 1080);
    assert!(o.is_well_formed());
    o.modes = vec![mode(1920, 1080, true), mode(1280, 720, true)];
    assert!(!o.is_well_formed());
    o.modes = vec![mode(1920, 1080, false)];
    assert!(!o.is_well_formed());
    o.modes = vec![];
    assert!(!o.is_well_formed());
}

#[test]
fn well_formed_needs_scale_above_floor() {
    let mut o = output("A", 0, 0, 1920, 1080);
    o.scale = 10;
    assert!(!o.is_well_formed());
    o.scale = 11;
    assert!(o.is_well_formed());
}

#[test]
fn snap_right_edge_flush_with_left_edge() {
    let outs = vec![output("A", 0, 0, 1920, 1080), output("B", 1920, 0, 1920, 1080)];
    assert_eq!(snap_position(&outs, 0, 10, 0), (0, 0));
}

#[test]
fn snap_left_edges_align() {
    let outs = vec![output("A", 0, 0, 1920, 1080), output("B", 1920, 0, 1920, 1080)];
    assert_eq!(snap_position(&outs, 0, 1900, 0), (1920, 0));
}

#[test]
fn snap_left_edge_to_right_edge() {
    let outs = vec![output("A", 0, 0, 1920, 1080), output("B", 1920, 0, 1920, 1080)];
    assert_eq!(snap_position(&outs, 1, 1950, 3), (1920, 0));
}

#[test]
fn snap_top_to_bottom_edge() {
    let outs = vec![output("A", 0, 0, 1920, 1080), output("B", 0, 2000, 1920, 1080)];
    assert_eq!(snap_position(&outs, 1, 4, 1100), (0, 1080));
}

#[test]
fn snap_grid_fallback_isolated() {
    let outs = vec![output("A", 0, 0, 1920, 1080)];
    assert_eq!(snap_position(&outs, 0, 1234, 567), (1230, 570));
}

#[test]
fn snap_grid_rounds_halves_up() {
    let outs = vec![output("A", 0, 0, 1920, 1080)];
    assert_eq!(snap_position(&outs, 0, 1235, 4), (1240, 0));
}

#[test]
fn snap_ignores_neighbour_without_overlap() {
    let outs = vec![output("A", 0, 0, 1920, 1080), output("B", 1920, 5000, 1920, 1080)];
    assert_eq!(snap_position(&outs, 0, 10, 0), (10, 0));
}

#[test]
fn snap_never_negative() {
    let outs = vec![output("A", 0, 0, 1920, 1080), output("B", -30, 0, 1920, 1080)];
    assert_eq!(snap_position(&outs, 0, 0, 0), (0, 0));
}

#[test]
fn layout_empty_arrangement_positive_scale() {
    let p = calculate_layout(&vec![], 800, 600);
    assert!(p.num > 0 && p.den > 0);
    assert_eq!((p.num, p.den), (1600, 8000));
    assert_eq!((p.first_w, p.max_h), (1920, 1080));
}

#[test]
fn layout_empty_surface_has_denominator() {
    let p = calculate_layout(&vec![], 0, 0);
    assert!(p.den > 0);
    assert_eq!(p.num, 0);
}

#[test]
fn layout_two_outputs() {
    let outs = vec![output("A", 0, 0, 1920, 1080), output("B", 1920, 0, 1920, 1080)];
    let p = calculate_layout(&outs, 800, 600);
    assert_eq!((p.num, p.den), (1600, 11520));
    assert_eq!((p.first_w, p.max_h), (1920, 1080));
}

#[test]
fn layout_tall_output_limits_by_height() {
    let outs = vec![output("A", 0, 0, 1000, 4000)];
    let p = calculate_layout(&outs, 800, 600);
    assert_eq!((p.num, p.den), (1200, 20000));
    assert_eq!(p.max_h, 4000);
}

#[test]
fn projected_rectangle_edges() {
    let outs = vec![output("A", 0, 0, 1920, 1080)];
    let p = calculate_layout(&outs, 800, 600);
    let r = outs[0].rect();
    assert!(contains(&p, r, 208, 192));
    assert!(contains(&p, r, 591, 407));
    assert!(!contains(&p, r, 592, 300));
    assert!(!contains(&p, r, 300, 408));
    assert!(!contains(&p, r, 207, 300));
}

#[test]
fn hit_test_last_output_wins() {
    let outs = vec![output("A", 0, 0, 1920, 1080), output("B", 0, 0, 1920, 1080)];
    let p = calculate_layout(&outs, 800, 600);
    assert_eq!(output_at(&outs, &p, 300, 300), Some(1));
    assert_eq!(output_at(&outs, &p, 5, 5), None);
}

#[test]
fn layout_short_output_centres_on_its_own_height() {
    let outs = vec![output("A", 0, 0, 1280, 720)];
    let p = calculate_layout(&outs, 800, 600);
    assert_eq!((p.num, p.den), (1600, 8000));
    assert_eq!((p.first_w, p.max_h), (1280, 720));
    let s = project(&p, outs[0].rect());
    assert_eq!(s.unit, 16000);
    assert_eq!(s.top / s.unit, 228);
    assert_eq!(s.top % s.unit, 0);
}

#[test]
fn wrap_fills_lines_greedily() {
    // "Dell Inc. DELL U2415 monitor" with at most 10 characters a line
    assert_eq!(wrap_lines(&vec![4, 4, 4, 5, 7], 10), vec![0, 2, 4]);
    assert_eq!(wrap_lines(&vec![3, 3, 2], 10), vec![0]);
    assert_eq!(wrap_lines(&vec![3, 3, 3], 10), vec![0, 2]);
}

#[test]
fn wrap_puts_long_word_alone() {
    assert_eq!(wrap_lines(&vec![25, 2, 30], 10), vec![0, 1, 2]);
    assert_eq!(wrap_lines(&vec![], 10), Vec::<usize>::new());
}

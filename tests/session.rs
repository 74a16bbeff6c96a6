use mango_display::display::{Effect, MangoDisplay, Message};
use mango_display::normalize::normalize_outputs;
use mango_display::output::{Output, OutputMode, Transform};
use mango_display::text::parse_scale;

fn mode(width: u32, height: u32, current: bool) -> OutputMode {
    OutputMode { width, height, refresh_mhz: 60000, current, preferred: false }
}

fn output(name: &str, x: i32, y: i32) -> Output {
    Output {
        name: name.to_string(),
        description: String::new(),
        physical_size: String::new(),
        position: (x, y),
        scale: 100,
        transform: Transform::Normal,
        enabled: true,
        modes: vec![mode(1920, 1080, true), mode(1920, 1080, false), mode(1280, 720, false)],
    }
}

fn positions(outs: &[Output]) -> Vec<(i32, i32)> {
    outs.iter().map(|o| o.position).collect()
}

fn current_count(o: &Output) -> usize {
    o.modes.iter().filter(|m| m.current).count()
}

#[test]
fn normalize_shifts_negative_minimum_to_zero() {
    let mut outs = vec![output("A", -100, 50), output("B", 1820, -20)];
    assert!(normalize_outputs(&mut outs));
    assert_eq!(positions(&outs), vec![(0, 70), (1920, 0)]);
}

#[test]
fn normalize_twice_is_once() {
    let mut outs = vec![output("A", -5, -7), output("B", 30, 40), output("C", 12, -1)];
    normalize_outputs(&mut outs);
    let once = positions(&outs);
    assert!(!normalize_outputs(&mut outs));
    assert_eq!(positions(&outs), once);
}

#[test]
fn normalize_minimum_is_zero_on_each_axis() {
    let mut outs = vec![output("A", -300, 10), output("B", 500, -600), output("C", 40, 40)];
    normalize_outputs(&mut outs);
    assert_eq!(outs.iter().map(|o| o.position.0).min(), Some(0));
    assert_eq!(outs.iter().map(|o| o.position.1).min(), Some(0));
}

#[test]
fn normalize_leaves_positive_layout_alone() {
    let mut outs = vec![output("A", 100, 200), output("B", 2020, 200)];
    assert!(!normalize_outputs(&mut outs));
    assert_eq!(positions(&outs), vec![(100, 200), (2020, 200)]);
}

#[test]
fn normalize_empty_arrangement() {
    let mut outs: Vec<Output> = vec![];
    assert!(!normalize_outputs(&mut outs));
    assert!(outs.is_empty());
}

#[test]
fn normalize_saturates_at_largest_coordinate() {
    let mut outs = vec![output("A", -10, 0), output("B", i32::MAX - 5, 0)];
    normalize_outputs(&mut outs);
    assert_eq!(positions(&outs), vec![(0, 0), (i32::MAX, 0)]);
}

#[test]
fn new_session_selects_first_output() {
    let app = MangoDisplay::new(vec![output("A", 0, 0), output("B", 1920, 0)]);
    assert_eq!(app.selected(), Some(0));
    let empty = MangoDisplay::new(vec![]);
    assert_eq!(empty.selected(), None);
}

#[test]
fn click_selects_and_invalidates() {
    let mut app = MangoDisplay::new(vec![output("A", 0, 0), output("B", 1920, 0)]);
    assert!(app.take_layout_stale());
    assert!(!app.take_layout_stale());
    assert_eq!(app.update(Message::MonitorClicked(1)), Effect::Nothing);
    assert_eq!(app.selected(), Some(1));
    assert!(app.take_layout_stale());
}

#[test]
fn click_out_of_range_is_ignored() {
    let mut app = MangoDisplay::new(vec![output("A", 0, 0)]);
    app.take_layout_stale();
    app.update(Message::MonitorClicked(3));
    assert_eq!(app.selected(), Some(0));
    assert!(!app.take_layout_stale());
}

#[test]
fn positioned_moves_named_output() {
    let mut app = MangoDisplay::new(vec![output("A", 0, 0), output("B", 1920, 0)]);
    app.update(Message::MonitorPositioned(1, 1930, 10));
    assert_eq!(positions(app.outputs()), vec![(0, 0), (1930, 10)]);
    app.update(Message::MonitorPositioned(7, 1, 1));
    assert_eq!(positions(app.outputs()), vec![(0, 0), (1930, 10)]);
}

#[test]
fn typed_position_edits_selected_output() {
    let mut app = MangoDisplay::new(vec![output("A", 0, 0), output("B", 1920, 0)]);
    app.update(Message::MonitorClicked(1));
    app.update(Message::XChanged("2000".to_string()));
    app.update(Message::YChanged("+15".to_string()));
    assert_eq!(app.outputs()[1].position, (2000, 15));
    assert_eq!(app.outputs()[0].position, (0, 0));
}

#[test]
fn typed_position_rejects_bad_text_and_negatives() {
    let mut app = MangoDisplay::new(vec![output("A", 40, 50)]);
    app.take_layout_stale();
    app.update(Message::XChanged("abc".to_string()));
    app.update(Message::XChanged("".to_string()));
    app.update(Message::YChanged("-3".to_string()));
    app.update(Message::XChanged("99999999999".to_string()));
    assert_eq!(app.outputs()[0].position, (40, 50));
    assert!(!app.take_layout_stale());
}

#[test]
fn position_steps_stop_at_zero() {
    let mut app = MangoDisplay::new(vec![output("A", 0, 1)]);
    app.update(Message::XDec);
    app.update(Message::YDec);
    app.update(Message::YDec);
    assert_eq!(app.outputs()[0].position, (0, 0));
    app.update(Message::XInc);
    app.update(Message::YInc);
    assert_eq!(app.outputs()[0].position, (1, 1));
}

#[test]
fn position_step_saturates_at_largest() {
    let mut app = MangoDisplay::new(vec![output("A", i32::MAX, 0)]);
    app.update(Message::XInc);
    assert_eq!(app.outputs()[0].position, (i32::MAX, 0));
}

#[test]
fn edits_need_a_selection() {
    let mut app = MangoDisplay::new(vec![]);
    app.take_layout_stale();
    app.update(Message::XInc);
    app.update(Message::ScaleInc);
    app.update(Message::EnabledToggled(false));
    assert!(!app.take_layout_stale());
}

#[test]
fn typed_scale_in_hundredths() {
    let mut app = MangoDisplay::new(vec![output("A", 0, 0)]);
    app.update(Message::ScaleChanged("1.25".to_string()));
    assert_eq!(app.outputs()[0].scale, 125);
    app.update(Message::ScaleChanged("2".to_string()));
    assert_eq!(app.outputs()[0].scale, 200);
}

#[test]
fn typed_scale_must_exceed_floor() {
    let mut app = MangoDisplay::new(vec![output("A", 0, 0)]);
    app.update(Message::ScaleChanged("0.1".to_string()));
    assert_eq!(app.outputs()[0].scale, 100);
    app.update(Message::ScaleChanged("x1".to_string()));
    assert_eq!(app.outputs()[0].scale, 100);
    app.update(Message::ScaleChanged("0.11".to_string()));
    assert_eq!(app.outputs()[0].scale, 11);
}

#[test]
fn scale_steps() {
    let mut app = MangoDisplay::new(vec![output("A", 0, 0)]);
    app.update(Message::ScaleInc);
    assert_eq!(app.outputs()[0].scale, 105);
    app.update(Message::ScaleDec);
    app.update(Message::ScaleDec);
    assert_eq!(app.outputs()[0].scale, 95);
}

#[test]
fn scale_step_keeps_scale_above_floor() {
    let mut app = MangoDisplay::new(vec![output("A", 0, 0)]);
    app.update(Message::ScaleChanged("0.15".to_string()));
    app.update(Message::ScaleDec);
    assert_eq!(app.outputs()[0].scale, 15);
    app.update(Message::ScaleChanged("0.16".to_string()));
    app.update(Message::ScaleDec);
    assert_eq!(app.outputs()[0].scale, 11);
}

#[test]
fn resolution_choice_keeps_one_current_mode() {
    let mut app = MangoDisplay::new(vec![output("A", 0, 0)]);
    app.update(Message::ResolutionSelected(2));
    let o = &app.outputs()[0];
    assert_eq!(current_count(o), 1);
    assert!(o.modes[2].current);
    assert_eq!(o.logical_size(), (1280, 720));
    app.update(Message::ResolutionSelected(9));
    let o = &app.outputs()[0];
    assert_eq!(current_count(o), 1);
    assert!(o.modes[2].current);
}

#[test]
fn every_message_keeps_one_current_mode() {
    let mut app = MangoDisplay::new(vec![output("A", -4, 0), output("B", 1920, 0)]);
    let msgs = vec![
        Message::ResolutionSelected(1),
        Message::MonitorClicked(1),
        Message::ResolutionSelected(0),
        Message::ResolutionSelected(3),
        Message::ScaleInc,
        Message::TransformSelected(Transform::Rotate270),
        Message::ApplyClicked,
        Message::EnabledToggled(false),
        Message::SaveClicked,
    ];
    for m in msgs {
        app.update(m);
        for o in app.outputs() {
            assert_eq!(current_count(o), 1);
            assert!(o.is_well_formed());
        }
    }
}

#[test]
fn transform_and_enabled_edit_selected_output() {
    let mut app = MangoDisplay::new(vec![output("A", 0, 0)]);
    app.update(Message::TransformSelected(Transform::Rotate90));
    app.update(Message::EnabledToggled(false));
    let o = &app.outputs()[0];
    assert_eq!(o.transform, Transform::Rotate90);
    assert!(!o.enabled);
    assert_eq!(o.logical_size(), (1080, 1920));
}

#[test]
fn apply_asks_caller_and_keeps_arrangement_on_failure() {
    let mut app = MangoDisplay::new(vec![output("A", -100, 0), output("B", 1820, -50)]);
    assert_eq!(app.update(Message::ApplyClicked), Effect::Apply);
    assert_eq!(positions(app.outputs()), vec![(-100, 0), (1820, -50)]);
    assert_eq!(app.normalized_positions(), vec![(0, 50), (1920, 0)]);
    app.take_layout_stale();
    assert!(!app.finish_write(false));
    assert_eq!(positions(app.outputs()), vec![(-100, 0), (1820, -50)]);
    assert!(!app.take_layout_stale());
}

#[test]
fn apply_success_takes_normalized_positions() {
    let mut app = MangoDisplay::new(vec![output("A", -100, 0), output("B", 1820, -50)]);
    app.update(Message::ApplyClicked);
    app.take_layout_stale();
    assert!(app.finish_write(true));
    assert_eq!(positions(app.outputs()), vec![(0, 50), (1920, 0)]);
    assert!(app.take_layout_stale());
}

#[test]
fn save_asks_caller_and_commits_on_success() {
    let mut app = MangoDisplay::new(vec![output("A", 0, -8)]);
    assert_eq!(app.update(Message::SaveClicked), Effect::Save);
    assert_eq!(positions(app.outputs()), vec![(0, -8)]);
    assert!(app.finish_write(true));
    assert_eq!(positions(app.outputs()), vec![(0, 0)]);
    app.take_layout_stale();
    assert_eq!(app.update(Message::SaveClicked), Effect::Save);
    assert!(!app.finish_write(true));
    assert!(!app.take_layout_stale());
}

#[test]
fn large_scales_are_kept() {
    let mut app = MangoDisplay::new(vec![output("A", 0, 0)]);
    app.update(Message::ScaleChanged("2000".to_string()));
    assert_eq!(app.outputs()[0].scale, 200000);
    app.update(Message::ScaleInc);
    assert_eq!(app.outputs()[0].scale, 200005);
    app.update(Message::ScaleChanged("+1.5".to_string()));
    assert_eq!(app.outputs()[0].scale, 150);
}

#[test]
fn scale_step_stops_at_u32_limit() {
    let mut app = MangoDisplay::new(vec![output("A", 0, 0)]);
    app.update(Message::ScaleChanged("42949672.95".to_string()));
    assert_eq!(app.outputs()[0].scale, u32::MAX);
    app.update(Message::ScaleInc);
    assert_eq!(app.outputs()[0].scale, u32::MAX);
}

#[test]
fn refresh_choices_share_current_resolution() {
    let mut o = output("A", 0, 0);
    assert_eq!(o.refresh_choices(), vec![0, 1]);
    o.modes[0].current = false;
    o.modes[2].current = true;
    assert_eq!(o.refresh_choices(), vec![2]);
}

#[test]
fn scale_text_forms() {
    assert_eq!(parse_scale("1.25"), Some(125));
    assert_eq!(parse_scale("1.259"), Some(125));
    assert_eq!(parse_scale("1."), Some(100));
    assert_eq!(parse_scale(".5"), Some(50));
    assert_eq!(parse_scale("3"), Some(300));
    assert_eq!(parse_scale(""), None);
    assert_eq!(parse_scale("."), None);
    assert_eq!(parse_scale("1.2.3"), None);
    assert_eq!(parse_scale("-1"), None);
    assert_eq!(parse_scale("1234567"), Some(123456700));
    assert_eq!(parse_scale("+1.5"), Some(150));
    assert_eq!(parse_scale("+"), None);
    assert_eq!(parse_scale("00000000000001"), Some(100));
    assert_eq!(parse_scale("42949672.95"), Some(u32::MAX));
    assert_eq!(parse_scale("42949672.96"), None);
    assert_eq!(parse_scale("99999999999"), None);
}

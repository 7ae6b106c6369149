use hyprdie::color::Rgb;
use hyprdie::ui::{
    app_line, copy_swizzled, fill_solid, header_text, hint_text, key_action, output_size, overlay_lines, same_apps,
    Key, KeyAction, LineRole, OutputInfo, OutputMode, UiModel,
};

fn apps(v: &[(&str, &str)]) -> Vec<(String, String)> {
    v.iter().map(|(a, b)| (a.to_string(), b.to_string())).collect()
}

#[test]
fn header_and_hint_texts() {
    assert_eq!(header_text(1, false), "Waiting for 1 app to close:");
    assert_eq!(header_text(3, false), "Waiting for 3 apps to close:");
    assert_eq!(header_text(0, true), "Dry run \u{2014} 0 apps would be closed:");
    assert_eq!(header_text(12, true), "Dry run \u{2014} 12 apps would be closed:");
    assert_eq!(hint_text(true), "ESC \u{2014} quit");
    assert_eq!(hint_text(false), "ESC \u{2014} cancel    F \u{2014} force quit");
}

#[test]
fn app_lines() {
    assert_eq!(app_line(&"kitty".to_string(), &"zsh".to_string()), "kitty \u{2014} zsh");
    assert_eq!(app_line(&"kitty".to_string(), &"".to_string()), "kitty");
    assert_eq!(app_line(&"".to_string(), &"zsh".to_string()), "zsh");
}

#[test]
fn overlay_lines_in_order() {
    let lines = overlay_lines(&"Bye".to_string(), &apps(&[("a", "b"), ("c", "")]), 2, false);
    assert_eq!(lines.len(), 4);
    assert_eq!(lines[0].text, "Bye");
    assert_eq!(lines[0].role, LineRole::Title);
    assert_eq!(lines[1].text, "Waiting for 2 apps to close:");
    assert_eq!(lines[1].role, LineRole::Heading);
    assert_eq!(lines[2].text, "a \u{2014} b");
    assert_eq!(lines[3].text, "c");
    assert_eq!(lines[3].role, LineRole::App);
}

#[test]
fn output_sizes() {
    let scaled = OutputInfo { logical_size: Some((1920, 1080)), scale_factor: 2, modes: vec![] };
    assert_eq!(output_size(&vec![None, Some(scaled)]), Some((3840, 2160)));
    let by_mode = OutputInfo {
        logical_size: Some((0, 0)),
        scale_factor: 0,
        modes: vec![
            OutputMode { dimensions: (640, 480), current: false },
            OutputMode { dimensions: (2560, 1440), current: true },
        ],
    };
    assert_eq!(output_size(&vec![Some(by_mode)]), Some((2560, 1440)));
    let nothing = OutputInfo { logical_size: None, scale_factor: 1, modes: vec![] };
    let unscaled = OutputInfo { logical_size: Some((800, 600)), scale_factor: -3, modes: vec![] };
    assert_eq!(output_size(&vec![Some(nothing), Some(unscaled)]), Some((800, 600)));
    assert_eq!(output_size(&vec![]), None);
}

#[test]
fn configure_and_draw_sizes() {
    let mut ui = UiModel::new(apps(&[("a", "")]));
    assert_eq!(ui.last_poll, None);
    assert_eq!(ui.count, 1);
    assert!(ui.configure((0, 0), None));
    assert_eq!((ui.width, ui.height), (1, 1));
    assert_eq!(ui.draw_size(Some((1280, 720))), (1280, 720));
    assert!(!ui.configure((1920, 1080), Some((5, 5))));
    assert_eq!((ui.width, ui.height), (1920, 1080));
    assert_eq!(ui.draw_size(None), (1920, 1080));
    let mut tiny = UiModel::new(vec![]);
    tiny.width = 0;
    assert_eq!(tiny.draw_size(None), (1, 1));
}

#[test]
fn polls_and_app_updates() {
    let mut ui = UiModel::new(apps(&[("a", "b")]));
    assert!(ui.poll(0, 150));
    assert!(!ui.poll(100_000_000, 150));
    assert!(ui.poll(150_000_000, 150));
    assert_eq!(ui.last_poll, Some(150_000_000));
    assert!(!ui.update_apps(apps(&[("a", "b")])));
    assert!(ui.update_apps(apps(&[])));
    assert_eq!(ui.count, 0);
    assert!(same_apps(&apps(&[("x", "y")]), &apps(&[("x", "y")])));
    assert!(!same_apps(&apps(&[("x", "y")]), &apps(&[("x", "z")])));
}

#[test]
fn keys() {
    assert_eq!(key_action(Key::Escape), KeyAction::Cancel);
    assert_eq!(key_action(Key::F), KeyAction::ForceFinish);
    assert_eq!(key_action(Key::Other), KeyAction::Ignore);
}

#[test]
fn pixel_fills() {
    let mut canvas = vec![9u8; 10];
    fill_solid(&mut canvas, Rgb::new(1, 2, 3));
    assert_eq!(canvas, vec![1, 2, 3, 255, 1, 2, 3, 255, 9, 9]);
    let mut canvas = vec![0u8; 12];
    copy_swizzled(&mut canvas, &[10, 20, 30, 40, 50, 60, 70, 80]);
    assert_eq!(canvas, vec![30, 20, 10, 40, 70, 60, 50, 80, 0, 0, 0, 0]);
}

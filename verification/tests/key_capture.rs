use simplecommander::keymap::{capture_binding, Capture, Chord, KeyPress, ModifierState};

fn index_of(key: egui::Key) -> usize {
    egui::Key::ALL.iter().position(|k| *k == key).unwrap()
}

fn mods(ctrl: bool, command: bool, alt: bool, shift: bool) -> ModifierState {
    ModifierState { ctrl, command, alt, shift }
}

fn press(key: egui::Key, m: ModifierState) -> KeyPress {
    KeyPress { key: index_of(key), pressed: true, modifiers: m, repeat: false }
}

#[test]
fn a_key_press_becomes_a_chord_with_command_as_ctrl() {
    let c = Chord::from_egui(mods(false, true, false, true), index_of(egui::Key::F)).unwrap();
    assert!(c.ctrl && !c.alt && c.shift);
    assert_eq!(c.key, "F");
    assert_eq!(c.to_storage(), "Ctrl+Shift+F");
    assert!(Chord::from_egui(mods(false, false, false, false), egui::Key::ALL.len()).is_none());
}

#[test]
fn a_chord_holds_down_its_own_modifiers() {
    let c = Chord::new(true, false, true, "C");
    assert_eq!(c.modifiers(), mods(true, false, false, true));
}

#[test]
fn escape_cancels_and_the_first_real_press_binds() {
    let presses = vec![press(egui::Key::A, mods(true, false, false, false))];
    assert!(matches!(capture_binding(true, &presses), Capture::Cancel));
    match capture_binding(false, &presses) {
        Capture::Bound(c) => assert_eq!(c.to_storage(), "Ctrl+A"),
        _ => panic!("expected a binding"),
    }
}

#[test]
fn repeats_releases_tab_and_escape_do_not_bind() {
    let mut repeat = press(egui::Key::B, mods(false, false, false, false));
    repeat.repeat = true;
    let mut release = press(egui::Key::C, mods(false, false, false, false));
    release.pressed = false;
    let tab = press(egui::Key::Tab, mods(false, false, false, false));
    let esc = press(egui::Key::Escape, mods(true, false, false, false));
    let waiting = vec![repeat, release, tab, esc];
    assert!(matches!(capture_binding(false, &waiting), Capture::Wait));
    let mut then = waiting.clone();
    then.push(press(egui::Key::F5, mods(false, false, true, false)));
    match capture_binding(false, &then) {
        Capture::Bound(c) => assert_eq!(c.to_storage(), "Alt+F5"),
        _ => panic!("expected a binding"),
    }
    assert!(matches!(capture_binding(false, &Vec::new()), Capture::Wait));
}

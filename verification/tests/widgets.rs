use soup_ui::input::{contains_button, MouseButton, NamedKey};
use soup_ui::widgets::logic::{dropdown_step, tab_choice, toggle_value};
use soup_ui::widgets::text_field::{typeable_chars, TextField};
use soup_ui::widgets::WidgetId;

#[test]
fn widget_id_is_fnv1a_of_the_label() {
    assert_eq!(WidgetId::of("").0, 0xcbf2_9ce4_8422_2325);
    assert_eq!(WidgetId::of("a").0, 0xaf63_dc4c_8601_ec8c);
    assert_eq!(WidgetId::of("foobar").0, 0x8594_4171_f739_67e8);
    assert_eq!(WidgetId::of("save"), WidgetId::of("save"));
    assert_ne!(WidgetId::of("save"), WidgetId::of("load"));
}

#[test]
fn mouse_button_membership() {
    let v = vec![MouseButton::Right, MouseButton::Left];
    assert!(contains_button(&v, MouseButton::Left));
    assert!(!contains_button(&v, MouseButton::Middle));
    assert!(!contains_button(&Vec::new(), MouseButton::Left));
}

#[test]
fn typing_filters_control_characters() {
    assert_eq!(typeable_chars("a\u{8}b\nc\u{7f}"), vec!['a', 'b', 'c']);
}

#[test]
fn text_field_typing_and_keys() {
    let mut f = TextField::new("ac");
    f.focus_at(1);
    assert!(f.insert_typed(&vec!['b']));
    assert_eq!(f.text(), "abc");
    assert_eq!(f.cursor(), 2);
    assert!(!f.insert_typed(&Vec::new()));
    assert!(!f.apply_key(NamedKey::ArrowRight));
    assert_eq!(f.cursor(), 3);
    assert!(!f.apply_key(NamedKey::ArrowRight));
    assert_eq!(f.cursor(), 3);
    assert!(!f.apply_key(NamedKey::Delete));
    assert!(f.apply_key(NamedKey::Backspace));
    assert_eq!(f.text(), "ab");
    assert!(!f.apply_key(NamedKey::Home));
    assert_eq!(f.cursor(), 0);
    assert!(!f.apply_key(NamedKey::Backspace));
    assert!(f.apply_key(NamedKey::Delete));
    assert_eq!(f.text(), "b");
    assert!(!f.apply_key(NamedKey::End));
    assert_eq!(f.cursor(), 1);
    assert!(!f.apply_key(NamedKey::ArrowLeft));
    assert_eq!(f.cursor(), 0);
    assert!(!f.apply_key(NamedKey::Enter));
    assert_eq!(f.text(), "b");
    assert_eq!(f.chars(), &vec!['b']);
}

#[test]
fn toggle_flips_only_on_click() {
    assert_eq!(toggle_value(true, true), Some(false));
    assert_eq!(toggle_value(false, true), Some(true));
    assert_eq!(toggle_value(true, false), None);
}

#[test]
fn dropdown_opens_chooses_and_closes() {
    // closed: a click on the header opens it; other events are ignored
    assert_eq!(dropdown_step(false, true, None, false), (true, None));
    assert_eq!(dropdown_step(false, false, Some(2), true), (false, None));
    // open: choosing an option closes it and reports the option
    assert_eq!(dropdown_step(true, false, Some(1), false), (false, Some(1)));
    // open: a press outside closes it
    assert_eq!(dropdown_step(true, false, None, true), (false, None));
    // open: header click closes it
    assert_eq!(dropdown_step(true, true, None, false), (false, None));
    // open, nothing happens
    assert_eq!(dropdown_step(true, false, None, false), (true, None));
}

#[test]
fn tab_choice_ignores_the_selected_tab() {
    assert_eq!(tab_choice(1, &vec![false, true, false]), None);
    assert_eq!(tab_choice(1, &vec![false, false, true]), Some(2));
    assert_eq!(tab_choice(0, &vec![false, true, true]), Some(2));
    assert_eq!(tab_choice(0, &Vec::new()), None);
}

#[test]
fn typing_then_backspace_gives_the_field_back() {
    let mut f = TextField::new("héllo");
    f.focus_at(2);
    assert!(f.insert_typed(&vec!['ß']));
    assert_eq!(f.text(), "héßllo");
    assert_eq!(f.cursor(), 3);
    assert!(f.apply_key(NamedKey::Backspace));
    assert_eq!(f.text(), "héllo");
    assert_eq!(f.cursor(), 2);
}

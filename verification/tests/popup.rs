use omnyssh::popup::{field_window, masked, update_button_label, UpdateButton};

#[test]
fn the_form_window_always_holds_the_focused_field() {
    for count in 1..=12 {
        for capacity in 0..=13 {
            for focused in 0..count {
                let window = field_window(count, focused, capacity);
                assert!(
                    window.contains(&focused),
                    "{count} fields, {capacity} slots, focus {focused}: {window:?}"
                );
                assert_eq!(window.len(), capacity.clamp(1, count));
                assert!(window.end <= count);
            }
        }
    }
}

#[test]
fn the_form_window_scrolls_only_past_the_last_slot() {
    // 12 fields at the 80x24 minimum leave room for 9.
    assert_eq!(field_window(12, 0, 9), 0..9);
    assert_eq!(field_window(12, 8, 9), 0..9);
    assert_eq!(field_window(12, 9, 9), 1..10);
    assert_eq!(field_window(12, 11, 9), 3..12);
    assert_eq!(field_window(12, 11, 20), 0..12);
}

#[test]
fn an_empty_form_has_an_empty_window() {
    assert_eq!(field_window(0, 0, 5), 0..0);
}

#[test]
fn a_secret_shows_one_star_per_character() {
    assert_eq!(masked(""), "  | ");
    assert_eq!(masked("pässwörd"), "  ********| ");
}

#[test]
fn the_primary_button_updates_only_where_it_can() {
    assert_eq!(update_button_label(UpdateButton::Primary, true), "Update now");
    assert_eq!(update_button_label(UpdateButton::Primary, false), "Remind me later");
    assert_eq!(update_button_label(UpdateButton::Skip, true), "Skip this version");
    assert_eq!(update_button_label(UpdateButton::Disable, false), "Don't check again");
}

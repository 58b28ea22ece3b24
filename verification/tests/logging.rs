use lacabra_image_api::logger::{format_target, try_format_target};

#[test]
fn a_short_target_is_padded_to_the_width() {
    assert_eq!(format_target("core::logger", 20), "core::logger        ");
}

#[test]
fn a_target_of_the_width_is_left_as_it_is() {
    assert_eq!(format_target("abcdef", 6), "abcdef");
}

#[test]
fn a_long_target_is_cut_and_ends_in_dots() {
    assert_eq!(
        format_target("rocket::server::connection::handler", 26),
        "rocket::server::connect..."
    );
    assert_eq!(format_target("rocket::server::connection::handler", 26).len(), 26);
}

#[test]
fn an_empty_target_is_all_blanks() {
    assert_eq!(format_target("", 4), "    ");
    assert_eq!(format_target("", 0), "");
}

#[test]
fn widths_count_bytes() {
    assert_eq!(format_target("\u{e9}t\u{e9}", 6), "\u{e9}t\u{e9} ");
    assert_eq!(format_target("ab\u{e9}cdefgh", 7), "ab\u{e9}...");
}

#[test]
fn a_column_of_three_holds_the_dots_alone() {
    assert_eq!(format_target("abcd", 3), "...");
}

#[test]
fn a_target_that_can_be_laid_out_is() {
    assert_eq!(try_format_target("core::logger", 20), Some("core::logger        ".to_string()));
    assert_eq!(try_format_target("abcdefgh", 6), Some("abc...".to_string()));
    assert_eq!(try_format_target("ab\u{e9}cdefgh", 7), Some("ab\u{e9}...".to_string()));
    assert_eq!(try_format_target("", 0), Some(String::new()));
}

#[test]
fn a_target_that_cannot_be_cut_is_not_laid_out() {
    assert_eq!(try_format_target("abc", 2), None);
    assert_eq!(try_format_target("a", 0), None);
    assert_eq!(try_format_target("ab\u{e9}cdefgh", 6), None);
}

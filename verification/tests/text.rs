use sentinel_api::markup::{
    author_and_views_markup, bold_title_markup, dislikes_markup, error_markup, escape_markup,
    fetch_failed_markup, likes_markup, list_title_markup, video_failed_message, views_markup,
};
use sentinel_api::text::{keep_digits, same_text, second_field_of, strip_duration, trim_spaces};

#[test]
fn digits_are_kept_in_order() {
    assert_eq!(keep_digits("1,234,567 views"), "1234567");
    assert_eq!(keep_digits("No views"), "");
    assert_eq!(keep_digits("\u{661}2x3"), "23");
}

#[test]
fn spaces_are_trimmed_at_both_ends() {
    assert_eq!(trim_spaces("  \n\u{a0}Title here\u{a0} \t"), "Title here");
    assert_eq!(trim_spaces("inner  space"), "inner  space");
    assert_eq!(trim_spaces(" \u{2003} "), "");
}

#[test]
fn duration_noise_is_dropped() {
    assert_eq!(strip_duration(" - Duration: 4:13."), "4:13");
    assert_eq!(strip_duration("- Duration: 1:02:03."), "1:02:03");
    assert_eq!(strip_duration("4::\t5:6"), "45:6");
    assert_eq!(strip_duration("12::x"), "12::");
}

#[test]
fn second_piece_of_a_split() {
    assert_eq!(second_field_of("/watch?v=abc", '=').as_deref(), Some("abc"));
    assert_eq!(second_field_of("a=b=c", '=').as_deref(), Some("b"));
    assert_eq!(second_field_of("a=", '=').as_deref(), Some(""));
    assert_eq!(second_field_of("plain", '='), None);
}

#[test]
fn texts_compare_by_characters() {
    assert!(same_text("GtkSpinner", "GtkSpinner"));
    assert!(!same_text("GtkSpinner", "GtkSpinne"));
    assert!(!same_text("br", "bR"));
}

#[test]
fn markup_escapes_text() {
    assert_eq!(escape_markup("<em>Hej!</em>"), "&lt;em&gt;Hej!&lt;/em&gt;");
    assert_eq!(escape_markup("Tom & \"Jerry's\""), "Tom &amp; &quot;Jerry&#x27;s&quot;");
    assert_eq!(
        list_title_markup("A <b> title"),
        "<span weight=\"semibold\" font=\"11\">A &lt;b&gt; title</span>"
    );
    assert_eq!(bold_title_markup("R&D"), "<span weight=\"bold\">R&amp;D</span>");
    assert_eq!(author_and_views_markup("Me & you", "1.2K"), "Me &amp; you \u{b7} 1.2K views");
}

#[test]
fn count_and_message_markup() {
    assert_eq!(views_markup("12K"), "12K views");
    assert_eq!(likes_markup("3"), "\u{1f44d} 3");
    assert_eq!(dislikes_markup("4"), "\u{1f44e} 4");
    assert_eq!(error_markup("Oops"), "<span size=\"x-large\">Oops</span>");
    assert_eq!(
        fetch_failed_markup(),
        "<span size=\"x-large\">Couldn't fetch data.\nAre you connected to the internet?</span>"
    );
    assert_eq!(video_failed_message(), "Could not fetch video.");
}

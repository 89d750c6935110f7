use csview::cells::Cell;
use csview::input::bottom_preview;
use csview::terminal::WinInfo;

#[test]
fn bottom_preview_sanitizes_tabs_without_changing_stored_content() {
    let (preview, truncated) = bottom_preview("a\tb", 10);

    assert_eq!(preview, "a b");
    assert!(!truncated);
}

#[test]
fn yank_replaces_existing_yank_buffer() {
    let mut win = WinInfo::new();

    win.set_yanked(&Cell::new("first"));
    assert_eq!(win.yanked, "first");

    win.set_yanked(&Cell::new("second\tvalue"));
    assert_eq!(win.yanked, "second\tvalue");
}

#[test]
fn bottom_preview_cuts_long_text_three_short() {
    let (preview, truncated) = bottom_preview("abcdefghij", 6);
    assert_eq!(preview, "abc");
    assert!(truncated);
}

#[test]
fn bottom_preview_of_text_that_just_fits_is_whole() {
    let (preview, truncated) = bottom_preview("abcdef", 6);
    assert_eq!(preview, "abcdef");
    assert!(!truncated);
}

#[test]
fn terminal_safe_prefix_blanks_escape_and_delete() {
    let s = WinInfo::terminal_safe_prefix("a\x1bb\x7fc", 10);
    assert_eq!(s, "a b c");
    let t = WinInfo::terminal_safe_prefix("hello", 2);
    assert_eq!(t, "he");
}

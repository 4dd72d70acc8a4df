use ruxius::ui::{bold, cyan, dim, green, paint, red, spinner_clear_width, wants_color, yellow};

#[test]
fn colors_wrap_text_in_sgr_codes() {
    assert_eq!(green("ok", true), "\x1b[32mok\x1b[0m");
    assert_eq!(red("x", true), "\x1b[31mx\x1b[0m");
    assert_eq!(yellow("x", true), "\x1b[33mx\x1b[0m");
    assert_eq!(cyan("x", true), "\x1b[36mx\x1b[0m");
    assert_eq!(bold("x", true), "\x1b[1mx\x1b[0m");
    assert_eq!(dim("x", true), "\x1b[2mx\x1b[0m");
    assert_eq!(paint("35", "m", true), "\x1b[35mm\x1b[0m");
}

#[test]
fn without_color_text_is_bare() {
    assert_eq!(green("ok", false), "ok");
    assert_eq!(dim("", false), "");
}

#[test]
fn color_only_on_a_terminal_without_no_color() {
    assert!(wants_color(false, true));
    assert!(!wants_color(true, true));
    assert!(!wants_color(false, false));
}

#[test]
fn spinner_line_width() {
    assert_eq!(spinner_clear_width("Packing"), 11);
    assert_eq!(spinner_clear_width("é"), 5);
}

use slipmesh_routeros::output::{
    colorize_diff_line, use_color, ANSI_GREEN, ANSI_RED, ANSI_RESET, ANSI_YELLOW,
};

#[test]
fn colorizes_add_update_remove_by_leading_marker() {
    assert_eq!(
        colorize_diff_line("+ interface wireguard: foo"),
        format!("{ANSI_GREEN}+ interface wireguard: foo{ANSI_RESET}")
    );
    assert_eq!(
        colorize_diff_line("~ routing ospf area (*1): foo"),
        format!("{ANSI_YELLOW}~ routing ospf area (*1): foo{ANSI_RESET}")
    );
    assert_eq!(
        colorize_diff_line("- interface wireguard: foo"),
        format!("{ANSI_RED}- interface wireguard: foo{ANSI_RESET}")
    );
}

#[test]
fn passes_through_unrecognized_lines_unstyled() {
    assert_eq!(colorize_diff_line("not a diff line"), "not a diff line");
    assert_eq!(colorize_diff_line(""), "");
}

#[test]
fn the_colours_are_those_of_a_terminal() {
    assert_eq!(colorize_diff_line("+ a"), "\x1b[32m+ a\x1b[0m");
    assert_eq!(colorize_diff_line("- a"), "\x1b[31m- a\x1b[0m");
    assert_eq!(colorize_diff_line("~ a"), "\x1b[33m~ a\x1b[0m");
}

#[test]
fn colour_needs_a_terminal_and_no_objection() {
    assert!(use_color(true, false));
    assert!(!use_color(true, true));
    assert!(!use_color(false, false));
    assert!(!use_color(false, true));
}

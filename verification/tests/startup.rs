use tpdf::app::ZoomMode;
use tpdf::startup::{
    ensure_terminal_support, initial_page, initial_zoom, StartError, TerminalEnvironment,
};

fn environment(term_program: &str, term: &str) -> TerminalEnvironment {
    TerminalEnvironment {
        term_program: term_program.to_string(),
        term: term.to_string(),
        kitty_window_id: false,
        zellij: false,
    }
}

#[test]
fn pages_are_counted_from_one() {
    assert_eq!(initial_page(1), Ok(0));
    assert_eq!(initial_page(37), Ok(36));
    assert_eq!(initial_page(0), Err(StartError::PageZero));
    assert_eq!(StartError::PageZero.message(), "--page is one-based and must be at least 1");
}

#[test]
fn zoom_is_positive() {
    assert_eq!(initial_zoom(None), Ok(ZoomMode::Fit));
    assert_eq!(initial_zoom(Some(125)), Ok(ZoomMode::Fixed(125)));
    assert_eq!(initial_zoom(Some(0)), Err(StartError::ZoomZero));
    assert_eq!(StartError::ZoomZero.message(), "--zoom must be greater than zero");
}

#[test]
fn terminals_that_show_images_are_accepted() {
    for (term_program, term) in [
        ("ghostty", ""),
        ("Ghostty", ""),
        ("WezTerm", ""),
        ("", "xterm-ghostty"),
        ("", "xterm-kitty"),
        ("", "XTERM-KITTY"),
        ("a ghostty b", "dumb"),
    ] {
        assert_eq!(ensure_terminal_support(false, &environment(term_program, term)), Ok(()));
    }
    let mut kitty = environment("", "xterm");
    kitty.kitty_window_id = true;
    assert_eq!(ensure_terminal_support(false, &kitty), Ok(()));
    let mut zellij = environment("", "xterm");
    zellij.zellij = true;
    assert_eq!(ensure_terminal_support(false, &zellij), Ok(()));
}

#[test]
fn other_terminals_are_rejected_unless_forced() {
    for (term_program, term) in [
        ("", ""),
        ("Apple_Terminal", "xterm-256color"),
        ("kitty", "wezterm"),
        ("ghost", "kitt"),
        ("ghosttghostt", "ki tty"),
    ] {
        let environment = environment(term_program, term);
        assert_eq!(
            ensure_terminal_support(false, &environment),
            Err(StartError::UnsupportedTerminal),
        );
        assert_eq!(ensure_terminal_support(true, &environment), Ok(()));
    }
    assert_eq!(
        StartError::UnsupportedTerminal.message(),
        "no Kitty graphics capable terminal detected (tpdf is intended for Ghostty; use --force to override)",
    );
}

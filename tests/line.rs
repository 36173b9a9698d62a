use rush::line::{get_caret_notation, print_prompt, Line};

fn feed(line: &mut Line, text: &str) -> String {
    let mut out = String::new();
    for c in text.chars() {
        out.extend(line.append(c));
    }
    out
}

fn text(line: &Line) -> String {
    line.line.iter().collect()
}

#[test]
fn typing_echoes_characters() {
    let mut line = Line::new();
    assert_eq!(feed(&mut line, "ab"), "ab");
    assert_eq!(text(&line), "ab");
}

#[test]
fn typing_in_the_middle_redraws_the_rest() {
    let mut line = Line::new();
    feed(&mut line, "ac");
    assert_eq!(feed(&mut line, "\u{1b}[D"), "\u{1b}[1D");
    assert_eq!(feed(&mut line, "b"), "bc\u{8}");
    assert_eq!(text(&line), "abc");
}

#[test]
fn delete_at_end_and_in_the_middle() {
    let mut line = Line::new();
    feed(&mut line, "abc");
    assert_eq!(feed(&mut line, "\u{7f}"), "\u{8} \u{8}");
    assert_eq!(text(&line), "ab");
    feed(&mut line, "\u{1b}[D");
    assert_eq!(feed(&mut line, "\u{7f}"), "\u{8}b \u{8}\u{8}");
    assert_eq!(text(&line), "b");
    feed(&mut line, "\u{1b}[H");
    assert_eq!(feed(&mut line, "\u{7f}"), "");
    assert_eq!(text(&line), "b");
}

#[test]
fn cursor_moves_with_counts_and_bounds() {
    let mut line = Line::new();
    feed(&mut line, "hello");
    assert_eq!(feed(&mut line, "\u{1b}[12D"), "");
    assert_eq!(feed(&mut line, "\u{1b}[3D"), "\u{1b}[3D");
    assert_eq!(feed(&mut line, "\u{1b}[F"), "\u{1b}[3C");
    assert_eq!(feed(&mut line, "\u{1b}OH"), "\u{1b}[5D");
    assert_eq!(feed(&mut line, "\u{9b}C"), "\u{1b}[1C");
    assert_eq!(feed(&mut line, "x"), "xello\u{8}\u{8}\u{8}\u{8}");
    assert_eq!(text(&line), "hxello");
}

#[test]
fn lone_escape_is_ignored() {
    let mut line = Line::new();
    assert_eq!(feed(&mut line, "\u{1b}q"), "");
    assert_eq!(feed(&mut line, "z"), "z");
}

#[test]
fn history_recall_with_arrows() {
    let mut line = Line::new();
    line.history.push("first".to_string());
    line.history.push("second".to_string());
    assert_eq!(feed(&mut line, "\u{1b}[A"), "\u{1b}[2K\r> second");
    assert_eq!(text(&line), "second");
    assert_eq!(feed(&mut line, "\u{1b}[A"), "\u{1b}[2K\r> first");
    assert_eq!(feed(&mut line, "\u{1b}[B"), "\u{1b}[2K\r> second");
    assert_eq!(feed(&mut line, "\u{1b}[B"), "\u{1b}[2K\r> ");
    assert_eq!(text(&line), "");
}

#[test]
fn up_arrow_on_empty_history_does_nothing() {
    let mut line = Line::new();
    feed(&mut line, "ab");
    assert_eq!(feed(&mut line, "\u{1b}[A"), "");
    assert_eq!(text(&line), "ab");
}

#[test]
fn clear_empties_the_line() {
    let mut line = Line::new();
    feed(&mut line, "abc");
    line.clear();
    assert_eq!(text(&line), "");
    assert_eq!(feed(&mut line, "d"), "d");
}

#[test]
fn prompt_and_caret_notation() {
    assert_eq!(print_prompt().iter().collect::<String>(), "> ");
    assert_eq!(get_caret_notation('\u{4}').iter().collect::<String>(), "^D");
    assert_eq!(get_caret_notation('\u{1b}').iter().collect::<String>(), "^[");
}

#[test]
fn huge_counts_are_capped_and_do_not_move() {
    let mut line = Line::new();
    feed(&mut line, "abc");
    assert_eq!(feed(&mut line, "\u{1b}[999999999999999999999999999D"), "");
    assert_eq!(feed(&mut line, "\u{1b}[999999999999999999999999999C"), "");
    assert_eq!(feed(&mut line, "d"), "d");
    assert_eq!(text(&line), "abcd");
}

use lcd_terminal::scrollback::Scrollback;
use lcd_terminal::terminal::TerminalState;

fn cv(s: &str) -> Vec<char> {
    s.chars().collect()
}

fn rows_as_strings(sb: &Scrollback) -> Vec<String> {
    sb.rows.iter().map(|r| r.iter().collect()).collect()
}

#[test]
fn push_keeps_length_and_evicts_oldest() {
    let mut sb = Scrollback::new(3, 10);
    assert_eq!(sb.rows.len(), 3);
    sb.push(cv("r1"));
    sb.push(cv("r2"));
    sb.push(cv("r3"));
    sb.push(cv("r4"));
    assert_eq!(sb.rows.len(), 3);
    assert_eq!(rows_as_strings(&sb), vec!["r2", "r3", "r4"]);
}

#[test]
fn wrap_and_push_empty_gives_one_empty_row() {
    let mut sb = Scrollback::new(3, 10);
    sb.push(cv("x"));
    sb.push(cv("y"));
    sb.push(cv("z"));
    sb.wrap_and_push("");
    assert_eq!(rows_as_strings(&sb), vec!["y", "z", ""]);
}

#[test]
fn wrap_and_push_newline_gives_two_rows() {
    let mut sb = Scrollback::new(2, 10);
    sb.wrap_and_push("a\nb");
    assert_eq!(rows_as_strings(&sb), vec!["a", "b"]);
}

#[test]
fn wrap_and_push_blank_lines_kept() {
    let mut sb = Scrollback::new(3, 10);
    sb.wrap_and_push("a\n\nb");
    assert_eq!(rows_as_strings(&sb), vec!["a", "", "b"]);
}

#[test]
fn wrap_at_width_five_is_lossless_and_bounded() {
    let mut sb = Scrollback::new(2, 5);
    sb.wrap_and_push("abcdefgh");
    let rows = rows_as_strings(&sb);
    assert_eq!(rows, vec!["abcde", "fgh"]);
    for r in &rows {
        assert!(r.len() <= 5);
    }
    assert_eq!(rows.concat(), "abcdefgh");
}

#[test]
fn wrap_exact_width_gives_single_row() {
    let mut sb = Scrollback::new(2, 5);
    sb.wrap_and_push("abcde");
    assert_eq!(rows_as_strings(&sb), vec!["", "abcde"]);
}

#[test]
fn terminal_new_derives_capacity_and_width() {
    let t = TerminalState::new(90, 60);
    // one history row per started glyph row, plus two
    assert_eq!(t.history.rows.len(), 6);
    // one column per glyph width, minus two margin columns
    assert_eq!(t.history.max_width, 8);
    assert!(t.command_line.is_empty());
    assert!(t.previous_command_line.is_empty());
}

#[test]
fn println_scrolls_oldest_rows_off() {
    let mut t = TerminalState::new(45, 30);
    // capacity (30 + 14) / 15 + 2 == 4, max width 45 / 9 - 2 == 3
    assert_eq!(t.history.rows.len(), 4);
    t.println("aaa");
    t.println("bbbb");
    let rows: Vec<String> = t.history.rows.iter().map(|r| r.iter().collect()).collect();
    assert_eq!(rows, vec!["", "aaa", "bbb", "b"]);
    t.println("c");
    t.println("dd");
    let rows: Vec<String> = t.history.rows.iter().map(|r| r.iter().collect()).collect();
    assert_eq!(rows, vec!["bbb", "b", "c", "dd"]);
}

#[test]
fn enter_pushes_prompted_command_and_remembers_it() {
    let mut t = TerminalState::new(90, 60);
    t.append_char('l');
    t.append_char('s');
    t.enter();
    let newest: String = t.history.rows.last().unwrap().iter().collect();
    assert_eq!(newest, "> ls");
    let prev: String = t.previous_command_line.iter().collect();
    assert_eq!(prev, "ls");
    assert!(t.command_line.is_empty());
}

#[test]
fn arrow_up_recalls_once_and_only_once() {
    let mut t = TerminalState::new(90, 60);
    t.append_char('l');
    t.append_char('s');
    t.enter();
    t.arrow_up();
    let cmd: String = t.command_line.iter().collect();
    assert_eq!(cmd, "ls");
    t.arrow_up();
    let cmd: String = t.command_line.iter().collect();
    assert_eq!(cmd, "ls");
    let prev: String = t.previous_command_line.iter().collect();
    assert_eq!(prev, "ls");
}

#[test]
fn append_and_backspace_edit_the_command_line() {
    let mut t = TerminalState::new(90, 60);
    t.append_char('h');
    t.append_char('i');
    t.backspace();
    let cmd: String = t.command_line.iter().collect();
    assert_eq!(cmd, "h");
    t.backspace();
    t.backspace();
    assert!(t.command_line.is_empty());
}

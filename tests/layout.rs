use chat_tui::message::Message;
use chat_tui::screen::{compose_screen, delimiter_line};
use chat_tui::wrap::build_messages_string_list;

fn s(x: &str) -> String {
    x.to_string()
}

fn three_records() -> Vec<String> {
    vec![
        Message::from_strings(s("123"), s("aboba"), s("ABOBA")).to_line(),
        Message::from_strings(s("122"), s("cock"), s("cam")).to_line(),
        Message::from_strings(s("32"), s("cockerel"), s("beef")).to_line(),
    ]
}

#[test]
fn message_line_format() {
    let m = Message::from_strings(s("12:00"), s("ann"), s("hello"));
    assert_eq!(m.to_line(), "[12:00]ann:hello");
    assert_eq!(m.clone().to_line(), "[12:00]ann:hello");
}

#[test]
fn wrap_empty_history() {
    assert!(build_messages_string_list(Vec::new(), 5, 3).is_empty());
    assert!(build_messages_string_list(Vec::new(), 0, 0).is_empty());
}

#[test]
fn wrap_three_records_oldest_on_top() {
    let lines = build_messages_string_list(three_records(), 8, 5);
    let expected: Vec<String> = [
        "[32]c", "ocker", "el:be", "ef", "[122]", "cock:", "cam", "[123]", "aboba", ":ABOB", "A",
    ]
    .iter()
    .map(|x| s(x))
    .collect();
    assert_eq!(lines, expected);
}

#[test]
fn wrap_stops_once_rows_are_filled() {
    let lines = build_messages_string_list(three_records(), 4, 5);
    assert_eq!(lines, vec![s("[123]"), s("aboba"), s(":ABOB"), s("A")]);
    let lines = build_messages_string_list(three_records(), 5, 5);
    assert_eq!(lines.len(), 7);
    assert!(build_messages_string_list(three_records(), 0, 5).is_empty());
}

#[test]
fn wrap_exact_width_and_multibyte() {
    assert_eq!(
        build_messages_string_list(vec![s("abcdef")], 10, 3),
        vec![s("abc"), s("def")]
    );
    assert_eq!(
        build_messages_string_list(vec![s("äöüß"), s("")], 10, 3),
        vec![s("äöü"), s("ß")]
    );
}

#[test]
fn delimiter_spans_columns() {
    assert_eq!(delimiter_line(4), "----");
    assert_eq!(delimiter_line(0), "");
}

#[test]
fn screen_pads_short_history() {
    let rows = compose_screen(vec![s("hello")], 3, 6);
    assert_eq!(
        rows,
        vec![s(""), s("hel"), s("lo"), s("---"), s(""), s("---")]
    );
}

#[test]
fn screen_keeps_newest_lines_at_bottom() {
    let rows = compose_screen(three_records(), 5, 6);
    assert_eq!(
        rows,
        vec![s("aboba"), s(":ABOB"), s("A"), s("-----"), s(""), s("-----")]
    );
}

#[test]
fn screen_with_no_scrollback_room() {
    assert_eq!(compose_screen(three_records(), 2, 3), vec![s("--"), s(""), s("--")]);
}

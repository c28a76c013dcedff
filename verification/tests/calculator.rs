use exactulator::engine::Operator;
use exactulator::gui::{message_for_key, App, Key, Message, MAX_VISIBLE_HISTORY};

fn press(app: &mut App, keys: &str) {
    for key in keys.chars() {
        let message = match key {
            '0'..='9' => Message::Digit(key),
            '.' => Message::Decimal,
            '+' => Message::Operator(Operator::Add),
            '-' => Message::Operator(Operator::Subtract),
            '*' => Message::Operator(Operator::Multiply),
            '/' => Message::Operator(Operator::Divide),
            '=' => Message::Equals,
            'n' => Message::Negate,
            'a' => Message::Answer,
            'c' => Message::Clear,
            'e' => Message::ClearEntry,
            'b' => Message::Backspace,
            _ => panic!("no key {key}"),
        };
        app.update(message);
    }
}

fn lines(app: &App) -> Vec<(String, String)> {
    app.history()
        .iter()
        .map(|entry| (entry.expression.clone(), entry.result.clone()))
        .collect()
}

#[test]
fn starts_empty() {
    let app = App::default();
    assert_eq!(app.display_value(), "");
    assert_eq!(app.last_expression(), "");
    assert!(lines(&app).is_empty());
}

#[test]
fn evaluates_and_logs_an_addition() {
    let mut app = App::default();
    press(&mut app, "12+30=");
    assert_eq!(app.display_value(), "42");
    assert_eq!(app.last_expression(), "12 + 30 =");
    assert_eq!(lines(&app), vec![("12 + 30 =".to_owned(), "42".to_owned())]);
}

#[test]
fn results_are_exact_fractions() {
    let mut app = App::default();
    press(&mut app, "1/3=");
    assert_eq!(app.display_value(), "0.(3)");
    press(&mut app, "*3=");
    assert_eq!(app.display_value(), "1");
    assert_eq!(app.last_expression(), "0.(3) \u{d7} 3 =");
}

#[test]
fn chained_operators_evaluate_left_to_right() {
    let mut app = App::default();
    press(&mut app, "2+3*4=");
    assert_eq!(app.display_value(), "20");
    assert_eq!(
        lines(&app),
        vec![
            ("2 + 3 =".to_owned(), "5".to_owned()),
            ("5 \u{d7} 4 =".to_owned(), "20".to_owned())
        ]
    );
}

#[test]
fn an_operator_on_an_empty_entry_replaces_the_pending_one() {
    let mut app = App::default();
    press(&mut app, "8+-2=");
    assert_eq!(app.display_value(), "6");
    assert_eq!(app.last_expression(), "8 \u{2212} 2 =");
}

#[test]
fn division_by_zero_shows_an_error_until_clear() {
    let mut app = App::default();
    press(&mut app, "1/0=");
    assert_eq!(app.display_value(), "Error");
    assert_eq!(lines(&app), vec![("1 \u{f7} 0 =".to_owned(), "Error".to_owned())]);
    press(&mut app, "5+n.ea=b");
    assert_eq!(app.display_value(), "Error");
    press(&mut app, "c");
    assert_eq!(app.display_value(), "");
    assert!(lines(&app).is_empty());
    press(&mut app, "7");
    assert_eq!(app.display_value(), "7");
}

#[test]
fn clear_resets_display_pending_and_history() {
    let mut app = App::default();
    press(&mut app, "1+2=3+");
    press(&mut app, "c");
    assert_eq!(app.display_value(), "");
    assert_eq!(app.last_expression(), "");
    assert!(lines(&app).is_empty());
    press(&mut app, "4=");
    assert_eq!(app.display_value(), "4");
    press(&mut app, "a");
    assert_eq!(app.display_value(), "4");
}

#[test]
fn clear_entry_clears_only_the_entry() {
    let mut app = App::default();
    press(&mut app, "9+5e6=");
    assert_eq!(app.display_value(), "15");
}

#[test]
fn negate_toggles_the_entry_sign() {
    let mut app = App::default();
    press(&mut app, "5n");
    assert_eq!(app.display_value(), "\u{2212}5");
    press(&mut app, "n");
    assert_eq!(app.display_value(), "5");
    let mut zero = App::default();
    press(&mut zero, "0n");
    assert_eq!(zero.display_value(), "0");
}

#[test]
fn negating_a_standalone_result_is_logged() {
    let mut app = App::default();
    press(&mut app, "1/4=n");
    assert_eq!(app.display_value(), "-0.25");
    assert_eq!(app.last_expression(), "\u{2212}(0.25) =");
    assert_eq!(
        lines(&app),
        vec![
            ("1 \u{f7} 4 =".to_owned(), "0.25".to_owned()),
            ("\u{2212}(0.25) =".to_owned(), "-0.25".to_owned())
        ]
    );
    press(&mut app, "n");
    assert_eq!(app.display_value(), "0.25");
}

#[test]
fn answer_recalls_the_last_result() {
    let mut app = App::default();
    press(&mut app, "6*7=");
    press(&mut app, "1+a=");
    assert_eq!(app.display_value(), "43");
}

#[test]
fn a_decimal_point_is_entered_once() {
    let mut app = App::default();
    press(&mut app, ".5.2");
    assert_eq!(app.display_value(), "0.52");
}

#[test]
fn a_lone_zero_is_replaced_by_the_next_digit() {
    let mut app = App::default();
    press(&mut app, "007");
    assert_eq!(app.display_value(), "7");
}

#[test]
fn non_digits_are_ignored() {
    let mut app = App::default();
    app.update(Message::Digit('x'));
    app.update(Message::Digit('\u{663}'));
    assert_eq!(app.display_value(), "");
}

#[test]
fn backspace_deletes_the_last_character() {
    let mut app = App::default();
    press(&mut app, "123b");
    assert_eq!(app.display_value(), "12");
    press(&mut app, "bbb");
    assert_eq!(app.display_value(), "");
}

#[test]
fn an_incomplete_entry_counts_as_zero() {
    let mut app = App::default();
    press(&mut app, "5.+2=");
    assert_eq!(app.display_value(), "2");
    assert_eq!(app.last_expression(), "0 + 2 =");
}

#[test]
fn history_keeps_the_last_fifty_lines() {
    let mut app = App::default();
    for _ in 0..MAX_VISIBLE_HISTORY + 5 {
        press(&mut app, "1+1=");
    }
    assert_eq!(lines(&app).len(), MAX_VISIBLE_HISTORY);
}

#[test]
fn results_show_the_full_expansion() {
    let mut app = App::default();
    press(&mut app, "0-93/52=");
    assert_eq!(app.display_value(), "-1.78(846153)");
    press(&mut app, "c30/4=");
    assert_eq!(app.display_value(), "7.5");
    press(&mut app, "c1/53=");
    assert_eq!(app.display_value(), "0.(0188679245283)");
    press(&mut app, "c0-550=");
    assert_eq!(app.display_value(), "-550");
}

#[test]
fn keyboard_shortcuts_map_to_keys() {
    let typed = |keys: &[Key]| {
        let mut app = App::default();
        for key in keys {
            if let Some(message) = message_for_key(*key) {
                app.update(message);
            }
        }
        app.display_value()
    };
    assert_eq!(
        typed(&[Key::Character('7'), Key::Character('*'), Key::Character('6'), Key::Enter]),
        "42"
    );
    assert_eq!(typed(&[Key::Character('1'), Key::Character('2'), Key::Backspace]), "1");
    assert_eq!(typed(&[Key::Character('1'), Key::Character('.'), Key::Character('5'), Key::F9]), "\u{2212}1.5");
    assert_eq!(typed(&[Key::Character('9'), Key::Delete]), "");
    assert_eq!(
        typed(&[Key::Character('1'), Key::Character('/'), Key::Character('0'), Key::Character('='), Key::Escape]),
        ""
    );
    assert_eq!(
        typed(&[Key::Character('8'), Key::Character('-'), Key::Character('3'), Key::Enter, Key::Character('+'), Key::Character('x'), Key::Enter]),
        "10"
    );
    assert!(message_for_key(Key::Character('q')).is_none());
}

#[test]
fn an_operator_after_division_by_zero_keeps_the_error() {
    let mut app = App::default();
    press(&mut app, "1/0+");
    assert_eq!(app.display_value(), "Error");
    assert_eq!(lines(&app), vec![("1 \u{f7} 0 =".to_owned(), "Error".to_owned())]);
    press(&mut app, "3=");
    assert_eq!(app.display_value(), "Error");
    press(&mut app, "c3");
    assert_eq!(app.display_value(), "3");
}

#[test]
fn an_operator_on_a_shown_error_starts_from_zero() {
    let mut app = App::default();
    press(&mut app, "1/0=");
    assert_eq!(app.display_value(), "Error");
    app.input_operator(Operator::Add);
    assert_eq!(app.display_value(), "");
    assert_eq!(app.last_expression(), "0 + ");
    assert_eq!(lines(&app), vec![("1 \u{f7} 0 =".to_owned(), "Error".to_owned())]);
    press(&mut app, "4=");
    assert_eq!(app.display_value(), "4");
}

use pomodoro::app::{App, InputMode, PomodoroMode, Screen, StatsView};
use pomodoro::calendar::Timestamp;
use pomodoro::db::Database;
use pomodoro::keys::{carry_out, decide, handle_key_event, Action, Key};

fn fresh() -> App {
    App::new(Database::new())
}

fn press(app: &mut App, text: &str) {
    for c in text.chars() {
        handle_key_event(app, Key::Char(c));
    }
}

#[test]
fn home_keys_map_to_their_actions() {
    for screen in [Screen::Home, Screen::Settings] {
        let table = [
            (Key::Char('q'), Action::Quit),
            (Key::Char(' '), Action::ToggleTimer),
            (Key::Char('r'), Action::ResetTimer),
            (Key::Char('t'), Action::NextTag),
            (Key::Tab, Action::NextTag),
            (Key::Down, Action::NextTag),
            (Key::Char('T'), Action::PrevTag),
            (Key::BackTab, Action::PrevTag),
            (Key::Up, Action::PrevTag),
            (Key::Char('+'), Action::OpenTagInput),
            (Key::Char('n'), Action::OpenTagInput),
            (Key::Char('-'), Action::OpenDeleteConfirm),
            (Key::Char('s'), Action::Navigate(Screen::Stats)),
            (Key::Char('m'), Action::Navigate(Screen::Heatmap)),
            (Key::Char('w'), Action::AdjustWork(60)),
            (Key::Char('W'), Action::AdjustWork(-60)),
            (Key::Char('b'), Action::AdjustBreak(60)),
            (Key::Char('B'), Action::AdjustBreak(-60)),
            (Key::Char('h'), Action::Nothing),
            (Key::Enter, Action::Nothing),
            (Key::Esc, Action::Nothing),
            (Key::Left, Action::Nothing),
            (Key::Right, Action::Nothing),
            (Key::Backspace, Action::Nothing),
            (Key::Other, Action::Nothing),
        ];
        for (key, action) in table {
            assert_eq!(decide(screen, InputMode::Normal, key), action, "{:?}", key);
            assert_eq!(decide(screen, InputMode::Editing, key), action, "{:?}", key);
        }
    }
}

#[test]
fn stats_and_heatmap_keys_map_to_their_actions() {
    let stats = [
        (Key::Char('q'), Action::Quit),
        (Key::Char('h'), Action::Navigate(Screen::Home)),
        (Key::Char('m'), Action::Navigate(Screen::Heatmap)),
        (Key::Tab, Action::ToggleStatsView),
        (Key::Left, Action::PrevStatsTag),
        (Key::Right, Action::NextStatsTag),
        (Key::Char('s'), Action::Nothing),
        (Key::Char(' '), Action::Nothing),
        (Key::Up, Action::Nothing),
    ];
    for (key, action) in stats {
        assert_eq!(decide(Screen::Stats, InputMode::Normal, key), action, "{:?}", key);
    }
    let heatmap = [
        (Key::Char('q'), Action::Quit),
        (Key::Char('h'), Action::Navigate(Screen::Home)),
        (Key::Char('s'), Action::Navigate(Screen::Stats)),
        (Key::Char('m'), Action::Nothing),
        (Key::Tab, Action::Nothing),
        (Key::Char('r'), Action::Nothing),
    ];
    for (key, action) in heatmap {
        assert_eq!(decide(Screen::Heatmap, InputMode::Normal, key), action, "{:?}", key);
    }
}

#[test]
fn input_and_confirm_keys_map_to_their_actions() {
    for key in [Key::Enter, Key::Char('x'), Key::Esc, Key::Other] {
        assert_eq!(decide(Screen::TagInput, InputMode::Normal, key), Action::StartEditing);
    }
    assert_eq!(decide(Screen::TagInput, InputMode::Editing, Key::Enter), Action::SubmitTag);
    assert_eq!(decide(Screen::TagInput, InputMode::Editing, Key::Esc), Action::CancelInput);
    assert_eq!(decide(Screen::TagInput, InputMode::Editing, Key::Backspace), Action::EraseChar);
    assert_eq!(decide(Screen::TagInput, InputMode::Editing, Key::Char('q')), Action::TypeChar('q'));
    assert_eq!(decide(Screen::TagInput, InputMode::Editing, Key::Tab), Action::Nothing);
    for c in ['y', 'Y'] {
        assert_eq!(decide(Screen::DeleteConfirm, InputMode::Normal, Key::Char(c)), Action::ConfirmDelete);
    }
    for key in [Key::Char('n'), Key::Char('N'), Key::Esc] {
        assert_eq!(decide(Screen::DeleteConfirm, InputMode::Normal, key), Action::CancelDelete);
    }
    assert_eq!(decide(Screen::DeleteConfirm, InputMode::Normal, Key::Char('q')), Action::Nothing);
    assert_eq!(decide(Screen::DeleteConfirm, InputMode::Normal, Key::Enter), Action::Nothing);
}

#[test]
fn typing_a_tag_trims_it_and_adds_it() {
    let mut app = fresh();
    handle_key_event(&mut app, Key::Char('+'));
    assert_eq!(app.current_screen, Screen::TagInput);
    assert_eq!(app.previous_screen, Screen::Home);
    assert_eq!(app.input_mode, InputMode::Editing);
    press(&mut app, "  deep workk");
    handle_key_event(&mut app, Key::Backspace);
    press(&mut app, " \t");
    assert_eq!(app.input_buffer, "  deep work \t");
    handle_key_event(&mut app, Key::Enter);
    assert_eq!(app.tags.last().unwrap(), "deep work");
    assert_eq!(app.tags.len(), 3);
    assert_eq!(app.input_buffer, "");
    assert_eq!(app.input_mode, InputMode::Normal);
    assert_eq!(app.current_screen, Screen::Home);
    assert!(app.db.get_tags().contains(&"deep work".to_string()));
}

#[test]
fn submitting_white_space_adds_nothing() {
    let mut app = fresh();
    handle_key_event(&mut app, Key::Char('n'));
    press(&mut app, "   ");
    handle_key_event(&mut app, Key::Enter);
    assert_eq!(app.tags.len(), 2);
    assert_eq!(app.current_screen, Screen::Home);
    assert_eq!(app.input_buffer, "");
}

#[test]
fn escape_drops_what_was_typed() {
    let mut app = fresh();
    handle_key_event(&mut app, Key::Char('+'));
    press(&mut app, "abc");
    handle_key_event(&mut app, Key::Esc);
    assert_eq!(app.tags.len(), 2);
    assert_eq!(app.input_buffer, "");
    assert_eq!(app.input_mode, InputMode::Normal);
    assert_eq!(app.current_screen, Screen::Home);
}

#[test]
fn backspace_on_an_empty_buffer_changes_nothing() {
    let mut app = fresh();
    handle_key_event(&mut app, Key::Char('+'));
    handle_key_event(&mut app, Key::Backspace);
    assert_eq!(app.input_buffer, "");
    press(&mut app, "é█");
    handle_key_event(&mut app, Key::Backspace);
    assert_eq!(app.input_buffer, "é");
}

#[test]
fn any_key_starts_editing_on_the_tag_input() {
    let mut app = fresh();
    app.current_screen = Screen::TagInput;
    handle_key_event(&mut app, Key::Char('x'));
    assert_eq!(app.input_mode, InputMode::Editing);
    assert_eq!(app.input_buffer, "");
}

#[test]
fn delete_asks_first_and_only_with_tags() {
    let mut app = fresh();
    handle_key_event(&mut app, Key::Char('-'));
    assert_eq!(app.current_screen, Screen::DeleteConfirm);
    handle_key_event(&mut app, Key::Char('n'));
    assert_eq!(app.current_screen, Screen::Home);
    assert_eq!(app.tags.len(), 2);
    handle_key_event(&mut app, Key::Char('-'));
    handle_key_event(&mut app, Key::Char('x'));
    assert_eq!(app.current_screen, Screen::DeleteConfirm);
    handle_key_event(&mut app, Key::Char('Y'));
    assert_eq!(app.current_screen, Screen::Home);
    assert_eq!(app.tags, vec!["Work".to_string()]);
    handle_key_event(&mut app, Key::Char('-'));
    handle_key_event(&mut app, Key::Char('y'));
    assert!(app.tags.is_empty());
    handle_key_event(&mut app, Key::Char('-'));
    assert_eq!(app.current_screen, Screen::Home);
}

#[test]
fn home_keys_drive_the_timer() {
    let mut app = fresh();
    handle_key_event(&mut app, Key::Char(' '));
    assert!(app.timer_running);
    assert!(app.session_start.is_some());
    handle_key_event(&mut app, Key::Char(' '));
    assert!(!app.timer_running);
    handle_key_event(&mut app, Key::Char('w'));
    assert_eq!(app.work_duration, 1560);
    assert_eq!(app.remaining_seconds, 1560);
    handle_key_event(&mut app, Key::Char('W'));
    handle_key_event(&mut app, Key::Char('W'));
    assert_eq!(app.work_duration, 1440);
    handle_key_event(&mut app, Key::Char('b'));
    assert_eq!(app.break_duration, 360);
    handle_key_event(&mut app, Key::Char('B'));
    assert_eq!(app.break_duration, 300);
    app.remaining_seconds = 3;
    handle_key_event(&mut app, Key::Char('r'));
    assert_eq!(app.remaining_seconds, 1440);
    assert!(app.session_start.is_none());
    handle_key_event(&mut app, Key::Down);
    assert_eq!(app.selected_tag_index, 1);
    handle_key_event(&mut app, Key::Up);
    assert_eq!(app.selected_tag_index, 0);
    handle_key_event(&mut app, Key::Char('q'));
    assert!(app.should_quit);
}

#[test]
fn screens_are_reached_by_their_keys() {
    let mut app = fresh();
    handle_key_event(&mut app, Key::Char('s'));
    assert_eq!(app.current_screen, Screen::Stats);
    handle_key_event(&mut app, Key::Tab);
    assert_eq!(app.stats_view, StatsView::Monthly);
    handle_key_event(&mut app, Key::Right);
    assert_eq!(app.stats_tag_index, 1);
    handle_key_event(&mut app, Key::Left);
    handle_key_event(&mut app, Key::Left);
    assert_eq!(app.stats_tag_index, 2);
    handle_key_event(&mut app, Key::Char(' '));
    assert!(!app.timer_running);
    handle_key_event(&mut app, Key::Char('m'));
    assert_eq!(app.current_screen, Screen::Heatmap);
    assert_eq!(app.previous_screen, Screen::Stats);
    handle_key_event(&mut app, Key::Char('h'));
    assert_eq!(app.current_screen, Screen::Home);
    assert!(!app.should_quit);
}

#[test]
fn carry_out_uses_the_given_time() {
    let mut app = fresh();
    let now = Timestamp::new(738_886, 77).unwrap();
    carry_out(&mut app, Action::ToggleTimer, now);
    assert_eq!(app.session_start, Some(now));
    carry_out(&mut app, Action::Nothing, now);
    carry_out(&mut app, Action::AdjustBreak(-100_000), now);
    assert_eq!(app.break_duration, 60);
    assert_eq!(app.mode, PomodoroMode::Work);
    assert!(app.timer_running);
}

fn submitted(text: &str) -> Option<String> {
    let mut app = fresh();
    app.tags.clear();
    app.current_screen = Screen::TagInput;
    app.input_buffer = text.to_string();
    carry_out(&mut app, Action::SubmitTag, Timestamp::new(738_886, 0).unwrap());
    assert_eq!(app.input_buffer, "");
    assert_eq!(app.current_screen, Screen::Home);
    app.tags.pop()
}

#[test]
fn white_space_is_trimmed_at_both_ends_only() {
    assert_eq!(submitted(" a b \t"), Some("a b".to_string()));
    assert_eq!(submitted("\u{3000}x\u{a0}\n"), Some("x".to_string()));
    assert_eq!(submitted("x"), Some("x".to_string()));
    assert_eq!(submitted(""), None);
    assert_eq!(submitted(" \t\r\n\u{b}\u{c}\u{85}\u{2028}"), None);
}

#[test]
fn white_space_is_the_unicode_property() {
    let white: Vec<u32> = vec![
        0x9, 0xa, 0xb, 0xc, 0xd, 0x20, 0x85, 0xa0, 0x1680, 0x2000, 0x2001, 0x2002, 0x2003, 0x2004, 0x2005,
        0x2006, 0x2007, 0x2008, 0x2009, 0x200a, 0x2028, 0x2029, 0x202f, 0x205f, 0x3000,
    ];
    let mut checked = 0;
    for code in (0..0x3100u32).chain((0x3100..0x110000u32).step_by(251)) {
        let c = match char::from_u32(code) {
            Some(c) => c,
            None => continue,
        };
        assert_eq!(c.is_whitespace(), white.contains(&code), "{:x}", code);
        let text = format!("{}a{}", c, c);
        let expected = if white.contains(&code) { "a".to_string() } else { text.clone() };
        assert_eq!(submitted(&text), Some(expected), "{:x}", code);
        checked += 1;
    }
    assert!(checked > 15_000);
}

#[test]
fn submitting_blanks_changes_neither_list_nor_store() {
    let mut app = fresh();
    handle_key_event(&mut app, Key::Char('+'));
    press(&mut app, " \u{2003}\u{a0} ");
    let tags = app.tags.clone();
    let stored = app.db.get_tags();
    handle_key_event(&mut app, Key::Enter);
    assert_eq!(app.tags, tags);
    assert_eq!(app.db.get_tags(), stored);
    assert_eq!(app.current_screen, Screen::Home);
}

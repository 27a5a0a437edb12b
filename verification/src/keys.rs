//! What each key does on each screen.

use vstd::prelude::*;
use vstd::string::*;
use crate::app::{App, InputMode, Screen};
use crate::calendar::Timestamp;
use crate::text::{
    is_white_space, lemma_blank_trims_to_nothing, pop_char, push_char, trim_text, trimmed,
};

verus! {

/// A key press, as far as the screens tell keys apart.
#[derive(Debug, Clone, Copy, PartialEq, Eq, Structural)]
pub enum Key {
    Char(char),
    Enter,
    Esc,
    Backspace,
    Tab,
    BackTab,
    Up,
    Down,
    Left,
    Right,
    Other,
}

/// What a key press asks for.
#[derive(Debug, Clone, Copy, PartialEq, Eq, Structural)]
pub enum Action {
    Nothing,
    Quit,
    ToggleTimer,
    ResetTimer,
    NextTag,
    PrevTag,
    OpenTagInput,
    OpenDeleteConfirm,
    Navigate(Screen),
    AdjustWork(i64),
    AdjustBreak(i64),
    ToggleStatsView,
    NextStatsTag,
    PrevStatsTag,
    StartEditing,
    TypeChar(char),
    EraseChar,
    SubmitTag,
    CancelInput,
    ConfirmDelete,
    CancelDelete,
}

/// Seconds by which one key press moves a duration.
pub const DURATION_STEP: i64 = 60;

/// The action of a key on the tag input.
pub open spec fn input_action(input_mode: InputMode, key: Key) -> Action {
    match input_mode {
        InputMode::Normal => Action::StartEditing,
        InputMode::Editing => match key {
            Key::Enter => Action::SubmitTag,
            Key::Esc => Action::CancelInput,
            Key::Backspace => Action::EraseChar,
            Key::Char(c) => Action::TypeChar(c),
            _ => Action::Nothing,
        },
    }
}

/// The action of a key on the question whether to delete a tag.
pub open spec fn confirm_action(key: Key) -> Action {
    match key {
        Key::Char(c) => if c == 'y' || c == 'Y' {
            Action::ConfirmDelete
        } else if c == 'n' || c == 'N' {
            Action::CancelDelete
        } else {
            Action::Nothing
        },
        Key::Esc => Action::CancelDelete,
        _ => Action::Nothing,
    }
}

/// The action of a key on the home screen.
pub open spec fn home_action(key: Key) -> Action {
    match key {
        Key::Char(c) => if c == 'q' {
            Action::Quit
        } else if c == ' ' {
            Action::ToggleTimer
        } else if c == 'r' {
            Action::ResetTimer
        } else if c == 't' {
            Action::NextTag
        } else if c == 'T' {
            Action::PrevTag
        } else if c == '+' || c == 'n' {
            Action::OpenTagInput
        } else if c == '-' {
            Action::OpenDeleteConfirm
        } else if c == 's' {
            Action::Navigate(Screen::Stats)
        } else if c == 'm' {
            Action::Navigate(Screen::Heatmap)
        } else if c == 'w' {
            Action::AdjustWork(DURATION_STEP)
        } else if c == 'W' {
            Action::AdjustWork((-DURATION_STEP) as i64)
        } else if c == 'b' {
            Action::AdjustBreak(DURATION_STEP)
        } else if c == 'B' {
            Action::AdjustBreak((-DURATION_STEP) as i64)
        } else {
            Action::Nothing
        },
        Key::Tab => Action::NextTag,
        Key::BackTab => Action::PrevTag,
        Key::Up => Action::PrevTag,
        Key::Down => Action::NextTag,
        _ => Action::Nothing,
    }
}

/// The action of a key on the statistics screen.
pub open spec fn stats_action(key: Key) -> Action {
    match key {
        Key::Char(c) => if c == 'q' {
            Action::Quit
        } else if c == 'h' {
            Action::Navigate(Screen::Home)
        } else if c == 'm' {
            Action::Navigate(Screen::Heatmap)
        } else {
            Action::Nothing
        },
        Key::Tab => Action::ToggleStatsView,
        Key::Left => Action::PrevStatsTag,
        Key::Right => Action::NextStatsTag,
        _ => Action::Nothing,
    }
}

/// The action of a key on the heatmap screen.
pub open spec fn heatmap_action(key: Key) -> Action {
    match key {
        Key::Char(c) => if c == 'q' {
            Action::Quit
        } else if c == 'h' {
            Action::Navigate(Screen::Home)
        } else if c == 's' {
            Action::Navigate(Screen::Stats)
        } else {
            Action::Nothing
        },
        _ => Action::Nothing,
    }
}

/// The action of a key on a screen.
pub open spec fn action_of(screen: Screen, input_mode: InputMode, key: Key) -> Action {
    match screen {
        Screen::TagInput => input_action(input_mode, key),
        Screen::DeleteConfirm => confirm_action(key),
        Screen::Home => home_action(key),
        Screen::Settings => home_action(key),
        Screen::Stats => stats_action(key),
        Screen::Heatmap => heatmap_action(key),
    }
}

/// Decides what a key asks for on a screen.
pub fn decide(screen: Screen, input_mode: InputMode, key: Key) -> (action: Action)
    ensures
        action == action_of(screen, input_mode, key),
{
    match screen {
        Screen::TagInput => match input_mode {
            InputMode::Normal => Action::StartEditing,
            InputMode::Editing => match key {
                Key::Enter => Action::SubmitTag,
                Key::Esc => Action::CancelInput,
                Key::Backspace => Action::EraseChar,
                Key::Char(c) => Action::TypeChar(c),
                _ => Action::Nothing,
            },
        },
        Screen::DeleteConfirm => match key {
            Key::Char('y') | Key::Char('Y') => Action::ConfirmDelete,
            Key::Char('n') | Key::Char('N') | Key::Esc => Action::CancelDelete,
            _ => Action::Nothing,
        },
        Screen::Home | Screen::Settings => match key {
            Key::Char('q') => Action::Quit,
            Key::Char(' ') => Action::ToggleTimer,
            Key::Char('r') => Action::ResetTimer,
            Key::Char('t') | Key::Tab => Action::NextTag,
            Key::Char('T') | Key::BackTab => Action::PrevTag,
            Key::Char('+') | Key::Char('n') => Action::OpenTagInput,
            Key::Char('-') => Action::OpenDeleteConfirm,
            Key::Char('s') => Action::Navigate(Screen::Stats),
            Key::Char('m') => Action::Navigate(Screen::Heatmap),
            Key::Char('w') => Action::AdjustWork(DURATION_STEP),
            Key::Char('W') => Action::AdjustWork(-DURATION_STEP),
            Key::Char('b') => Action::AdjustBreak(DURATION_STEP),
            Key::Char('B') => Action::AdjustBreak(-DURATION_STEP),
            Key::Up => Action::PrevTag,
            Key::Down => Action::NextTag,
            _ => Action::Nothing,
        },
        Screen::Stats => match key {
            Key::Char('q') => Action::Quit,
            Key::Char('h') => Action::Navigate(Screen::Home),
            Key::Char('m') => Action::Navigate(Screen::Heatmap),
            Key::Tab => Action::ToggleStatsView,
            Key::Left => Action::PrevStatsTag,
            Key::Right => Action::NextStatsTag,
            _ => Action::Nothing,
        },
        Screen::Heatmap => match key {
            Key::Char('q') => Action::Quit,
            Key::Char('h') => Action::Navigate(Screen::Home),
            Key::Char('s') => Action::Navigate(Screen::Stats),
            _ => Action::Nothing,
        },
    }
}

/// The state with the tag input closed: the buffer empty, keys commands
/// again, the home screen shown.
pub open spec fn input_closed(app: App, after: App) -> bool {
    &&& after.input_buffer@ == Seq::<char>::empty()
    &&& after == (App {
        input_buffer: after.input_buffer,
        input_mode: InputMode::Normal,
        current_screen: Screen::Home,
        ..app
    })
}

/// Whether `after` is what `action`, carried out at time `now`, makes of
/// `app`.
pub open spec fn carried_out(app: App, action: Action, now: Timestamp, after: App) -> bool {
    match action {
        Action::Nothing => after == app,
        Action::Quit => after == (App { should_quit: true, ..app }),
        Action::ToggleTimer => after == app.toggled(now),
        Action::ResetTimer => after == app.reset(),
        Action::NextTag => after == app.with_next_tag(),
        Action::PrevTag => after == app.with_prev_tag(),
        Action::OpenTagInput => after == (App {
            input_mode: InputMode::Editing,
            ..app.navigated(Screen::TagInput)
        }),
        Action::OpenDeleteConfirm => after == if app.tags@.len() > 0 {
            app.navigated(Screen::DeleteConfirm)
        } else {
            app
        },
        Action::Navigate(screen) => after == app.navigated(screen),
        Action::AdjustWork(delta) => app.work_adjusted(delta, after),
        Action::AdjustBreak(delta) => app.break_adjusted(delta, after),
        Action::ToggleStatsView => after == app.with_other_view(),
        Action::NextStatsTag => after == app.with_next_stats_tag(),
        Action::PrevStatsTag => after == app.with_prev_stats_tag(),
        Action::StartEditing => after == (App { input_mode: InputMode::Editing, ..app }),
        Action::TypeChar(c) => after.input_buffer@ == app.input_buffer@.push(c) && after == (App {
            input_buffer: after.input_buffer,
            ..app
        }),
        Action::EraseChar => after.input_buffer@ == (if app.input_buffer@.len() > 0 {
            app.input_buffer@.drop_last()
        } else {
            app.input_buffer@
        }) && after == (App { input_buffer: after.input_buffer, ..app }),
        Action::SubmitTag => exists|added: App, name: String|
            {
                &&& name@ == trimmed(app.input_buffer@)
                &&& #[trigger] app.tag_added(name, added)
                &&& input_closed(added, after)
            },
        Action::CancelInput => input_closed(app, after),
        Action::ConfirmDelete => exists|deleted: App|
            {
                &&& #[trigger] app.selected_tag_deleted(deleted)
                &&& after == (App { current_screen: Screen::Home, ..deleted })
            },
        Action::CancelDelete => after == (App { current_screen: Screen::Home, ..app }),
    }
}

/// Closes the tag input.
fn close_input(app: &mut App)
    ensures
        input_closed(*old(app), *final(app)),
        old(app).wf() ==> final(app).wf(),
{
    app.input_buffer = String::new();
    app.input_mode = InputMode::Normal;
    app.current_screen = Screen::Home;
}

/// Adds what was typed, without the white space around it, as a tag, and
/// closes the tag input.
fn submit_tag(app: &mut App, now: Timestamp)
    ensures
        carried_out(*old(app), Action::SubmitTag, now, *final(app)),
        old(app).wf() ==> final(app).wf(),
{
    let name = trim_text(app.input_buffer.as_str());
    let ghost typed = name;
    if !name.as_str().is_empty() {
        app.add_tag(name);
    }
    let ghost added = *app;
    assert(old(app).tag_added(typed, added));
    close_input(app);
}

/// Deletes the selected tag and goes back to the home screen.
fn confirm_delete(app: &mut App, now: Timestamp)
    ensures
        carried_out(*old(app), Action::ConfirmDelete, now, *final(app)),
        old(app).wf() ==> final(app).wf(),
{
    app.delete_selected_tag();
    let ghost deleted = *app;
    app.current_screen = Screen::Home;
    assert(old(app).selected_tag_deleted(deleted));
}

/// Changes the input buffer by one character: appends `typed`, or erases
/// the last character where there is none to append.
fn edit_buffer(app: &mut App, typed: Option<char>, now: Timestamp)
    ensures
        carried_out(
            *old(app),
            match typed {
                Some(c) => Action::TypeChar(c),
                None => Action::EraseChar,
            },
            now,
            *final(app),
        ),
        old(app).wf() ==> final(app).wf(),
{
    match typed {
        Some(c) => {
            push_char(&mut app.input_buffer, c);
        },
        None => {
            let erased = pop_char(&mut app.input_buffer);
        },
    }
}

/// Carries out an action on the timer or the tag selection.
fn carry_out_on_timer(app: &mut App, action: Action, now: Timestamp)
    requires
        action is ToggleTimer || action is ResetTimer || action is NextTag || action is PrevTag
            || action is AdjustWork || action is AdjustBreak,
    ensures
        carried_out(*old(app), action, now, *final(app)),
        old(app).wf() ==> final(app).wf(),
{
    match action {
        Action::ToggleTimer => app.toggle_timer_at(now),
        Action::ResetTimer => app.reset_timer(),
        Action::NextTag => app.next_tag(),
        Action::PrevTag => app.prev_tag(),
        Action::AdjustWork(delta) => app.adjust_work_duration(delta),
        Action::AdjustBreak(delta) => app.adjust_break_duration(delta),
        _ => {},
    }
}

/// Carries out an action on the screens.
fn carry_out_on_screens(app: &mut App, action: Action, now: Timestamp)
    requires
        action is Nothing || action is Quit || action is OpenTagInput || action is OpenDeleteConfirm
            || action is Navigate || action is ToggleStatsView || action is NextStatsTag
            || action is PrevStatsTag || action is StartEditing || action is CancelDelete,
    ensures
        carried_out(*old(app), action, now, *final(app)),
        old(app).wf() ==> final(app).wf(),
{
    match action {
        Action::Quit => {
            app.should_quit = true;
        },
        Action::OpenTagInput => {
            app.navigate_to(Screen::TagInput);
            app.input_mode = InputMode::Editing;
        },
        Action::OpenDeleteConfirm => {
            if app.tags.len() > 0 {
                app.navigate_to(Screen::DeleteConfirm);
            }
        },
        Action::Navigate(screen) => app.navigate_to(screen),
        Action::ToggleStatsView => app.toggle_stats_view(),
        Action::NextStatsTag => app.next_stats_tag(),
        Action::PrevStatsTag => app.prev_stats_tag(),
        Action::StartEditing => {
            app.input_mode = InputMode::Editing;
        },
        Action::CancelDelete => {
            app.current_screen = Screen::Home;
        },
        _ => {},
    }
}

/// Carries out an action at time `now`.
pub fn carry_out(app: &mut App, action: Action, now: Timestamp)
    ensures
        carried_out(*old(app), action, now, *final(app)),
        old(app).wf() ==> final(app).wf(),
{
    match action {
        Action::ToggleTimer | Action::ResetTimer | Action::NextTag | Action::PrevTag | Action::AdjustWork(_)
        | Action::AdjustBreak(_) => carry_out_on_timer(app, action, now),
        Action::TypeChar(c) => edit_buffer(app, Some(c), now),
        Action::EraseChar => edit_buffer(app, None, now),
        Action::SubmitTag => submit_tag(app, now),
        Action::CancelInput => close_input(app),
        Action::ConfirmDelete => confirm_delete(app, now),
        _ => carry_out_on_screens(app, action, now),
    }
}

/// Handles a key press on the screen that is shown. Whatever the wall
/// clock says, the state is what the key's action makes of it at the time
/// the clock shows.
pub fn handle_key_event(app: &mut App, key: Key)
    ensures
        exists|now: Timestamp|
            #[trigger] carried_out(
                *old(app),
                action_of(old(app).current_screen, old(app).input_mode, key),
                now,
                *final(app),
            ),
        old(app).wf() ==> final(app).wf(),
{
    let action = decide(app.current_screen, app.input_mode, key);
    let now = Timestamp::now();
    carry_out(app, action, now);
    assert(carried_out(*old(app), action, now, *app));
}

/// Submitting a buffer that holds nothing but white space adds no tag:
/// the tag list and the store stay as they are, and the input is closed.
pub proof fn lemma_blank_submit_adds_nothing(app: App, now: Timestamp, after: App)
    requires
        carried_out(app, Action::SubmitTag, now, after),
        forall|i: int| 0 <= i < app.input_buffer@.len() ==> is_white_space(#[trigger] app.input_buffer@[i]),
    ensures
        after.tags == app.tags,
        after.db == app.db,
        input_closed(app, after),
{
    lemma_blank_trims_to_nothing(app.input_buffer@);
}

} // verus!

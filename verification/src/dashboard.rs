//! Keyboard navigation of the terminal dashboard.
use vstd::prelude::*;

verus! {

/// Number of dashboard screens.
pub const TAB_COUNT: usize = 6;

/// Screen titles, in order.
pub fn tab_titles() -> (r: Vec<&'static str>)
    ensures
        r@.len() == TAB_COUNT,
        r@[0]@ == "Overview"@,
        r@[1]@ == "Tools"@,
        r@[2]@ == "Budget"@,
        r@[3]@ == "Providers"@,
        r@[4]@ == "Checkpoints"@,
        r@[5]@ == "Audit"@,
{
    let mut r: Vec<&'static str> = Vec::new();
    r.push("Overview");
    r.push("Tools");
    r.push("Budget");
    r.push("Providers");
    r.push("Checkpoints");
    r.push("Audit");
    r
}

/// Screen of the budget gauges.
pub const BUDGET_TAB: usize = 2;

/// Screen of the provider list.
pub const PROVIDERS_TAB: usize = 3;

/// Screen of the checkpoint list.
pub const CHECKPOINTS_TAB: usize = 4;

/// A key press, as the dashboard distinguishes them.
#[derive(PartialEq, Eq, Structural, Clone, Copy)]
pub enum Key {
    Char(char),
    Left,
    Right,
    Tab,
    Esc,
    Other,
}

/// What the dashboard shows.
#[derive(PartialEq, Eq, Structural, Clone, Copy)]
pub struct DashboardState {
    pub tab: usize,
    pub show_help: bool,
}

/// What the event loop does after a key.
#[derive(PartialEq, Eq, Structural, Clone, Copy)]
pub enum KeyAction {
    Continue,
    Refresh,
    Quit,
}

/// The effect of a key: `q`/Esc quit; Right/Tab and Left cycle the screens;
/// `r` refreshes; `b`, `p`, `c` jump to the budget, providers and checkpoints
/// screens; `?` toggles the help; other keys do nothing.
pub open spec fn key_step(s: DashboardState, key: Key) -> (DashboardState, KeyAction) {
    match key {
        Key::Char('q') | Key::Esc => (s, KeyAction::Quit),
        Key::Right | Key::Tab => (DashboardState { tab: ((s.tab + 1) % 6) as usize, ..s }, KeyAction::Continue),
        Key::Left => (DashboardState { tab: ((s.tab + 5) % 6) as usize, ..s }, KeyAction::Continue),
        Key::Char('r') => (s, KeyAction::Refresh),
        Key::Char('p') => (DashboardState { tab: 3, ..s }, KeyAction::Continue),
        Key::Char('b') => (DashboardState { tab: 2, ..s }, KeyAction::Continue),
        Key::Char('c') => (DashboardState { tab: 4, ..s }, KeyAction::Continue),
        Key::Char('?') => (DashboardState { show_help: !s.show_help, ..s }, KeyAction::Continue),
        _ => (s, KeyAction::Continue),
    }
}

/// The dashboard's response to a key press.
pub fn on_key(state: DashboardState, key: Key) -> (r: (DashboardState, KeyAction))
    requires
        state.tab < TAB_COUNT,
    ensures
        r == key_step(state, key),
        r.0.tab < TAB_COUNT,
{
    match key {
        Key::Char('q') | Key::Esc => (state, KeyAction::Quit),
        Key::Right | Key::Tab => (DashboardState { tab: (state.tab + 1) % TAB_COUNT, ..state }, KeyAction::Continue),
        Key::Left => (
            DashboardState { tab: (state.tab + TAB_COUNT - 1) % TAB_COUNT, ..state },
            KeyAction::Continue,
        ),
        Key::Char('r') => (state, KeyAction::Refresh),
        Key::Char('p') => (DashboardState { tab: PROVIDERS_TAB, ..state }, KeyAction::Continue),
        Key::Char('b') => (DashboardState { tab: BUDGET_TAB, ..state }, KeyAction::Continue),
        Key::Char('c') => (DashboardState { tab: CHECKPOINTS_TAB, ..state }, KeyAction::Continue),
        Key::Char('?') => (DashboardState { show_help: !state.show_help, ..state }, KeyAction::Continue),
        _ => (state, KeyAction::Continue),
    }
}

/// Moving right then left (or left then right) returns to the same screen;
/// six moves in one direction go all the way round.
pub proof fn lemma_navigation_round_trip(s: DashboardState)
    requires
        s.tab < TAB_COUNT,
    ensures
        key_step(key_step(s, Key::Right).0, Key::Left).0 == s,
        key_step(key_step(s, Key::Left).0, Key::Right).0 == s,
        key_step(
            key_step(
                key_step(key_step(key_step(key_step(s, Key::Tab).0, Key::Tab).0, Key::Tab).0, Key::Tab).0,
                Key::Tab,
            ).0,
            Key::Tab,
        ).0 == s,
{
}

/// Every key keeps the screen index in range.
pub proof fn lemma_tab_in_range(s: DashboardState, key: Key)
    requires
        s.tab < TAB_COUNT,
    ensures
        key_step(s, key).0.tab < TAB_COUNT,
{
}

/// What each key does, screen by screen: `q` and Esc quit and `r` refreshes,
/// changing nothing; `?` shows or hides the help on the same screen, so two
/// presses undo each other; `b`, `p` and `c` open the budget (2), providers (3)
/// and checkpoints (4) screens keeping the help as it was; Right and Tab move
/// to the next screen and Left to the previous one, wrapping round the six;
/// any other key changes nothing.
pub proof fn lemma_key_effects(s: DashboardState)
    requires
        s.tab < TAB_COUNT,
    ensures
        key_step(s, Key::Char('q')) == (s, KeyAction::Quit),
        key_step(s, Key::Esc) == (s, KeyAction::Quit),
        key_step(s, Key::Char('r')) == (s, KeyAction::Refresh),
        key_step(s, Key::Char('?')) == (DashboardState { tab: s.tab, show_help: !s.show_help }, KeyAction::Continue),
        key_step(key_step(s, Key::Char('?')).0, Key::Char('?')).0 == s,
        key_step(s, Key::Char('b')) == (DashboardState { tab: 2, show_help: s.show_help }, KeyAction::Continue),
        key_step(s, Key::Char('p')) == (DashboardState { tab: 3, show_help: s.show_help }, KeyAction::Continue),
        key_step(s, Key::Char('c')) == (DashboardState { tab: 4, show_help: s.show_help }, KeyAction::Continue),
        key_step(s, Key::Right) == (DashboardState {
            tab: if s.tab == 5 { 0 } else { (s.tab + 1) as usize },
            show_help: s.show_help,
        }, KeyAction::Continue),
        key_step(s, Key::Tab) == key_step(s, Key::Right),
        key_step(s, Key::Left) == (DashboardState {
            tab: if s.tab == 0 { 5 } else { (s.tab - 1) as usize },
            show_help: s.show_help,
        }, KeyAction::Continue),
        key_step(s, Key::Other) == (s, KeyAction::Continue),
        key_step(s, Key::Char('x')) == (s, KeyAction::Continue),
{
}

} // verus!

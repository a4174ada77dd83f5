use vstd::prelude::*;

verus! {

/// The top-level screens of the program.
#[derive(Clone, Copy, Debug, PartialEq, Eq, Hash)]
pub enum MainState {
    Menu,
    Editor,
    Game,
}

impl Default for MainState {
    fn default() -> (r: MainState)
        ensures
            r == MainState::Menu,
    {
        MainState::Menu
    }
}

/// The buttons of the main menu.
#[derive(Clone, Copy, Debug, PartialEq, Eq)]
pub enum MainMenuButton {
    StartGame,
    RunEditor,
    Exit,
}

/// What a released menu button asks for.
#[derive(Clone, Copy, Debug, PartialEq, Eq)]
pub enum MenuOutcome {
    Switch(MainState),
    Quit,
}

/// The screen or the exit that a released menu button leads to.
pub fn button_system(button: MainMenuButton) -> (r: MenuOutcome)
    ensures
        r == (match button {
            MainMenuButton::StartGame => MenuOutcome::Switch(MainState::Game),
            MainMenuButton::RunEditor => MenuOutcome::Switch(MainState::Editor),
            MainMenuButton::Exit => MenuOutcome::Quit,
        }),
{
    match button {
        MainMenuButton::StartGame => MenuOutcome::Switch(MainState::Game),
        MainMenuButton::RunEditor => MenuOutcome::Switch(MainState::Editor),
        MainMenuButton::Exit => MenuOutcome::Quit,
    }
}

/// A release of the escape key leads back to the menu.
pub fn exit_to_menu_on_escape(escape_released: bool) -> (r: Option<MainState>)
    ensures
        r == (if escape_released {
            Some(MainState::Menu)
        } else {
            None
        }),
{
    if escape_released {
        Some(MainState::Menu)
    } else {
        None
    }
}

} // verus!

//! What the window and the tray ask for.
use crate::paths::{ParsedPath, PathView};
use crate::rules::PathState;
use crate::text::same_text;
use vstd::prelude::*;
use vstd::string::*;

verus! {

broadcast use vstd::string::group_string_axioms;

/// What a file manager is to show.
#[derive(Debug)]
pub enum Reveal {
    /// A file, marked in its folder; this is the argument that says so.
    Select(String),
    /// A folder.
    Open(String),
}

pub enum RevealView {
    Select(Seq<char>),
    Open(Seq<char>),
}

impl View for Reveal {
    type V = RevealView;

    open spec fn view(&self) -> RevealView {
        match *self {
            Reveal::Select(argument) => RevealView::Select(argument@),
            Reveal::Open(path) => RevealView::Open(path@),
        }
    }
}

pub open spec fn reveal_result(r: Result<Reveal, String>) -> Result<RevealView, Seq<char>> {
    match r {
        Ok(reveal) => Ok(reveal@),
        Err(message) => Err(message@),
    }
}

/// What is shown for a path: a file in its folder, a folder itself, and for
/// what does not exist the folder that it would be in.
pub open spec fn revealed(path: PathView, state: PathState, parent_exists: bool) -> Result<
    RevealView,
    Seq<char>,
> {
    match state {
        PathState::File => Ok(RevealView::Select("/select,"@ + path.text)),
        PathState::Missing => match path.parent {
            None => Err("找不到可打开的父目录。"@),
            Some(parent) => if parent_exists {
                Ok(RevealView::Open(parent))
            } else {
                Err("路径不存在："@ + parent)
            },
        },
        _ => Ok(RevealView::Open(path.text)),
    }
}

/// What a file manager is to show for a path. `state` says what stands there,
/// and `parent_exists` whether there is the folder that it would be in.
pub fn reveal_path(path: &ParsedPath, state: PathState, parent_exists: bool) -> (r: Result<
    Reveal,
    String,
>)
    ensures
        reveal_result(r) == revealed(path@, state, parent_exists),
{
    match state {
        PathState::File => {
            let mut argument = String::from_str("/select,");
            argument.append(path.text.as_str());
            Ok(Reveal::Select(argument))
        },
        PathState::Missing => {
            match &path.parent {
                None => Err(String::from_str("找不到可打开的父目录。")),
                Some(parent) => {
                    if parent_exists {
                        Ok(Reveal::Open(parent.clone()))
                    } else {
                        let mut message = String::from_str("路径不存在：");
                        message.append(parent.as_str());
                        Err(message)
                    }
                },
            }
        },
        _ => Ok(Reveal::Open(path.text.clone())),
    }
}

/// Whether a path can be opened: what does not exist cannot.
pub fn open_with_default_app(path: &str, exists_there: bool) -> (r: Result<(), String>)
    ensures
        match r {
            Ok(_) => exists_there,
            Err(message) => !exists_there && message@ == "路径不存在："@ + path@,
        },
{
    if exists_there {
        return Ok(());
    }
    let mut message = String::from_str("路径不存在：");
    message.append(path);
    Err(message)
}

/// What is chosen in the menu of the tray.
#[derive(Debug, Clone, Copy, PartialEq, Eq, Structural)]
pub enum TrayCommand {
    ShowWindow,
    SyncAll,
    TogglePause,
    Quit,
    Nothing,
}

/// What an entry of the menu stands for.
pub open spec fn command_of(id: Seq<char>) -> TrayCommand {
    if id == "show"@ || id == "settings"@ {
        TrayCommand::ShowWindow
    } else if id == "sync_now"@ {
        TrayCommand::SyncAll
    } else if id == "toggle_pause"@ {
        TrayCommand::TogglePause
    } else if id == "quit"@ {
        TrayCommand::Quit
    } else {
        TrayCommand::Nothing
    }
}

/// What an entry of the menu stands for.
pub fn tray_command(id: &str) -> (r: TrayCommand)
    ensures
        r == command_of(id@),
{
    if same_text(id, "show") || same_text(id, "settings") {
        TrayCommand::ShowWindow
    } else if same_text(id, "sync_now") {
        TrayCommand::SyncAll
    } else if same_text(id, "toggle_pause") {
        TrayCommand::TogglePause
    } else if same_text(id, "quit") {
        TrayCommand::Quit
    } else {
        TrayCommand::Nothing
    }
}

/// Whether the window only hides when it is closed: it does unless it is known
/// that closing ends the program.
pub fn hides_on_close(close_to_tray: Option<bool>) -> (r: bool)
    ensures
        r == (close_to_tray != Some(false)),
{
    match close_to_tray {
        Some(hides) => hides,
        None => true,
    }
}

/// Whether the window is hidden at the start: only where it is known that it
/// is to be.
pub fn starts_hidden(minimized: Option<bool>) -> (r: bool)
    ensures
        r == (minimized == Some(true)),
{
    match minimized {
        Some(hidden) => hidden,
        None => false,
    }
}

} // verus!

//! The button that picks the gallery's root folder, and the folder it shows.
use vstd::prelude::*;

verus! {

/// What the folder picker sends.
#[derive(Debug, Clone)]
pub enum Message {
    DialogOpen,
    DialogClose(Option<String>),
}

/// The work the folder picker asks for.
#[derive(Debug, Clone, Copy, PartialEq, Eq, Structural)]
pub enum Command {
    NoTask,
    /// Show the folder dialog and send `DialogClose` with the chosen folder, if any.
    OpenFolderDialog,
}

/// The folder picker's state: the folder last chosen.
#[derive(Debug, Clone)]
pub struct RootDirSelect {
    pub selected_path: Option<String>,
}

impl RootDirSelect {
    /// No folder chosen.
    pub fn new() -> (r: RootDirSelect)
        ensures
            r.selected_path is None,
    {
        RootDirSelect { selected_path: None }
    }

    /// Opening asks for the dialog; closing records the folder chosen (or none).
    pub fn update(&mut self, message: Message) -> (r: Command)
        ensures
            match message {
                Message::DialogOpen => r == Command::OpenFolderDialog && final(self).selected_path
                    == old(self).selected_path,
                Message::DialogClose(path) => r == Command::NoTask && final(self).selected_path == path,
            },
    {
        match message {
            Message::DialogOpen => Command::OpenFolderDialog,
            Message::DialogClose(path) => {
                self.selected_path = path;
                Command::NoTask
            },
        }
    }
}

impl Default for RootDirSelect {
    /// No folder chosen.
    fn default() -> (r: Self)
        ensures
            r.selected_path is None,
    {
        RootDirSelect::new()
    }
}

} // verus!

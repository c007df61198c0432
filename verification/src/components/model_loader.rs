//! The screen shown while the image model is missing, which fetches it on request.
use vstd::prelude::*;

verus! {

/// What the model loader screen receives.
#[derive(Debug)]
pub enum Message {
    /// The user asked to fetch the model.
    LoadStart,
    /// Fetching ended: the path the model was written to, or the error.
    Loaded(Result<String, String>),
}

/// The work the model loader asks for.
#[derive(Debug, Clone, Copy, PartialEq, Eq, Structural)]
pub enum Command {
    NoTask,
    /// Download the model, write it to its file and send `Loaded` with the outcome.
    DownloadModel,
}

/// The model loader's state: the status line it shows.
#[derive(Debug, Clone)]
pub struct ModelLoader {
    message: String,
}

impl ModelLoader {
    /// The status line.
    pub closed spec fn status(&self) -> Seq<char> {
        self.message@
    }

    /// A loader with an empty status line.
    pub fn new() -> (r: ModelLoader)
        ensures
            r.status() == Seq::<char>::empty(),
    {
        ModelLoader { message: String::new() }
    }

    /// The status line.
    pub fn message(&self) -> (r: &String)
        ensures
            r@ == self.status(),
    {
        &self.message
    }

    /// Starting shows "loading..." and asks for the download; the end of the download,
    /// whatever its outcome, clears the status line and asks for nothing more.
    pub fn update(&mut self, message: Message) -> (r: Command)
        ensures
            match message {
                Message::LoadStart => r == Command::DownloadModel && final(self).status()
                    == "loading..."@,
                Message::Loaded(_) => r == Command::NoTask && final(self).status() == Seq::<
                    char,
                >::empty(),
            },
    {
        match message {
            Message::LoadStart => {
                self.message = String::from_str("loading...");
                Command::DownloadModel
            },
            Message::Loaded(_) => {
                self.message = String::new();
                Command::NoTask
            },
        }
    }
}

impl Default for ModelLoader {
    /// A loader with an empty status line.
    fn default() -> (r: Self)
        ensures
            r.status() == Seq::<char>::empty(),
    {
        ModelLoader::new()
    }
}

} // verus!

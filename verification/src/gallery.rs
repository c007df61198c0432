//! The gallery view: its state, how each message changes it, the work each message
//! asks the application to do, and what the view shows.
use vstd::prelude::*;
use crate::components::gallery_settings::{self, GallerySettings};
use crate::components::menus::{self, Menus};
use crate::components::root_dir_select::{self, RootDirSelect};
use crate::dir_tree::DirTree;
use crate::grid::{layout_section, opt_section_view, spec_section, GridSection};
use crate::image_similarity::ImageSimilarity;

verus! {

/// Thumbnail side length the gallery starts with.
pub const DEFAULT_THUMBNAIL_SIZE: u32 = 160;

/// Gap between thumbnails.
pub const DEFAULT_SPACING: u32 = 10;

/// Step by which the menu buttons change the thumbnail size.
pub const THUMBNAIL_STEP: u32 = 20;

/// Largest size from which the thumbnails still grow.
pub const THUMBNAIL_GROW_LIMIT: u32 = 600;

/// Smallest size from which the thumbnails still shrink.
pub const THUMBNAIL_SHRINK_LIMIT: u32 = 40;

/// What the gallery receives.
#[derive(Debug)]
pub enum Message {
    /// The scan of the root folder finished.
    ImagesLoaded(DirTree),
    MenusMessage(menus::Message),
    RootDirSelectMessage(root_dir_select::Message),
    /// A thumbnail was chosen as the source image to compare with.
    ImageSelect(String),
    /// The scoring of the tree against the source image finished.
    ImageSimilarityCompleted(ImageSimilarity),
    GallerySettingsMessage(gallery_settings::Message),
}

/// A message the gallery's widgets can send.
pub open spec fn valid_message(m: Message) -> bool {
    match m {
        Message::GallerySettingsMessage(g) => gallery_settings::valid_message(g),
        _ => true,
    }
}

/// The work the gallery asks the application to do.
#[derive(Debug, Clone)]
pub enum Command {
    NoTask,
    /// Close the application.
    Exit,
    /// Scan the folder at the path and send `ImagesLoaded` with its tree.
    LoadImages(String),
    /// Save the path as the root folder in the settings, then do as `LoadImages`.
    SaveRootAndLoad(String),
    /// Score every file of the gallery's current tree against the source image at the
    /// path and send `ImageSimilarityCompleted` (with no scores where scoring fails).
    ComputeSimilarity(String),
    /// Work asked for by the folder picker.
    RootDirSelect(root_dir_select::Command),
}

/// What the gallery's main area shows.
#[derive(Debug, Clone, Copy, PartialEq, Eq, Structural)]
pub enum Content {
    /// Nothing: no folder scanned yet.
    Blank,
    /// The scanned folder holds no files and no subfolders.
    NoImages,
    /// The thumbnail grid.
    Grid,
}

/// The gallery's state.
pub struct Gallery {
    pub dir_node: Option<DirTree>,
    pub selected_source_image: Option<String>,
    pub running: bool,
    pub image_similarity: ImageSimilarity,
    pub thumbnail_size: u32,
    pub spacing: u32,
    pub menus: Menus,
    pub root_dir_select: RootDirSelect,
    pub gallery_settings: GallerySettings,
}

/// Two states that agree on everything but the scores.
pub open spec fn same_but_scores(a: Gallery, b: Gallery) -> bool {
    &&& a.dir_node == b.dir_node
    &&& a.selected_source_image == b.selected_source_image
    &&& a.running == b.running
    &&& a.thumbnail_size == b.thumbnail_size
    &&& a.spacing == b.spacing
    &&& a.root_dir_select == b.root_dir_select
    &&& a.gallery_settings == b.gallery_settings
}

/// The effect of refreshing the scores from `before`: with no source image nothing
/// changes and nothing is asked; otherwise the scores are cleared, and where a tree is
/// scanned its scoring against the source image is asked for.
pub open spec fn refresh_scores(before: Gallery, after: Gallery, cmd: Command) -> bool {
    match before.selected_source_image {
        None => after == before && cmd == Command::NoTask,
        Some(source) => {
            &&& same_but_scores(before, after)
            &&& after.image_similarity.pairs().len() == 0
            &&& cmd == (if before.dir_node is Some {
                Command::ComputeSimilarity(source)
            } else {
                Command::NoTask
            })
        },
    }
}

/// The thumbnail size after a menu message: grows by 20 from at most 600, shrinks by
/// 20 from at least 40, and stays as it is otherwise.
pub open spec fn scaled_thumbnail(size: u32, m: menus::Message) -> u32 {
    match m {
        menus::Message::ScaleUp => if size <= THUMBNAIL_GROW_LIMIT {
            (size + THUMBNAIL_STEP) as u32
        } else {
            size
        },
        menus::Message::ScaleDown => if THUMBNAIL_SHRINK_LIMIT <= size {
            (size - THUMBNAIL_STEP) as u32
        } else {
            size
        },
        menus::Message::Quit => size,
    }
}

/// How a message takes the gallery from `before` to `after`, asking for `cmd`.
pub open spec fn updated(before: Gallery, message: Message, after: Gallery, cmd: Command) -> bool {
    match message {
        Message::ImagesLoaded(dir_node) => refresh_scores(
            Gallery { dir_node: Some(dir_node), ..before },
            after,
            cmd,
        ),
        Message::MenusMessage(m) => match m {
            menus::Message::Quit => cmd == Command::Exit && after == before,
            _ => {
                &&& cmd == Command::NoTask
                &&& after == Gallery {
                    thumbnail_size: scaled_thumbnail(before.thumbnail_size, m),
                    ..before
                }
            },
        },
        Message::GallerySettingsMessage(g) => match g {
            gallery_settings::Message::SimilaritySliderMessage(
                crate::components::similarity_slider::Message::ValueChanged(v),
            ) => {
                &&& cmd == Command::NoTask
                &&& after.gallery_settings.similarity_slider.similarity_quality
                    == crate::similarity_quality::SimilarityQuality::spec_from_index(v)
                &&& after == Gallery {
                    gallery_settings: after.gallery_settings,
                    ..before
                }
            },
        },
        Message::RootDirSelectMessage(m) => match m {
            root_dir_select::Message::DialogOpen => {
                &&& cmd == Command::RootDirSelect(root_dir_select::Command::OpenFolderDialog)
                &&& after == before
            },
            root_dir_select::Message::DialogClose(None) => {
                &&& cmd == Command::RootDirSelect(root_dir_select::Command::NoTask)
                &&& after == Gallery {
                    root_dir_select: RootDirSelect { selected_path: None },
                    ..before
                }
            },
            root_dir_select::Message::DialogClose(Some(path)) => {
                &&& cmd == Command::SaveRootAndLoad(path)
                &&& after.dir_node matches Some(d) && d.path == path
                    && d.files@.len() == 0 && d.sub_dirs@.len() == 0
                &&& after.selected_source_image is None
                &&& after.image_similarity.pairs().len() == 0
                &&& after.root_dir_select.selected_path == Some(path)
                &&& after.running == before.running
                &&& after.thumbnail_size == before.thumbnail_size
                &&& after.spacing == before.spacing
                &&& after.gallery_settings == before.gallery_settings
            },
        },
        Message::ImageSelect(path) => if before.running {
            cmd == Command::NoTask && after == before
        } else {
            let mid = Gallery {
                running: true,
                selected_source_image: Some(path),
                ..before
            };
            refresh_scores(mid, after, cmd)
        },
        Message::ImageSimilarityCompleted(scores) => {
            &&& cmd == Command::NoTask
            &&& after == Gallery {
                image_similarity: scores,
                running: false,
                ..before
            }
        },
    }
}

impl Gallery {
    /// A gallery with nothing scanned, default thumbnails and settings.
    pub fn new_empty() -> (r: Gallery)
        ensures
            r.dir_node is None,
            r.selected_source_image is None,
            !r.running,
            r.image_similarity.pairs().len() == 0,
            r.thumbnail_size == DEFAULT_THUMBNAIL_SIZE,
            r.spacing == DEFAULT_SPACING,
            r.root_dir_select.selected_path is None,
            r.gallery_settings.similarity_slider.similarity_quality
                == crate::similarity_quality::SimilarityQuality::Matched,
    {
        Gallery {
            dir_node: None,
            selected_source_image: None,
            running: false,
            image_similarity: ImageSimilarity::new(),
            thumbnail_size: DEFAULT_THUMBNAIL_SIZE,
            spacing: DEFAULT_SPACING,
            menus: Menus,
            root_dir_select: RootDirSelect::new(),
            gallery_settings: GallerySettings::new(),
        }
    }

    /// A default gallery whose tree is the not yet scanned folder at `root_dir_path`.
    pub fn new(root_dir_path: &str) -> (r: Gallery)
        ensures
            r.dir_node matches Some(d) && d.path@ == root_dir_path@ && d.files@.len() == 0
                && d.sub_dirs@.len() == 0,
            r.selected_source_image is None,
            !r.running,
            r.image_similarity.pairs().len() == 0,
            r.thumbnail_size == DEFAULT_THUMBNAIL_SIZE,
            r.spacing == DEFAULT_SPACING,
            r.root_dir_select.selected_path is None,
            r.gallery_settings.similarity_slider.similarity_quality
                == crate::similarity_quality::SimilarityQuality::Matched,
    {
        let mut ret = Gallery::new_empty();
        ret.dir_node = Some(DirTree::with_path(String::from_str(root_dir_path)));
        ret
    }

    /// The work to start with: scanning the root folder, if there is one.
    pub fn default_task(&self) -> (r: Command)
        ensures
            r == (match self.dir_node {
                Some(d) => Command::LoadImages(d.path),
                None => Command::NoTask,
            }),
    {
        match &self.dir_node {
            Some(dir_node) => Command::LoadImages(dir_node.path.clone()),
            None => Command::NoTask,
        }
    }

    /// Forgets the tree, the scores and the source image.
    fn clear(&mut self)
        ensures
            final(self).dir_node is None,
            final(self).selected_source_image is None,
            final(self).image_similarity.pairs().len() == 0,
            final(self).running == old(self).running,
            final(self).thumbnail_size == old(self).thumbnail_size,
            final(self).spacing == old(self).spacing,
            final(self).root_dir_select == old(self).root_dir_select,
            final(self).gallery_settings == old(self).gallery_settings,
    {
        self.dir_node = None;
        self.image_similarity = ImageSimilarity::new();
        self.selected_source_image = None;
    }

    /// Refreshes the scores: see [`refresh_scores`].
    fn image_similarity_update(&mut self) -> (r: Command)
        ensures
            refresh_scores(*old(self), *final(self), r),
    {
        let selected_source_image = match &self.selected_source_image {
            Some(x) => x.clone(),
            None => return Command::NoTask,
        };
        self.image_similarity = ImageSimilarity::new();
        if self.dir_node.is_some() {
            Command::ComputeSimilarity(selected_source_image)
        } else {
            Command::NoTask
        }
    }

    /// Applies a message to the gallery and returns the work it asks for.
    ///
    /// - `ImagesLoaded`: the tree becomes the scanned one, then the scores are refreshed.
    /// - `ScaleUp` / `ScaleDown`: the thumbnails grow by 20 from at most 600, shrink by
    ///   20 from at least 40, and stay as they are otherwise; `Quit` closes.
    /// - Settings messages go to the settings row.
    /// - The folder picker gets its message; where a folder was chosen, the gallery
    ///   forgets its tree, scores and source image, takes the unscanned folder as its
    ///   tree and asks to save it as root and scan it; otherwise the picker's work is
    ///   passed on.
    /// - `ImageSelect` is ignored while scoring runs; otherwise scoring is marked as
    ///   running, the image becomes the source and the scores are refreshed.
    /// - `ImageSimilarityCompleted` stores the scores and marks scoring as finished.
    pub fn update(&mut self, message: Message) -> (r: Command)
        requires
            valid_message(message),
        ensures
            updated(*old(self), message, *final(self), r),
    {
        match message {
            Message::ImagesLoaded(dir_node) => {
                self.dir_node = Some(dir_node);
                self.image_similarity_update()
            },
            Message::MenusMessage(message) => match message {
                menus::Message::ScaleUp => {
                    if self.thumbnail_size <= THUMBNAIL_GROW_LIMIT {
                        self.thumbnail_size = self.thumbnail_size + THUMBNAIL_STEP;
                    }
                    Command::NoTask
                },
                menus::Message::ScaleDown => {
                    if THUMBNAIL_SHRINK_LIMIT <= self.thumbnail_size {
                        self.thumbnail_size = self.thumbnail_size - THUMBNAIL_STEP;
                    }
                    Command::NoTask
                },
                menus::Message::Quit => Command::Exit,
            },
            Message::GallerySettingsMessage(message) => {
                self.gallery_settings.update(message);
                Command::NoTask
            },
            Message::RootDirSelectMessage(message) => {
                let chosen = match &message {
                    root_dir_select::Message::DialogClose(Some(path)) => Some(path.clone()),
                    _ => None,
                };
                let task = self.root_dir_select.update(message);
                match chosen {
                    Some(path) => {
                        self.clear();
                        let dir_node = DirTree::with_path(path.clone());
                        self.dir_node = Some(dir_node);
                        Command::SaveRootAndLoad(path)
                    },
                    None => Command::RootDirSelect(task),
                }
            },
            Message::ImageSelect(path) => {
                if self.running {
                    return Command::NoTask;
                }
                self.running = true;
                self.selected_source_image = Some(path);
                self.image_similarity_update()
            },
            Message::ImageSimilarityCompleted(image_similarity) => {
                self.image_similarity = image_similarity;
                self.running = false;
                Command::NoTask
            },
        }
    }

    /// What the main area shows: nothing before a folder is known, a notice where the
    /// folder holds no files and no subfolders, the grid otherwise.
    pub fn content(&self) -> (r: Content)
        ensures
            r == (match self.dir_node {
                None => Content::Blank,
                Some(d) => if d.files@.len() == 0 && d.sub_dirs@.len() == 0 {
                    Content::NoImages
                } else {
                    Content::Grid
                },
            }),
    {
        match &self.dir_node {
            None => Content::Blank,
            Some(d) => if d.is_empty() {
                Content::NoImages
            } else {
                Content::Grid
            },
        }
    }

    /// The settings row shows once some file has a score.
    pub fn shows_settings(&self) -> (r: bool)
        ensures
            r == (self.image_similarity.scores().dom() != Set::<Seq<Seq<char>>>::empty()),
    {
        !self.image_similarity.is_empty()
    }

    /// The label over the grid: the source image's path, followed by
    /// `" (calculating...)"` while scoring runs; empty without a source image.
    pub fn source_label(&self) -> (r: String)
        ensures
            r@ == (match self.selected_source_image {
                None => Seq::<char>::empty(),
                Some(p) => if self.running {
                    p@ + " (calculating...)"@
                } else {
                    p@
                },
            }),
    {
        match &self.selected_source_image {
            None => String::new(),
            Some(p) => {
                let label = p.clone();
                if self.running {
                    label.concat(" (calculating...)")
                } else {
                    label
                }
            },
        }
    }

    /// The thumbnail grid for a window that fits `columns` thumbnails per row (at least
    /// one row position is always used): the section of the tree, filtered at the chosen
    /// similarity level; `None` where no folder is known or nothing would show.
    pub fn view_grid(&self, columns: usize) -> (r: Option<GridSection>)
        ensures
            opt_section_view(r) == (match self.dir_node {
                None => None,
                Some(d) => spec_section(
                    d,
                    if columns >= 1 {
                        columns as nat
                    } else {
                        1
                    },
                    self.image_similarity.scores(),
                    self.gallery_settings.similarity_slider.similarity_quality.spec_value_bits(),
                ),
            }),
    {
        match &self.dir_node {
            None => None,
            Some(d) => {
                let columns = if columns >= 1 {
                    columns
                } else {
                    1
                };
                layout_section(
                    d,
                    columns,
                    &self.image_similarity,
                    self.gallery_settings.similarity_quality(),
                )
            },
        }
    }
}

impl Default for Gallery {
    /// A gallery with nothing scanned, default thumbnails and settings.
    fn default() -> (r: Self)
        ensures
            r.dir_node is None,
            r.selected_source_image is None,
            !r.running,
            r.image_similarity.pairs().len() == 0,
            r.thumbnail_size == DEFAULT_THUMBNAIL_SIZE,
            r.spacing == DEFAULT_SPACING,
            r.root_dir_select.selected_path is None,
            r.gallery_settings.similarity_slider.similarity_quality
                == crate::similarity_quality::SimilarityQuality::Matched,
    {
        Gallery::new_empty()
    }
}

/// Thumbnail sizes that start between 20 and 620 and are a multiple of 20 (the
/// gallery starts at 160) stay so whatever message arrives, and the spacing between
/// thumbnails never changes (it starts at 10).
pub proof fn lemma_thumbnail_stays_in_range(before: Gallery, message: Message, after: Gallery, cmd: Command)
    requires
        updated(before, message, after, cmd),
        20 <= before.thumbnail_size <= 620,
        before.thumbnail_size % 20 == 0,
    ensures
        20 <= after.thumbnail_size <= 620,
        after.thumbnail_size % 20 == 0,
        after.spacing == before.spacing,
{
}

/// A gallery fresh from its constructors starts with a thumbnail size between 20 and
/// 620 that is a multiple of 20, and a spacing of 10; by
/// [`lemma_thumbnail_stays_in_range`] every sequence of updates keeps it so.
pub proof fn lemma_initial_sizes(g: Gallery)
    requires
        g.thumbnail_size == DEFAULT_THUMBNAIL_SIZE,
        g.spacing == DEFAULT_SPACING,
    ensures
        20 <= g.thumbnail_size <= 620,
        g.thumbnail_size % 20 == 0,
        g.spacing == 10,
{
}

/// Over any sequence of messages, a gallery fresh from its constructors keeps a
/// thumbnail size between 20 and 620 that is a multiple of 20, and a spacing of 10.
pub proof fn lemma_sizes_over_updates(states: Seq<Gallery>, messages: Seq<Message>, cmds: Seq<Command>)
    requires
        states.len() == messages.len() + 1,
        cmds.len() == messages.len(),
        states[0].thumbnail_size == DEFAULT_THUMBNAIL_SIZE,
        states[0].spacing == DEFAULT_SPACING,
        forall|i: int| 0 <= i < messages.len() ==> updated(#[trigger] states[i], messages[i], states[i + 1], cmds[i]),
    ensures
        forall|i: int| 0 <= i < states.len() ==> {
            &&& 20 <= (#[trigger] states[i]).thumbnail_size <= 620
            &&& states[i].thumbnail_size % 20 == 0
            &&& states[i].spacing == 10
        },
    decreases messages.len(),
{
    if messages.len() > 0 {
        let n = messages.len() - 1;
        lemma_sizes_over_updates(states.drop_last(), messages.drop_last(), cmds.drop_last());
        assert(states.drop_last()[n] == states[n]);
        lemma_thumbnail_stays_in_range(states[n], messages[n], states[n + 1], cmds[n]);
        assert forall|i: int| 0 <= i < states.len() implies {
            &&& 20 <= (#[trigger] states[i]).thumbnail_size <= 620
            &&& states[i].thumbnail_size % 20 == 0
            &&& states[i].spacing == 10
        } by {
            if i < states.len() - 1 {
                assert(states.drop_last()[i] == states[i]);
            }
        }
    }
}

/// Growing the thumbnails and then shrinking them gives back the size they had where
/// they could grow (and were at least one step large); shrinking and then growing
/// gives it back where they could shrink.
pub proof fn lemma_scale_round_trip(size: u32)
    ensures
        THUMBNAIL_STEP <= size <= THUMBNAIL_GROW_LIMIT ==> scaled_thumbnail(
            scaled_thumbnail(size, menus::Message::ScaleUp),
            menus::Message::ScaleDown,
        ) == size,
        THUMBNAIL_SHRINK_LIMIT <= size <= THUMBNAIL_GROW_LIMIT + THUMBNAIL_STEP ==> scaled_thumbnail(
            scaled_thumbnail(size, menus::Message::ScaleDown),
            menus::Message::ScaleUp,
        ) == size,
{
}

/// While scoring runs, choosing an image changes nothing and asks for nothing.
pub proof fn lemma_select_ignored_while_running(before: Gallery, path: String, after: Gallery, cmd: Command)
    requires
        before.running,
        updated(before, Message::ImageSelect(path), after, cmd),
    ensures
        after == before,
        cmd == Command::NoTask,
{
}

/// Choosing an image while idle with a scanned tree asks for the scoring of that
/// image; when the scores arrive they are kept, scoring is finished, and the image is
/// still the source over the same tree.
pub proof fn lemma_select_then_complete(
    g0: Gallery,
    path: String,
    g1: Gallery,
    c1: Command,
    scores: ImageSimilarity,
    g2: Gallery,
    c2: Command,
)
    requires
        !g0.running,
        g0.dir_node is Some,
        updated(g0, Message::ImageSelect(path), g1, c1),
        updated(g1, Message::ImageSimilarityCompleted(scores), g2, c2),
    ensures
        c1 == Command::ComputeSimilarity(path),
        g1.running,
        c2 == Command::NoTask,
        g2.image_similarity == scores,
        !g2.running,
        g2.selected_source_image == Some(path),
        g2.dir_node == g0.dir_node,
{
}

/// Choosing a root folder asks to save and scan exactly that folder, and the gallery
/// then holds that folder, unscanned, with no source image and no scores.
pub proof fn lemma_choose_root(before: Gallery, path: String, after: Gallery, cmd: Command)
    requires
        updated(
            before,
            Message::RootDirSelectMessage(root_dir_select::Message::DialogClose(Some(path))),
            after,
            cmd,
        ),
    ensures
        cmd == Command::SaveRootAndLoad(path),
        after.dir_node matches Some(d) && d.path == path,
        after.selected_source_image is None,
        after.image_similarity.scores().dom() == Set::<Seq<Seq<char>>>::empty(),
{
    let p = after.image_similarity.pairs();
    assert(p.len() == 0);
    assert(crate::image_similarity::map_of(p).dom() =~= Set::<Seq<Seq<char>>>::empty());
}

} // verus!

//! User settings.
//!
//! Settings live apart from the library database and from derived artifacts:
//! the settings in the configuration directory, the library in the data
//! directory, covers and extracted archives in the cache directory. So the
//! cache can be cleared without losing the library or the preferences.
use crate::paths::{join_path, joined};
use vstd::prelude::*;

verus! {

/// How the reader fills the space around a page that does not match the
/// window's aspect ratio.
#[derive(Clone, Copy, Debug, PartialEq, Eq, Structural)]
pub enum Background {
    /// Follow the desktop theme.
    Theme,
    /// Solid black, like a cinema.
    Black,
}

impl Background {
    /// The name under which a style is offered.
    pub open spec fn label_text(self) -> Seq<char> {
        match self {
            Background::Theme => "Theme"@,
            Background::Black => "Black"@,
        }
    }

    /// The place of a style in the list in which the styles are offered.
    pub open spec fn place(self) -> nat {
        match self {
            Background::Theme => 0,
            Background::Black => 1,
        }
    }

    /// The name under which a style is offered.
    pub fn label(self) -> (r: &'static str)
        ensures
            r@ == self.label_text(),
    {
        match self {
            Background::Theme => "Theme",
            Background::Black => "Black",
        }
    }

    /// The place of a style in the list in which the styles are offered.
    pub fn index(self) -> (r: usize)
        ensures
            r == self.place(),
    {
        match self {
            Background::Theme => 0,
            Background::Black => 1,
        }
    }

    /// The style at a place of the list in which the styles are offered.
    pub fn from_index(idx: usize) -> (r: Option<Background>)
        ensures
            match r {
                Some(b) => b.place() == idx,
                None => forall|b: Background| #[trigger] b.place() != idx,
            },
    {
        if idx == 0 {
            Some(Background::Theme)
        } else if idx == 1 {
            Some(Background::Black)
        } else {
            None
        }
    }
}

/// The preferences that the library acts on. The opacity of the backdrop is
/// the business of the one who paints it.
#[derive(Clone, Copy, Debug)]
pub struct Settings {
    pub background: Background,
    /// Reader preferences that last across sessions.
    pub dual_page: bool,
    pub theater_mode: bool,
    /// Look up metadata online when opening a comic.
    pub fetch_metadata: bool,
}

impl Default for Settings {
    fn default() -> (r: Self)
        ensures
            r.background == Background::Theme,
            !r.dual_page,
            !r.theater_mode,
            r.fetch_metadata,
    {
        Settings {
            background: Background::Theme,
            dual_page: false,
            theater_mode: false,
            fetch_metadata: true,
        }
    }
}

/// Where the settings are kept, below the configuration directory.
pub fn config_path(config_dir: &str) -> (r: String)
    ensures
        r@ == joined(config_dir@, "settings.json"@),
{
    join_path(config_dir, "settings.json")
}

} // verus!

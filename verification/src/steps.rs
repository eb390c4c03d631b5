//! The building blocks of what messages do: errors, opening, listing the
//! library, and saving progress.
use crate::app::{action_models, chapter_of, model_fields, Action, ActionModel, App, AppView, Model};
use crate::tasks::{open_any, opening_of};
use crate::text::chars_of;
use vstd::prelude::*;

verus! {

/// Nothing happens.
pub open spec fn unchanged(m: Model) -> (Model, Seq<ActionModel>) {
    (m, Seq::empty())
}

/// An error is shown.
pub open spec fn failed(m: Model, reason: Seq<char>) -> (Model, Seq<ActionModel>) {
    (Model { error: Some(reason), ..m }, Seq::empty())
}

/// A path is opened, with no page asked for.
pub open spec fn opening(m: Model, path: Seq<char>) -> (Model, Seq<ActionModel>) {
    (
        Model { loading: true, error: None, app_view: AppView::Reader, resume: None, ..m },
        seq![opening_of(path)],
    )
}

/// The library is listed anew, if there is one: everything, or what the search
/// finds.
#[verifier::opaque]
pub open spec fn listing(m: Model) -> Seq<ActionModel> {
    if m.has_db {
        seq![
            ActionModel::QueryLibrary(
                if m.library_search.len() == 0 {
                    None
                } else {
                    Some(m.library_search)
                },
            ),
        ]
    } else {
        Seq::empty()
    }
}

/// The reading progress is saved, if there is a library and something is open:
/// of a book the chapter, of a comic the page and its chapter.
#[verifier::opaque]
pub open spec fn progress(m: Model) -> Seq<ActionModel> {
    if m.has_db && m.open_path is Some {
        seq![
            ActionModel::SaveProgress {
                path: m.open_path->0,
                page: if m.epub_book is Some {
                    0
                } else {
                    m.current_page
                },
                chapter: if m.epub_book is Some {
                    m.epub_chapter
                } else {
                    match chapter_of(m.chapters, m.current_page, 0) {
                        Some(i) => i,
                        None => 0,
                    }
                },
            },
        ]
    } else {
        Seq::empty()
    }
}

/// The last of `n` places, or the first if there is none.
pub open spec fn last_place(n: nat) -> int {
    if n == 0 {
        0
    } else {
        n - 1
    }
}

/// The smaller of two numbers.
pub open spec fn smaller(a: int, b: int) -> int {
    if a < b {
        a
    } else {
        b
    }
}

/// The last of `n` places, or the first if there is none.
pub(crate) fn last_of(n: usize) -> (r: usize)
    ensures
        r == last_place(n as nat),
{
    if n == 0 {
        0
    } else {
        n - 1
    }
}

/// No actions.
pub(crate) fn nothing() -> (r: Vec<Action>)
    ensures
        action_models(r@) == Seq::<ActionModel>::empty(),
{
    let r: Vec<Action> = Vec::new();
    assert(action_models(r@) =~= Seq::empty());
    r
}

/// One action.
pub(crate) fn only(a: Action) -> (r: Vec<Action>)
    ensures
        action_models(r@) == seq![a@],
{
    let mut r: Vec<Action> = Vec::new();
    r.push(a);
    assert(action_models(r@) =~= seq![a@]);
    r
}

/// One list of actions behind another.
pub(crate) fn chain(a: Vec<Action>, b: Vec<Action>) -> (r: Vec<Action>)
    ensures
        action_models(r@) == action_models(a@) + action_models(b@),
{
    let ghost x = a@;
    let ghost y = b@;
    let mut a = a;
    let mut b = b;
    a.append(&mut b);
    assert(action_models(a@) =~= action_models(x) + action_models(y));
    a
}

impl App {
    /// Shows an error.
    pub(crate) fn fail(&mut self, reason: String) -> (r: Vec<Action>)
        ensures
            (final(self)@, action_models(r@)) == failed(old(self)@, reason@),
    {
        let ghost m = self@;
        self.error = Some(reason);
        assert(self@ == failed(m, reason@).0) by {
            reveal(App::model);
        }
        nothing()
    }

    /// Opens a path, with no page asked for.
    pub(crate) fn open_now(&mut self, path: String) -> (r: Vec<Action>)
        ensures
            (final(self)@, action_models(r@)) == opening(old(self)@, path@),
    {
        let ghost m = self@;
        self.loading = true;
        self.error = None;
        self.app_view = AppView::Reader;
        self.resume = None;
        assert(self@ == opening(m, path@).0) by {
            reveal(App::model);
        }
        only(open_any(path))
    }

    /// Asks for the library to be listed anew.
    pub fn reload_library(&self) -> (r: Vec<Action>)
        ensures
            action_models(r@) == listing(self@),
    {
        reveal(listing);
        proof {
            model_fields(*self);
        }
        if !self.has_db {
            return nothing();
        }
        let search = chars_of(self.library_search.as_str());
        if search.len() == 0 {
            only(Action::QueryLibrary(None))
        } else {
            only(Action::QueryLibrary(Some(self.library_search.clone())))
        }
    }

    /// Asks for the reading progress to be saved.
    pub fn persist_progress(&self) -> (r: Vec<Action>)
        ensures
            action_models(r@) == progress(self@),
    {
        reveal(progress);
        proof {
            model_fields(*self);
        }
        if !self.has_db {
            return nothing();
        }
        match &self.open_path {
            None => nothing(),
            Some(path) => {
                if self.epub_book.is_some() {
                    only(
                        Action::SaveProgress {
                            path: path.clone(),
                            page: 0,
                            chapter: self.epub_chapter,
                        },
                    )
                } else {
                    let chapter: usize = match self.current_chapter() {
                        Some((i, _)) => i,
                        None => 0,
                    };
                    only(
                        Action::SaveProgress {
                            path: path.clone(),
                            page: self.current_page,
                            chapter,
                        },
                    )
                }
            },
        }
    }
}

} // verus!

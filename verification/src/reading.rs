//! What happens while reading: turning pages, switching layouts, zooming, and
//! selecting chapters.
use crate::app::{action_models, drop_finger, has_number, model_fields, put_finger, put_number, step_of, Action,
    ActionModel, App, AppView, Layout, Model, TouchEvent};
use crate::comic::{copy_page, PageSource};
use crate::settings::Settings;
use crate::steps::{chain, last_of, last_place, nothing, only, progress, smaller, unchanged};
use crate::text::{copy_opt, opt_text};
use crate::window::refreshed;
use vstd::prelude::*;

verus! {

// ── Turning pages ────────────────────────────────────────────────────────────

/// The reader turns to a page.
#[verifier::opaque]
pub open spec fn turned_to(m: Model, page: int, nav_dir: int) -> (Model, Seq<ActionModel>) {
    let n = Model { current_page: page, nav_dir, ..m };
    (refreshed(n).0, progress(n) + refreshed(n).1)
}

/// The reader turns to a chapter of a book.
#[verifier::opaque]
pub open spec fn book_turned_to(m: Model, chapter: int) -> (Model, Seq<ActionModel>) {
    let n = Model { epub_chapter: chapter, ..m };
    (n, progress(n))
}

/// One step forward: a chapter of a book, or as many pages of a comic as are
/// shown, but not past the end.
#[verifier::opaque]
pub open spec fn next_page(m: Model) -> (Model, Seq<ActionModel>) {
    match m.epub_book {
        Some(book) => {
            let new = smaller(m.epub_chapter + 1, last_place(book.chapters@.len()));
            if new != m.epub_chapter {
                book_turned_to(m, new)
            } else {
                unchanged(m)
            }
        },
        None => {
            let new = smaller(m.current_page + step_of(m.layout), last_place(m.sources.len()));
            if new != m.current_page {
                turned_to(m, new, 1)
            } else {
                unchanged(m)
            }
        },
    }
}

/// One step back: a chapter of a book, or as many pages of a comic as are
/// shown, but not past the beginning.
#[verifier::opaque]
pub open spec fn prev_page(m: Model) -> (Model, Seq<ActionModel>) {
    match m.epub_book {
        Some(book) => if m.epub_chapter > 0 {
            book_turned_to(m, m.epub_chapter - 1)
        } else {
            unchanged(m)
        },
        None => {
            let new = if m.current_page < step_of(m.layout) {
                0
            } else {
                m.current_page - step_of(m.layout)
            };
            if new != m.current_page {
                turned_to(m, new, -1)
            } else {
                unchanged(m)
            }
        },
    }
}

/// A chapter is selected.
#[verifier::opaque]
pub open spec fn chapter_selected(m: Model, ch_idx: int) -> (Model, Seq<ActionModel>) {
    let n = Model { show_chapter_select: false, ..m };
    if m.epub_book is Some {
        book_turned_to(n, ch_idx)
    } else if 0 <= ch_idx < m.chapters.len() {
        turned_to(n, m.chapters[ch_idx].start as int, 1)
    } else {
        unchanged(m)
    }
}

impl App {
    /// How many pages there are.
    pub fn page_count(&self) -> (r: usize)
        ensures
            r == self@.sources.len(),
    {
        reveal(App::model);
        self.sources.len()
    }

    /// How many chapters there are.
    pub fn chapter_count(&self) -> (r: usize)
        ensures
            r == self@.chapters.len(),
    {
        reveal(App::model);
        self.chapters.len()
    }

    /// Where a chapter starts.
    fn chapter_start(&self, i: usize) -> (r: usize)
        requires
            i < self@.chapters.len(),
        ensures
            r == self@.chapters[i as int].start,
    {
        reveal(App::model);
        self.chapters[i].start
    }

    /// Turns to a page.
    fn turn_to(&mut self, page: usize, nav_dir: i8) -> (r: Vec<Action>)
        ensures
            (final(self)@, action_models(r@)) == turned_to(
                old(self)@,
                page as int,
                nav_dir as int,
            ),
    {
        reveal(turned_to);
        let ghost n = Model { current_page: page as int, nav_dir: nav_dir as int, ..self@ };
        self.current_page = page;
        self.nav_dir = nav_dir;
        assert(self@ == n) by {
            reveal(App::model);
        }
        let saved = self.persist_progress();
        let asked = self.refresh_window();
        chain(saved, asked)
    }

    /// Turns to a chapter of a book.
    fn turn_book_to(&mut self, chapter: usize) -> (r: Vec<Action>)
        ensures
            (final(self)@, action_models(r@)) == book_turned_to(old(self)@, chapter as int),
    {
        reveal(book_turned_to);
        let ghost n = Model { epub_chapter: chapter as int, ..self@ };
        self.epub_chapter = chapter;
        assert(self@ == n) by {
            reveal(App::model);
        }
        self.persist_progress()
    }

    /// The last chapter of a book, if a book is open.
    fn last_book_chapter(&self) -> (r: Option<usize>)
        ensures
            match self@.epub_book {
                Some(book) => r matches Some(i) && i == last_place(book.chapters@.len()),
                None => r is None,
            },
    {
        reveal(App::model);
        match &self.epub_book {
            Some(book) => Some(last_of(book.chapters.len())),
            None => None,
        }
    }

    /// One step forward.
    pub(crate) fn go_next(&mut self) -> (r: Vec<Action>)
        ensures
            (final(self)@, action_models(r@)) == next_page(old(self)@),
    {
        reveal(next_page);
        proof {
            model_fields(*self);
        }
        if let Some(last) = self.last_book_chapter() {
            let new: usize = if self.epub_chapter < last {
                self.epub_chapter + 1
            } else {
                last
            };
            return if new != self.epub_chapter {
                self.turn_book_to(new)
            } else {
                nothing()
            };
        }
        let last: usize = last_of(self.page_count());
        let step: usize = self.page_step();
        let new: usize = if self.current_page < last && last - self.current_page > step {
            self.current_page + step
        } else {
            last
        };
        if new != self.current_page {
            self.turn_to(new, 1)
        } else {
            nothing()
        }
    }

    /// One step back.
    pub(crate) fn go_prev(&mut self) -> (r: Vec<Action>)
        ensures
            (final(self)@, action_models(r@)) == prev_page(old(self)@),
    {
        reveal(prev_page);
        proof {
            model_fields(*self);
        }
        if self.epub_book.is_some() {
            return if self.epub_chapter > 0 {
                self.turn_book_to(self.epub_chapter - 1)
            } else {
                nothing()
            };
        }
        let step: usize = self.page_step();
        let new: usize = if self.current_page < step {
            0
        } else {
            self.current_page - step
        };
        if new != self.current_page {
            self.turn_to(new, -1)
        } else {
            nothing()
        }
    }

    /// Shows or conceals the list of chapters.
    fn set_chapter_select(&mut self, show: bool)
        ensures
            final(self)@ == (Model { show_chapter_select: show, ..old(self)@ }),
    {
        let ghost n = Model { show_chapter_select: show, ..self@ };
        self.show_chapter_select = show;
        assert(self@ == n) by {
            reveal(App::model);
        }
    }

    /// Selects a chapter.
    pub(crate) fn select_chapter(&mut self, ch_idx: usize) -> (r: Vec<Action>)
        ensures
            (final(self)@, action_models(r@)) == chapter_selected(old(self)@, ch_idx as int),
    {
        reveal(chapter_selected);
        proof {
            model_fields(*self);
        }
        if self.epub_book.is_some() {
            self.set_chapter_select(false);
            self.turn_book_to(ch_idx)
        } else if ch_idx < self.chapter_count() {
            let start: usize = self.chapter_start(ch_idx);
            self.set_chapter_select(false);
            self.turn_to(start, 1)
        } else {
            nothing()
        }
    }
}

// ── Layout, window and zoom ──────────────────────────────────────────────────

/// The other layout. Two pages start at an even one.
pub open spec fn other_layout(m: Model) -> Model {
    match m.layout {
        Layout::Dual => Model { layout: Layout::Single, ..m },
        Layout::Single => Model {
            layout: Layout::Dual,
            current_page: if m.current_page % 2 != 0 {
                m.current_page - 1
            } else {
                m.current_page
            },
            ..m
        },
    }
}

/// The layout is switched, and remembered as a preference.
#[verifier::opaque]
pub open spec fn layout_toggled(m: Model) -> (Model, Seq<ActionModel>) {
    let n = other_layout(m);
    let s = Model {
        settings: Settings { dual_page: n.layout == Layout::Dual, ..n.settings },
        ..n
    };
    (refreshed(s).0, seq![ActionModel::SaveSettings] + refreshed(s).1)
}

/// The whole screen is taken or left.
#[verifier::opaque]
pub open spec fn fullscreen_toggled(m: Model) -> (Model, Seq<ActionModel>) {
    (
        Model { fullscreen: !m.fullscreen, ..m },
        if m.has_window {
            seq![ActionModel::SetFullscreen(!m.fullscreen)]
        } else {
            Seq::empty()
        },
    )
}

/// Theater mode is switched, and remembered as a preference.
#[verifier::opaque]
pub open spec fn theater_toggled(m: Model) -> (Model, Seq<ActionModel>) {
    (
        Model {
            theater_mode: !m.theater_mode,
            settings: Settings { theater_mode: !m.theater_mode, ..m.settings },
            ..m
        },
        seq![ActionModel::SaveSettings],
    )
}

/// Zooming is switched.
pub open spec fn zoom_set(m: Model, active: bool) -> (Model, Seq<ActionModel>) {
    (Model { zoom_active: active, ..m }, seq![ActionModel::ResetZoom])
}

/// Zooming begins, unless it has already.
pub open spec fn zoom_entered(m: Model) -> (Model, Seq<ActionModel>) {
    if m.zoom_active {
        unchanged(m)
    } else {
        zoom_set(m, true)
    }
}

/// Whether a gesture may begin to zoom: while a comic is being read.
pub open spec fn can_zoom(m: Model) -> bool {
    m.app_view == AppView::Reader && m.sources.len() > 0
}

/// What a finger does: the second one on the screen begins to zoom.
#[verifier::opaque]
pub open spec fn touched(m: Model, event: TouchEvent) -> (Model, Seq<ActionModel>) {
    match event {
        TouchEvent::Pressed(id) => {
            let n = Model { touches: m.touches.insert(id), ..m };
            if m.app_view == AppView::Reader && n.touches.len() == 2 {
                zoom_entered(n)
            } else {
                unchanged(n)
            }
        },
        TouchEvent::Lifted(id) => unchanged(Model { touches: m.touches.remove(id), ..m }),
        TouchEvent::Lost(id) => unchanged(Model { touches: m.touches.remove(id), ..m }),
        TouchEvent::Moved => unchanged(m),
    }
}

impl App {
    /// Switches to the other layout.
    fn switch_layout(&mut self)
        ensures
            final(self)@ == other_layout(old(self)@),
    {
        let ghost m = self@;
        proof {
            model_fields(*self);
        }
        match self.layout {
            Layout::Dual => {
                self.layout = Layout::Single;
            },
            Layout::Single => {
                self.layout = Layout::Dual;
                if self.current_page % 2 != 0 {
                    self.current_page = self.current_page - 1;
                }
            },
        }
        assert(self@ == other_layout(m)) by {
            reveal(App::model);
        }
    }

    /// Switches the layout, and remembers it as a preference.
    pub(crate) fn toggle_layout(&mut self) -> (r: Vec<Action>)
        ensures
            (final(self)@, action_models(r@)) == layout_toggled(old(self)@),
    {
        reveal(layout_toggled);
        self.switch_layout();
        proof {
            model_fields(*self);
        }
        let settings = Settings { dual_page: self.layout == Layout::Dual, ..self.settings };
        self.set_settings(settings);
        let asked = self.refresh_window();
        chain(only(Action::SaveSettings), asked)
    }

    /// Takes or leaves the whole screen.
    pub(crate) fn toggle_fullscreen(&mut self) -> (r: Vec<Action>)
        ensures
            (final(self)@, action_models(r@)) == fullscreen_toggled(old(self)@),
    {
        reveal(fullscreen_toggled);
        let ghost m = self@;
        proof {
            model_fields(*self);
        }
        self.fullscreen = !self.fullscreen;
        assert(self@ == (Model { fullscreen: !m.fullscreen, ..m })) by {
            reveal(App::model);
        }
        if self.has_window {
            only(Action::SetFullscreen(self.fullscreen))
        } else {
            nothing()
        }
    }

    /// Switches theater mode, and remembers it as a preference.
    pub(crate) fn toggle_theater(&mut self) -> (r: Vec<Action>)
        ensures
            (final(self)@, action_models(r@)) == theater_toggled(old(self)@),
    {
        reveal(theater_toggled);
        proof {
            model_fields(*self);
        }
        let settings = Settings { theater_mode: !self.theater_mode, ..self.settings };
        self.flip_theater();
        self.set_settings(settings);
        only(Action::SaveSettings)
    }

    /// Switches theater mode.
    fn flip_theater(&mut self)
        ensures
            final(self)@ == (Model { theater_mode: !old(self)@.theater_mode, ..old(self)@ }),
    {
        let ghost m = self@;
        self.theater_mode = !self.theater_mode;
        assert(self@ == (Model { theater_mode: !m.theater_mode, ..m })) by {
            reveal(App::model);
        }
    }

    /// Takes over preferences.
    pub(crate) fn set_settings(&mut self, settings: Settings)
        ensures
            final(self)@ == (Model { settings, ..old(self)@ }),
    {
        let ghost m = self@;
        self.settings = settings;
        assert(self@ == (Model { settings, ..m })) by {
            reveal(App::model);
        }
    }

    /// Switches zooming.
    pub(crate) fn set_zoom(&mut self, active: bool) -> (r: Vec<Action>)
        ensures
            (final(self)@, action_models(r@)) == zoom_set(old(self)@, active),
    {
        let ghost m = self@;
        self.zoom_active = active;
        assert(self@ == zoom_set(m, active).0) by {
            reveal(App::model);
        }
        only(Action::ResetZoom)
    }

    /// Begins to zoom, unless it has begun already.
    pub fn enter_zoom(&mut self) -> (r: Vec<Action>)
        ensures
            (final(self)@, action_models(r@)) == zoom_entered(old(self)@),
    {
        proof {
            model_fields(*self);
        }
        if self.zoom_active {
            nothing()
        } else {
            self.set_zoom(true)
        }
    }

    /// Whether a gesture may begin to zoom.
    fn may_zoom(&self) -> (r: bool)
        ensures
            r == can_zoom(self@),
    {
        proof {
            model_fields(*self);
        }
        self.app_view == AppView::Reader && self.page_count() > 0
    }

    /// A gesture begins to zoom, if it may.
    pub(crate) fn bootstrap_zoom(&mut self, allowed: bool) -> (r: Vec<Action>)
        ensures
            (final(self)@, action_models(r@)) == (if can_zoom(old(self)@) && allowed {
                zoom_entered(old(self)@)
            } else {
                unchanged(old(self)@)
            }),
    {
        if self.may_zoom() && allowed {
            self.enter_zoom()
        } else {
            nothing()
        }
    }

    /// Whether the reader is shown.
    pub fn in_reader(&self) -> (r: bool)
        ensures
            r == (self@.app_view == AppView::Reader),
    {
        proof {
            model_fields(*self);
        }
        self.app_view == AppView::Reader
    }

    /// Puts a finger on the screen, and tells how many there are then.
    fn press_finger(&mut self, id: u64) -> (r: usize)
        ensures
            final(self)@ == (Model { touches: old(self)@.touches.insert(id), ..old(self)@ }),
            r == final(self)@.touches.len(),
    {
        let r: usize = put_finger(&mut self.touches, id);
        reveal(App::model);
        r
    }

    /// Takes a finger off the screen.
    fn lift_finger(&mut self, id: u64)
        ensures
            final(self)@ == (Model { touches: old(self)@.touches.remove(id), ..old(self)@ }),
    {
        drop_finger(&mut self.touches, id);
        reveal(App::model);
    }

    /// Keeps track of the fingers on the screen; the second one begins to zoom.
    pub fn handle_touch(&mut self, event: TouchEvent) -> (r: Vec<Action>)
        ensures
            (final(self)@, action_models(r@)) == touched(old(self)@, event),
    {
        reveal(touched);
        match event {
            TouchEvent::Pressed(id) => {
                let count: usize = self.press_finger(id);
                if self.in_reader() && count == 2 {
                    self.enter_zoom()
                } else {
                    nothing()
                }
            },
            TouchEvent::Lifted(id) => {
                self.lift_finger(id);
                nothing()
            },
            TouchEvent::Lost(id) => {
                self.lift_finger(id);
                nothing()
            },
            TouchEvent::Moved => nothing(),
        }
    }
}

// ── Chapter covers ───────────────────────────────────────────────────────────

/// The first `n` chapters, without those whose covers are at hand or being
/// made.
pub open spec fn coverless(n: nat, covers: Set<usize>, pending: Set<usize>) -> Seq<usize>
    decreases n,
{
    if n == 0 {
        Seq::empty()
    } else {
        let rest = coverless((n - 1) as nat, covers, pending);
        let i = (n - 1) as usize;
        if covers.contains(i) || pending.contains(i) {
            rest
        } else {
            rest.push(i)
        }
    }
}

/// The chapters that have no cover yet are looked up in the cache.
#[verifier::opaque]
pub open spec fn covers_wanted(m: Model) -> Seq<ActionModel> {
    if m.open_path is Some {
        seq![
            ActionModel::LookForCovers(
                coverless(m.chapters.len(), m.chapter_covers, m.covers_pending),
            ),
        ]
    } else {
        Seq::empty()
    }
}

/// The list of chapters is shown or concealed.
#[verifier::opaque]
pub open spec fn chapter_select_toggled(m: Model) -> (Model, Seq<ActionModel>) {
    let n = Model { show_chapter_select: !m.show_chapter_select, ..m };
    (
        n,
        if n.show_chapter_select {
            covers_wanted(n)
        } else {
            Seq::empty()
        },
    )
}

/// It is known of a chapter whether its cover is in the cache: if so, it is
/// loaded; if not, it is made of the chapter's first page, if there is one.
#[verifier::opaque]
pub open spec fn cover_looked(m: Model, i: usize, on_disk: bool) -> (Model, Seq<ActionModel>) {
    if m.open_path is None || i >= m.chapters.len() || m.chapter_covers.contains(i)
        || m.covers_pending.contains(i) {
        unchanged(m)
    } else if on_disk {
        (
            Model { chapter_covers: m.chapter_covers.insert(i), ..m },
            seq![ActionModel::LoadChapterCover(i as int)],
        )
    } else if m.chapters[i as int].page_count > 0 {
        (
            Model { covers_pending: m.covers_pending.insert(i), ..m },
            seq![
                ActionModel::MakeChapterCover {
                    chapter: i as int,
                    source: m.sources[m.chapters[i as int].start as int],
                    path: m.open_path->0,
                },
            ],
        )
    } else {
        unchanged(m)
    }
}

/// It is known of several chapters whether their covers are in the cache.
pub open spec fn covers_looked(m: Model, list: Seq<(usize, bool)>) -> (Model, Seq<ActionModel>)
    decreases list.len(),
{
    if list.len() == 0 {
        unchanged(m)
    } else {
        let (n, done) = covers_looked(m, list.drop_last());
        let (u, more) = cover_looked(n, list.last().0, list.last().1);
        (u, done + more)
    }
}

/// Looking a cover up leaves the comic as it is.
proof fn cover_looked_keeps(m: Model, i: usize, on_disk: bool)
    ensures
        cover_looked(m, i, on_disk).0.chapters == m.chapters,
        cover_looked(m, i, on_disk).0.sources == m.sources,
{
    reveal(cover_looked);
}

impl App {
    /// Asks for the covers of chapters that have none yet.
    pub fn queue_missing_covers(&self) -> (r: Vec<Action>)
        ensures
            action_models(r@) == covers_wanted(self@),
    {
        reveal(covers_wanted);
        reveal(App::model);
        if self.open_path.is_none() {
            return nothing();
        }
        let mut list: Vec<usize> = Vec::new();
        let count: usize = self.chapter_count();
        assert(list@ =~= coverless(0, self.chapter_covers@, self.covers_pending@));
        for i in 0..count
            invariant
                list@ == coverless(i as nat, self.chapter_covers@, self.covers_pending@),
        {
            if !has_number(&self.chapter_covers, i) && !has_number(&self.covers_pending, i) {
                list.push(i);
            }
        }
        only(Action::LookForCovers(list))
    }

    /// Shows or conceals the list of chapters.
    pub(crate) fn toggle_chapter_select(&mut self) -> (r: Vec<Action>)
        ensures
            (final(self)@, action_models(r@)) == chapter_select_toggled(old(self)@),
    {
        reveal(chapter_select_toggled);
        proof {
            model_fields(*self);
        }
        let show = !self.show_chapter_select;
        self.set_chapter_select(show);
        if show {
            self.queue_missing_covers()
        } else {
            nothing()
        }
    }

    /// Notes that the cover of a chapter is at hand.
    pub(crate) fn put_cover(&mut self, i: usize)
        ensures
            final(self)@ == (Model {
                chapter_covers: old(self)@.chapter_covers.insert(i),
                ..old(self)@
            }),
    {
        put_number(&mut self.chapter_covers, i);
        reveal(App::model);
    }

    /// Notes that the cover of a chapter is being made.
    fn await_cover(&mut self, i: usize)
        ensures
            final(self)@ == (Model {
                covers_pending: old(self)@.covers_pending.insert(i),
                ..old(self)@
            }),
    {
        put_number(&mut self.covers_pending, i);
        reveal(App::model);
    }

    /// The first page of a chapter.
    fn first_page_of(&self, i: usize) -> (r: PageSource)
        requires
            self.well_formed(),
            i < self@.chapters.len(),
            self@.chapters[i as int].page_count > 0,
        ensures
            r@ == self@.sources[self@.chapters[i as int].start as int],
    {
        proof {
            model_fields(*self);
            assert(self@.chapters[i as int] == self.chapters@[i as int]@);
        }
        let start: usize = self.chapters[i].start;
        copy_page(&self.sources[start])
    }

    /// Whether the cover of a chapter is at hand or being made.
    fn is_covered(&self, i: usize) -> (r: bool)
        ensures
            r == (self@.chapter_covers.contains(i) || self@.covers_pending.contains(i)),
    {
        reveal(App::model);
        has_number(&self.chapter_covers, i) || has_number(&self.covers_pending, i)
    }

    /// The path of what is open.
    pub(crate) fn path_at_hand(&self) -> (r: Option<String>)
        ensures
            opt_text(r) == self@.open_path,
    {
        reveal(App::model);
        copy_opt(&self.open_path)
    }

    /// Whether a chapter has pages.
    fn has_pages(&self, i: usize) -> (r: bool)
        requires
            i < self@.chapters.len(),
        ensures
            r == (self@.chapters[i as int].page_count > 0),
    {
        reveal(App::model);
        self.chapters[i].page_count > 0
    }

    /// Loads or makes the cover of a chapter.
    fn look_cover(&mut self, i: usize, on_disk: bool) -> (r: Vec<Action>)
        requires
            old(self).well_formed(),
        ensures
            (final(self)@, action_models(r@)) == cover_looked(old(self)@, i, on_disk),
    {
        reveal(cover_looked);
        if i >= self.chapter_count() || self.is_covered(i) {
            return nothing();
        }
        let path = match self.path_at_hand() {
            Some(p) => p,
            None => {
                return nothing();
            },
        };
        if on_disk {
            self.put_cover(i);
            return only(Action::LoadChapterCover(i));
        }
        if self.has_pages(i) {
            let source = self.first_page_of(i);
            self.await_cover(i);
            return only(Action::MakeChapterCover { chapter: i, source, path });
        }
        nothing()
    }

    /// Loads or makes the covers of several chapters.
    pub(crate) fn look_covers(&mut self, list: &Vec<(usize, bool)>) -> (r: Vec<Action>)
        requires
            old(self).well_formed(),
        ensures
            (final(self)@, action_models(r@)) == covers_looked(old(self)@, list@),
            final(self).well_formed(),
    {
        let ghost m = self@;
        let mut out = nothing();
        for k in 0..list.len()
            invariant
                self.well_formed(),
                (self@, action_models(out@)) == covers_looked(m, list@.take(k as int)),
        {
            let ghost before = self@;
            assert(list@.take(k + 1).drop_last() =~= list@.take(k as int));
            let more = self.look_cover(list[k].0, list[k].1);
            proof {
                cover_looked_keeps(before, list@[k as int].0, list@[k as int].1);
            }
            out = chain(out, more);
        }
        assert(list@.take(list@.len() as int) =~= list@);
        out
    }
}

} // verus!

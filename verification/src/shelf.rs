//! What happens to the library: searching, listing, folders, scans and covers.
use crate::app::{action_models, drop_number, has_id, put_id, Action, ActionModel, App, Model, ScanOutcome};
use crate::library::SeriesEntry;
use crate::paths::{same_components, same_path};
use crate::steps::{chain, failed, listing, nothing, only, unchanged};
use crate::tasks::{expanded, shellexpand_home};
use crate::text::{chars_of, opt_text, same_text, string_of, text_copy, texts, trim, trimmed};
use crate::weburl::{parse_url, url_of};
use vstd::prelude::*;

verus! {

// ── Searching and listing ────────────────────────────────────────────────────

/// The search changes.
#[verifier::opaque]
pub open spec fn searched(m: Model, query: Seq<char>) -> (Model, Seq<ActionModel>) {
    let n = Model { library_search: query, ..m };
    (n, listing(n))
}

/// The covers that are loaded from the cache: of the first `n` series, those
/// that have one there and are not at hand yet.
pub open spec fn covers_to_load(
    entries: Seq<SeriesEntry>,
    on_disk: Seq<bool>,
    covers: Set<i64>,
    n: nat,
) -> Seq<ActionModel>
    decreases n,
{
    if n == 0 {
        Seq::empty()
    } else {
        let rest = covers_to_load(entries, on_disk, covers, (n - 1) as nat);
        let i = n - 1;
        if !covers.contains(entries[i].id) && i < on_disk.len() && on_disk[i] {
            rest.push(ActionModel::LoadLibraryCover(entries[i].id))
        } else {
            rest
        }
    }
}

/// The library was listed.
#[verifier::opaque]
pub open spec fn listed(m: Model, entries: Seq<SeriesEntry>, on_disk: Seq<bool>) -> (
    Model,
    Seq<ActionModel>,
) {
    (
        Model { library_entries: entries, ..m },
        covers_to_load(entries, on_disk, m.library_covers, entries.len()),
    )
}

impl App {
    /// Takes over a search.
    pub(crate) fn search_library(&mut self, query: String) -> (r: Vec<Action>)
        ensures
            (final(self)@, action_models(r@)) == searched(old(self)@, query@),
    {
        reveal(searched);
        let ghost n = Model { library_search: query@, ..self@ };
        self.library_search = query;
        assert(self@ == n) by {
            reveal(App::model);
        }
        self.reload_library()
    }

    /// Takes over what the library lists.
    fn set_entries(&mut self, entries: Vec<SeriesEntry>)
        ensures
            final(self)@ == (Model { library_entries: entries@, ..old(self)@ }),
    {
        let ghost n = Model { library_entries: entries@, ..self@ };
        self.library_entries = entries;
        assert(self@ == n) by {
            reveal(App::model);
        }
    }

    /// Whether the cover of a series is at hand.
    pub fn has_cover(&self, id: i64) -> (r: bool)
        ensures
            r == self@.library_covers.contains(id),
    {
        reveal(App::model);
        has_id(&self.library_covers, id)
    }

    /// The covers that are loaded from the cache.
    fn load_covers(&self, entries: &Vec<SeriesEntry>, on_disk: &Vec<bool>) -> (r: Vec<Action>)
        ensures
            action_models(r@) == covers_to_load(
                entries@,
                on_disk@,
                self@.library_covers,
                entries@.len(),
            ),
    {
        let mut out = nothing();
        for i in 0..entries.len()
            invariant
                action_models(out@) == covers_to_load(
                    entries@,
                    on_disk@,
                    self@.library_covers,
                    i as nat,
                ),
        {
            let id = entries[i].id;
            if !self.has_cover(id) && i < on_disk.len() && on_disk[i] {
                let ghost was = action_models(out@);
                let action = Action::LoadLibraryCover(id);
                out.push(action);
                assert(action_models(out@) =~= was.push(action@));
            }
        }
        out
    }

    /// Takes over what the library lists.
    pub(crate) fn library_listed(&mut self, entries: Vec<SeriesEntry>, on_disk: &Vec<bool>) -> (r:
        Vec<Action>)
        ensures
            (final(self)@, action_models(r@)) == listed(old(self)@, entries@, on_disk@),
    {
        reveal(listed);
        let r = self.load_covers(&entries, on_disk);
        self.set_entries(entries);
        r
    }
}

// ── Covers ───────────────────────────────────────────────────────────────────

/// The first series at the given path.
pub open spec fn series_at(found: Seq<SeriesEntry>, path: Seq<char>) -> Option<i64>
    decreases found.len(),
{
    if found.len() == 0 {
        None
    } else if found[0].path@ == path {
        Some(found[0].id)
    } else {
        series_at(found.drop_first(), path)
    }
}

/// The cover of a series is in a file.
#[verifier::opaque]
pub open spec fn cover_ready(m: Model, series_id: i64, path: Seq<char>) -> (
    Model,
    Seq<ActionModel>,
) {
    (
        Model { library_covers: m.library_covers.insert(series_id), ..m },
        seq![ActionModel::UseLibraryCover { series_id, path }],
    )
}

/// The cover of a chapter was made, or could not be. That of the first chapter
/// becomes the cover of the series, if the library knows the series.
#[verifier::opaque]
pub open spec fn chapter_cover_ready(
    m: Model,
    chapter: usize,
    ok: bool,
    found: Seq<SeriesEntry>,
) -> (Model, Seq<ActionModel>) {
    let n = Model { covers_pending: m.covers_pending.remove(chapter), ..m };
    if !ok {
        unchanged(n)
    } else {
        let u = Model { chapter_covers: n.chapter_covers.insert(chapter), ..n };
        if chapter == 0 && u.has_db && u.open_path is Some {
            match series_at(found, u.open_path->0) {
                Some(id) => (
                    Model { library_covers: u.library_covers.insert(id), ..u },
                    seq![ActionModel::ShareCover(id)],
                ),
                None => unchanged(u),
            }
        } else {
            unchanged(u)
        }
    }
}

/// The first series at the given path.
fn find_series(found: &Vec<SeriesEntry>, path: &str) -> (r: Option<i64>)
    ensures
        r == series_at(found@, path@),
{
    assert(found@.skip(0) =~= found@);
    for i in 0..found.len()
        invariant
            series_at(found@, path@) == series_at(found@.skip(i as int), path@),
    {
        assert(found@.skip(i as int).drop_first() =~= found@.skip(i + 1));
        if same_text(found[i].path.as_str(), path) {
            return Some(found[i].id);
        }
    }
    None
}

impl App {
    /// Notes that the cover of a series is at hand.
    fn put_library_cover(&mut self, id: i64)
        ensures
            final(self)@ == (Model {
                library_covers: old(self)@.library_covers.insert(id),
                ..old(self)@
            }),
    {
        put_id(&mut self.library_covers, id);
        reveal(App::model);
    }

    /// Notes that the cover of a chapter is no longer being made.
    fn cover_arrived(&mut self, i: usize)
        ensures
            final(self)@ == (Model {
                covers_pending: old(self)@.covers_pending.remove(i),
                ..old(self)@
            }),
    {
        drop_number(&mut self.covers_pending, i);
        reveal(App::model);
    }

    /// Whether there is a library database.
    pub fn has_library(&self) -> (r: bool)
        ensures
            r == self@.has_db,
    {
        reveal(App::model);
        self.has_db
    }

    /// Uses a file as the cover of a series.
    pub(crate) fn library_cover_ready(&mut self, series_id: i64, path: String) -> (r: Vec<Action>)
        ensures
            (final(self)@, action_models(r@)) == cover_ready(old(self)@, series_id, path@),
    {
        reveal(cover_ready);
        self.put_library_cover(series_id);
        only(Action::UseLibraryCover { series_id, path })
    }

    /// Takes the cover of a chapter.
    pub(crate) fn chapter_cover_done(
        &mut self,
        chapter: usize,
        ok: bool,
        found: &Vec<SeriesEntry>,
    ) -> (r: Vec<Action>)
        ensures
            (final(self)@, action_models(r@)) == chapter_cover_ready(
                old(self)@,
                chapter,
                ok,
                found@,
            ),
    {
        reveal(chapter_cover_ready);
        self.cover_arrived(chapter);
        if !ok {
            return nothing();
        }
        self.put_cover(chapter);
        if chapter == 0 && self.has_library() {
            if let Some(path) = self.path_at_hand() {
                if let Some(id) = find_series(found, path.as_str()) {
                    self.put_library_cover(id);
                    return only(Action::ShareCover(id));
                }
            }
        }
        nothing()
    }
}

// ── Folders ──────────────────────────────────────────────────────────────────

/// The local path that a chosen URL stands for; or what is wrong with it.
pub open spec fn chosen_path(url: Seq<char>, invalid: Seq<char>) -> Result<Seq<char>, Seq<char>> {
    match url_of(url) {
        None => Err(invalid + url),
        Some(u) => if u.scheme == "file"@ {
            match u.file_path {
                Some(p) => Ok(p),
                None => Err(invalid + u.text),
            }
        } else {
            Err("unsupported scheme: "@ + u.scheme)
        },
    }
}

/// The local path that a chosen URL stands for; or what is wrong with it.
pub(crate) fn choose_path(url: &str, invalid: &str) -> (r: Result<String, String>)
    ensures
        match r {
            Ok(p) => chosen_path(url@, invalid@) == Ok::<Seq<char>, Seq<char>>(p@),
            Err(e) => chosen_path(url@, invalid@) == Err::<Seq<char>, Seq<char>>(e@),
        },
{
    match parse_url(url) {
        None => {
            let mut e = text_copy(invalid);
            e.append(url);
            Err(e)
        },
        Some(u) => {
            if same_text(u.scheme.as_str(), "file") {
                match u.file_path {
                    Some(p) => Ok(p),
                    None => {
                        let mut e = text_copy(invalid);
                        e.append(u.text.as_str());
                        Err(e)
                    },
                }
            } else {
                let mut e = "unsupported scheme: ".to_owned();
                e.append(u.scheme.as_str());
                Err(e)
            }
        },
    }
}

/// Whether a path is among others.
pub open spec fn is_among(dirs: Seq<Seq<char>>, path: Seq<char>) -> bool {
    exists|i: int| 0 <= i < dirs.len() && same_components(#[trigger] dirs[i], path)
}

/// Paths without a given one.
pub open spec fn without_path(dirs: Seq<Seq<char>>, path: Seq<char>) -> Seq<Seq<char>>
    decreases dirs.len(),
{
    if dirs.len() == 0 {
        dirs
    } else if same_components(dirs.last(), path) {
        without_path(dirs.drop_last(), path)
    } else {
        without_path(dirs.drop_last(), path).push(dirs.last())
    }
}

/// A folder is added to the library, if it is not there already, and scanned.
#[verifier::opaque]
pub open spec fn folder_added(m: Model, path: Seq<char>) -> (Model, Seq<ActionModel>) {
    (
        if is_among(m.library_dirs, path) {
            m
        } else {
            Model { library_dirs: m.library_dirs.push(path), ..m }
        },
        if m.has_db {
            seq![ActionModel::AddLibraryDir(path), ActionModel::ScanFolder(path)]
        } else {
            seq![ActionModel::ScanFolder(path)]
        },
    )
}

/// A folder is removed from the library.
#[verifier::opaque]
pub open spec fn folder_removed(m: Model, path: Seq<char>) -> (Model, Seq<ActionModel>) {
    let n = Model { library_dirs: without_path(m.library_dirs, path), ..m };
    (
        n,
        (if m.has_db {
            seq![ActionModel::RemoveLibraryDir(path)]
        } else {
            Seq::empty()
        }) + listing(n),
    )
}

/// A folder was chosen.
#[verifier::opaque]
pub open spec fn folder_chosen(m: Model, url: Seq<char>) -> (Model, Seq<ActionModel>) {
    match chosen_path(url, "invalid folder path: "@) {
        Ok(path) => folder_added(m, path),
        Err(e) => failed(m, e),
    }
}

/// The folder that was typed in, if something was: with a leading `~` standing
/// for the home directory.
pub open spec fn typed_path(input: Seq<char>, home: Option<Seq<char>>) -> Option<Seq<char>> {
    if trim(input).len() == 0 {
        None
    } else {
        Some(expanded(trim(input), home))
    }
}

/// The typed path was submitted.
#[verifier::opaque]
pub open spec fn path_submitted(m: Model, home: Option<Seq<char>>, is_dir: bool) -> (
    Model,
    Seq<ActionModel>,
) {
    match typed_path(m.library_path_input, home) {
        None => unchanged(m),
        Some(path) => if !is_dir {
            failed(m, "not a folder: "@ + path)
        } else {
            folder_added(Model { library_path_input: Seq::empty(), ..m }, path)
        },
    }
}

/// A path that was in the library's list is not there once it was removed, and
/// every other one is kept, in its order.
pub proof fn removed_folder_is_gone(dirs: Seq<Seq<char>>, path: Seq<char>)
    ensures
        !is_among(without_path(dirs, path), path),
        forall|other: Seq<char>|
            !same_components(other, path) ==> (#[trigger] is_among(
                without_path(dirs, path),
                other,
            ) <==> is_among(dirs, other)),
    decreases dirs.len(),
{
    if dirs.len() > 0 {
        let before = dirs.drop_last();
        let rest = without_path(before, path);
        let r = without_path(dirs, path);
        removed_folder_is_gone(before, path);
        if is_among(r, path) {
            let i = choose|i: int| 0 <= i < r.len() && same_components(#[trigger] r[i], path);
            if i < rest.len() {
                assert(same_components(rest[i], path));
            }
        }
        assert forall|other: Seq<char>| !same_components(other, path) implies (
        #[trigger] is_among(r, other) <==> is_among(dirs, other)) by {
            if is_among(r, other) {
                let i = choose|i: int| 0 <= i < r.len() && same_components(#[trigger] r[i], other);
                if i < rest.len() {
                    assert(same_components(rest[i], other));
                    assert(is_among(rest, other));
                    assert(is_among(before, other));
                    let j = choose|j: int|
                        0 <= j < before.len() && same_components(#[trigger] before[j], other);
                    assert(same_components(dirs[j], other));
                } else {
                    assert(same_components(dirs[dirs.len() - 1], other));
                }
            }
            if is_among(dirs, other) {
                let j = choose|j: int|
                    0 <= j < dirs.len() && same_components(#[trigger] dirs[j], other);
                if j < before.len() {
                    assert(same_components(before[j], other));
                    assert(is_among(before, other));
                    assert(is_among(rest, other));
                    let i = choose|i: int|
                        0 <= i < rest.len() && same_components(#[trigger] rest[i], other);
                    assert(same_components(r[i], other));
                } else {
                    assert(r[rest.len() as int] == dirs.last());
                    assert(same_components(r[rest.len() as int], other));
                }
            }
        }
    }
}

impl App {
    /// Whether a folder is in the library's list.
    fn has_dir(&self, path: &str) -> (r: bool)
        ensures
            r == is_among(self@.library_dirs, path@),
    {
        reveal(App::model);
        let ghost all = texts(self.library_dirs@);
        for i in 0..self.library_dirs.len()
            invariant
                all == texts(self.library_dirs@),
                all == self@.library_dirs,
                forall|j: int| 0 <= j < i ==> !same_components(#[trigger] all[j], path@),
        {
            assert(all[i as int] == self.library_dirs@[i as int]@);
            if same_path(self.library_dirs[i].as_str(), path) {
                return true;
            }
        }
        false
    }

    /// Takes over the library's list of folders.
    fn set_dirs(&mut self, dirs: Vec<String>)
        ensures
            final(self)@ == (Model { library_dirs: texts(dirs@), ..old(self)@ }),
    {
        let ghost n = Model { library_dirs: texts(dirs@), ..self@ };
        self.library_dirs = dirs;
        assert(self@ == n) by {
            reveal(App::model);
        }
    }

    /// The library's list of folders, with one more.
    fn dirs_with(&self, path: &str) -> (r: Vec<String>)
        ensures
            texts(r@) == self@.library_dirs.push(path@),
    {
        reveal(App::model);
        let mut r = crate::text::copy_texts(&self.library_dirs);
        r.push(text_copy(path));
        assert(texts(r@) =~= self@.library_dirs.push(path@));
        r
    }

    /// The library's list of folders, without one.
    fn dirs_without(&self, path: &str) -> (r: Vec<String>)
        ensures
            texts(r@) == without_path(self@.library_dirs, path@),
    {
        reveal(App::model);
        let ghost all = texts(self.library_dirs@);
        let mut r: Vec<String> = Vec::new();
        assert(texts(r@) =~= Seq::empty());
        for i in 0..self.library_dirs.len()
            invariant
                all == texts(self.library_dirs@),
                texts(r@) == without_path(all.take(i as int), path@),
        {
            assert(all.take(i + 1).drop_last() =~= all.take(i as int));
            assert(all.take(i + 1).last() == self.library_dirs@[i as int]@);
            if !same_path(self.library_dirs[i].as_str(), path) {
                let ghost was = texts(r@);
                r.push(self.library_dirs[i].clone());
                assert(texts(r@) =~= was.push(self.library_dirs@[i as int]@));
            }
        }
        assert(all.take(all.len() as int) =~= all);
        r
    }

    /// Adds a folder to the library, and has it scanned.
    pub fn add_library_folder(&mut self, path: String) -> (r: Vec<Action>)
        ensures
            (final(self)@, action_models(r@)) == folder_added(old(self)@, path@),
    {
        reveal(folder_added);
        if !self.has_dir(path.as_str()) {
            let dirs = self.dirs_with(path.as_str());
            self.set_dirs(dirs);
        }
        if self.has_library() {
            let r = chain(
                only(Action::AddLibraryDir(path.clone())),
                only(Action::ScanFolder(path)),
            );
            assert(action_models(r@) =~= seq![
                ActionModel::AddLibraryDir(path@),
                ActionModel::ScanFolder(path@),
            ]);
            r
        } else {
            only(Action::ScanFolder(path))
        }
    }

    /// Removes a folder from the library.
    pub(crate) fn remove_library_folder(&mut self, path: String) -> (r: Vec<Action>)
        ensures
            (final(self)@, action_models(r@)) == folder_removed(old(self)@, path@),
    {
        reveal(folder_removed);
        let dirs = self.dirs_without(path.as_str());
        self.set_dirs(dirs);
        let removal = if self.has_library() {
            only(Action::RemoveLibraryDir(path))
        } else {
            nothing()
        };
        let list = self.reload_library();
        chain(removal, list)
    }

    /// Adds the folder that a chosen URL stands for.
    pub(crate) fn folder_selected(&mut self, url: &str) -> (r: Vec<Action>)
        ensures
            (final(self)@, action_models(r@)) == folder_chosen(old(self)@, url@),
    {
        reveal(folder_chosen);
        match choose_path(url, "invalid folder path: ") {
            Ok(path) => self.add_library_folder(path),
            Err(e) => self.fail(e),
        }
    }

    /// Takes over what is typed as the path of a folder.
    pub(crate) fn set_path_input(&mut self, text: String)
        ensures
            final(self)@ == (Model { library_path_input: text@, ..old(self)@ }),
    {
        let ghost n = Model { library_path_input: text@, ..self@ };
        self.library_path_input = text;
        assert(self@ == n) by {
            reveal(App::model);
        }
    }

    /// The folder that was typed in, if something was.
    pub fn typed_folder(&self, home: Option<&str>) -> (r: Option<String>)
        ensures
            opt_text(r) == typed_path(self@.library_path_input, crate::library::borrowed(home)),
    {
        reveal(App::model);
        let v = chars_of(self.library_path_input.as_str());
        let t = trimmed(v.as_slice());
        if t.len() == 0 {
            return None;
        }
        let text = string_of(t);
        Some(shellexpand_home(text.as_str(), home))
    }

    /// Adds the folder that was typed in.
    pub(crate) fn submit_path(&mut self, home: Option<&str>, is_dir: bool) -> (r: Vec<Action>)
        ensures
            (final(self)@, action_models(r@)) == path_submitted(
                old(self)@,
                crate::library::borrowed(home),
                is_dir,
            ),
    {
        reveal(path_submitted);
        match self.typed_folder(home) {
            None => nothing(),
            Some(path) => {
                if !is_dir {
                    let mut e = "not a folder: ".to_owned();
                    e.append(path.as_str());
                    return self.fail(e);
                }
                let blank = String::new();
                assert(blank@ =~= Seq::empty());
                self.set_path_input(blank);
                self.add_library_folder(path)
            },
        }
    }
}

// ── Scans ────────────────────────────────────────────────────────────────────

/// What follows from the scan of one entry: it is registered, and its cover is
/// made, if it has none in the cache; else the library is listed anew.
#[verifier::opaque]
pub open spec fn entry_scanned(
    m: Model,
    outcome: Result<ScanOutcome, String>,
    cover_exists: bool,
) -> Seq<ActionModel> {
    match outcome {
        Err(_) => Seq::empty(),
        Ok(o) => {
            let registered = if m.has_db {
                seq![
                    ActionModel::UpsertSeries {
                        path: o.path@,
                        title: o.title@,
                        total: o.count as int,
                        is_series: o.is_series,
                    },
                ]
            } else {
                Seq::empty()
            };
            registered + (if cover_exists {
                listing(m)
            } else {
                match (o.epub_cover, o.first_page) {
                    (Some(data), _) => seq![
                        ActionModel::MakeEpubCover { data: data@, path: o.path@ },
                    ],
                    (None, Some(source)) => seq![
                        ActionModel::MakeLibraryCover { source: source@, path: o.path@ },
                    ],
                    (None, None) => listing(m),
                }
            })
        },
    }
}

impl App {
    /// Registers what a scan found, and has its cover made.
    pub(crate) fn take_scan(&self, outcome: Result<ScanOutcome, String>, cover_exists: bool) -> (r:
        Vec<Action>)
        ensures
            action_models(r@) == entry_scanned(self@, outcome, cover_exists),
    {
        reveal(entry_scanned);
        match outcome {
            Err(_) => nothing(),
            Ok(o) => {
                let registered = if self.has_library() {
                    only(
                        Action::UpsertSeries {
                            path: o.path.clone(),
                            title: o.title,
                            total: o.count,
                            is_series: o.is_series,
                        },
                    )
                } else {
                    nothing()
                };
                let rest = if cover_exists {
                    self.reload_library()
                } else {
                    match o.epub_cover {
                        Some(data) => only(Action::MakeEpubCover { data, path: o.path }),
                        None => match o.first_page {
                            Some(source) => only(Action::MakeLibraryCover { source, path: o.path }),
                            None => self.reload_library(),
                        },
                    }
                };
                chain(registered, rest)
            },
        }
    }
}

// ── Laws ─────────────────────────────────────────────────────────────────────

/// A folder that was added is in the library's list; the others stay where they were;
/// to add it again, however it is written, changes the list no more; and it is scanned
/// each time.
pub proof fn an_added_folder_is_listed_once(m: Model, path: Seq<char>, again: Seq<char>)
    requires
        same_components(path, again),
    ensures
        is_among(folder_added(m, path).0.library_dirs, path),
        folder_added(m, path).0.library_dirs.len() >= m.library_dirs.len(),
        folder_added(m, path).0.library_dirs.take(m.library_dirs.len() as int) == m.library_dirs,
        is_among(m.library_dirs, path) ==> folder_added(m, path).0.library_dirs == m.library_dirs,
        !is_among(m.library_dirs, path) ==> folder_added(m, path).0.library_dirs.len()
            == m.library_dirs.len() + 1 && folder_added(m, path).0.library_dirs.last() == path,
        folder_added(folder_added(m, path).0, again).0 == folder_added(m, path).0,
        folder_added(m, path).1.contains(ActionModel::ScanFolder(path)),
        folder_added(m, path).1.contains(ActionModel::AddLibraryDir(path)) <==> m.has_db,
{
    reveal(folder_added);
    let n = folder_added(m, path).0;
    let done = folder_added(m, path).1;
    if is_among(m.library_dirs, path) {
        assert(n.library_dirs.take(m.library_dirs.len() as int) =~= m.library_dirs);
        let i = choose|i: int|
            0 <= i < m.library_dirs.len() && same_components(#[trigger] m.library_dirs[i], path);
        assert(same_components(n.library_dirs[i], again));
    } else {
        assert(n.library_dirs.take(m.library_dirs.len() as int) =~= m.library_dirs);
        assert(same_components(n.library_dirs[m.library_dirs.len() as int], path));
        assert(same_components(n.library_dirs[m.library_dirs.len() as int], again));
    }
    if m.has_db {
        assert(done[0] == ActionModel::AddLibraryDir(path));
        assert(done[1] == ActionModel::ScanFolder(path));
    } else {
        assert(done[0] == ActionModel::ScanFolder(path));
    }
}

/// Removing a folder leaves the others in their order, and removing it just after it was
/// added gives the list as it was.
pub proof fn removing_undoes_adding(m: Model, path: Seq<char>)
    requires
        !is_among(m.library_dirs, path),
    ensures
        folder_removed(folder_added(m, path).0, path).0.library_dirs == m.library_dirs,
        folder_removed(m, path).0 == m,
        folder_removed(m, path).1.contains(ActionModel::RemoveLibraryDir(path)) <==> m.has_db,
{
    reveal(folder_added);
    reveal(folder_removed);
    reveal(listing);
    let dirs = m.library_dirs;
    nothing_to_remove(dirs, path);
    assert(dirs.push(path).drop_last() =~= dirs);
    let done = folder_removed(m, path).1;
    if m.has_db {
        assert(done[0] == ActionModel::RemoveLibraryDir(path));
    }
}

/// A list without a path stays.
proof fn nothing_to_remove(dirs: Seq<Seq<char>>, path: Seq<char>)
    requires
        !is_among(dirs, path),
    ensures
        without_path(dirs, path) == dirs,
    decreases dirs.len(),
{
    if dirs.len() > 0 {
        let rest = dirs.drop_last();
        assert(!same_components(dirs[dirs.len() - 1], path));
        assert(!is_among(rest, path)) by {
            if is_among(rest, path) {
                let i = choose|i: int|
                    0 <= i < rest.len() && same_components(#[trigger] rest[i], path);
                assert(same_components(dirs[i], path));
            }
        }
        nothing_to_remove(rest, path);
        assert(rest.push(dirs.last()) =~= dirs);
    }
}

/// A typed path counts without the whitespace around it; nothing but whitespace is no
/// path.
pub proof fn typed_paths_are_trimmed(
    before: Seq<char>,
    path: Seq<char>,
    behind: Seq<char>,
    home: Option<Seq<char>>,
)
    requires
        crate::text::all_space(before),
        crate::text::all_space(behind),
        crate::text::bare(path),
    ensures
        typed_path(before + path + behind, home) == (if path.len() > 0 {
            Some(expanded(path, home))
        } else {
            None
        }),
{
    crate::text::trim_takes_the_space_around(before, path, behind);
}

/// The first series with exactly this path is found.
pub proof fn the_first_series_at_a_path(found: Seq<SeriesEntry>, path: Seq<char>, k: int)
    ensures
        0 <= k < found.len() && found[k].path@ == path && (forall|j: int|
            0 <= j < k ==> (#[trigger] found[j]).path@ != path) ==> series_at(found, path) == Some(
            found[k].id,
        ),
        (forall|j: int| 0 <= j < found.len() ==> (#[trigger] found[j]).path@ != path) ==> series_at(
            found,
            path,
        ) is None,
    decreases found.len(),
{
    if found.len() > 0 && found[0].path@ != path {
        let rest = found.drop_first();
        the_first_series_at_a_path(rest, path, k - 1);
        assert forall|j: int| 0 <= j < rest.len() implies rest[j] == found[j + 1] by {}
        if 0 <= k < found.len() && found[k].path@ == path && (forall|j: int|
            0 <= j < k ==> (#[trigger] found[j]).path@ != path) {
            assert forall|j: int| 0 <= j < k - 1 implies (#[trigger] rest[j]).path@ != path by {
                assert(found[j + 1].path@ != path);
            }
        }
        if forall|j: int| 0 <= j < found.len() ==> (#[trigger] found[j]).path@ != path {
            assert forall|j: int| 0 <= j < rest.len() implies (#[trigger] rest[j]).path@ != path by {
                assert(found[j + 1].path@ != path);
            }
        }
    }
}

/// When the library was listed, a cover is loaded for a series exactly if it is in the
/// cache and not at hand.
pub proof fn missing_covers_are_loaded(
    m: Model,
    entries: Seq<SeriesEntry>,
    on_disk: Seq<bool>,
    id: i64,
)
    ensures
        listed(m, entries, on_disk).0.library_entries == entries,
        listed(m, entries, on_disk).1.contains(ActionModel::LoadLibraryCover(id)) <==> exists|i: int|
            0 <= i < entries.len() && i < on_disk.len() && (#[trigger] entries[i]).id == id
                && on_disk[i] && !m.library_covers.contains(id),
{
    reveal(listed);
    loaded_covers(entries, on_disk, m.library_covers, entries.len(), id);
}

/// Which covers are loaded.
proof fn loaded_covers(
    entries: Seq<SeriesEntry>,
    on_disk: Seq<bool>,
    covers: Set<i64>,
    n: nat,
    id: i64,
)
    requires
        n <= entries.len(),
    ensures
        covers_to_load(entries, on_disk, covers, n).contains(ActionModel::LoadLibraryCover(id))
            <==> exists|i: int|
            0 <= i < n && i < on_disk.len() && (#[trigger] entries[i]).id == id && on_disk[i]
                && !covers.contains(id),
    decreases n,
{
    let all = covers_to_load(entries, on_disk, covers, n);
    let x = ActionModel::LoadLibraryCover(id);
    if n > 0 {
        let rest = covers_to_load(entries, on_disk, covers, (n - 1) as nat);
        loaded_covers(entries, on_disk, covers, (n - 1) as nat, id);
        if all.contains(x) {
            let k = choose|k: int| 0 <= k < all.len() && all[k] == x;
            if k < rest.len() {
                assert(rest[k] == x);
            } else {
                assert(entries[n - 1].id == id);
            }
        }
        if exists|i: int|
            0 <= i < n && i < on_disk.len() && (#[trigger] entries[i]).id == id && on_disk[i]
                && !covers.contains(id) {
            let i = choose|i: int|
                0 <= i < n && i < on_disk.len() && (#[trigger] entries[i]).id == id && on_disk[i]
                    && !covers.contains(id);
            if i < n - 1 {
                assert(entries[i].id == id);
                let k = choose|k: int| 0 <= k < rest.len() && rest[k] == x;
                assert(all[k] == x);
            } else {
                assert(all[rest.len() as int] == x);
            }
        }
    }
}

/// A cover that was made is at hand and no longer awaited; one that could not be made is
/// not at hand. Only the cover of the first chapter is shared with the library, and only
/// for the series at the path that is open.
pub proof fn a_made_cover_is_at_hand(
    m: Model,
    chapter: usize,
    ok: bool,
    found: Seq<SeriesEntry>,
)
    ensures
        !chapter_cover_ready(m, chapter, ok, found).0.covers_pending.contains(chapter),
        ok ==> chapter_cover_ready(m, chapter, ok, found).0.chapter_covers
            == m.chapter_covers.insert(chapter),
        !ok ==> chapter_cover_ready(m, chapter, ok, found).0.chapter_covers == m.chapter_covers
            && chapter_cover_ready(m, chapter, ok, found).1.len() == 0,
        chapter != 0 || !m.has_db || m.open_path is None ==> chapter_cover_ready(
            m,
            chapter,
            ok,
            found,
        ).1.len() == 0 && chapter_cover_ready(m, chapter, ok, found).0.library_covers
            == m.library_covers,
        chapter == 0 && ok && m.has_db && m.open_path is Some ==> (match series_at(
            found,
            m.open_path->0,
        ) {
            Some(id) => chapter_cover_ready(m, chapter, ok, found).1 == seq![
                ActionModel::ShareCover(id),
            ] && chapter_cover_ready(m, chapter, ok, found).0.library_covers.contains(id),
            None => chapter_cover_ready(m, chapter, ok, found).1.len() == 0,
        }),
{
    reveal(chapter_cover_ready);
}

/// What a scan found is registered with its path, title and number of pages, if there is
/// a library. A cover is made only where there is none yet: of the book's own cover, or
/// else of the first page. A scan that failed does nothing.
pub proof fn scans_are_registered(m: Model, o: ScanOutcome, e: String)
    ensures
        entry_scanned(m, Err(e), true).len() == 0 && entry_scanned(m, Err(e), false).len() == 0,
        m.has_db ==> entry_scanned(m, Ok(o), true)[0] == (ActionModel::UpsertSeries {
            path: o.path@,
            title: o.title@,
            total: o.count as int,
            is_series: o.is_series,
        }) && entry_scanned(m, Ok(o), false)[0] == entry_scanned(m, Ok(o), true)[0]
            && entry_scanned(m, Ok(o), true).len() == 2 && entry_scanned(m, Ok(o), false).len() == 2,
        o.epub_cover matches Some(data) ==> entry_scanned(m, Ok(o), false).last() == (
        ActionModel::MakeEpubCover { data: data@, path: o.path@ }),
        o.epub_cover is None && o.first_page is Some ==> entry_scanned(
            m,
            Ok(o),
            false,
        ).last() == (ActionModel::MakeLibraryCover {
            source: o.first_page->0@,
            path: o.path@,
        }),
        o.epub_cover is None && o.first_page is None ==> entry_scanned(m, Ok(o), false)
            == entry_scanned(m, Ok(o), true),
        forall|data: Seq<u8>, path: Seq<char>|
            !entry_scanned(m, Ok(o), true).contains(ActionModel::MakeEpubCover { data, path }),
{
    reveal(entry_scanned);
    reveal(listing);
}

} // verus!

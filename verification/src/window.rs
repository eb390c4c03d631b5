//! Which pages are kept decoded around the current one, and which are asked for.
//!
//! Reading is mostly sequential, so more pages are loaded in the direction in
//! which the reader is headed.
use crate::app::{action_models, distance, Action, ActionModel, App, Model, CACHE_RADIUS, PRELOAD_FAR, PRELOAD_NEAR};
use crate::comic::{copy_page, page_views, PageSource, PageView};
use std::collections::HashSet;
use vstd::prelude::*;

verus! {

broadcast use vstd::std_specs::hash::group_hash_axioms;

/// Whether a page lies within the given distance of the current one, among
/// `total` pages.
pub open spec fn nearby(page: int, current: int, radius: int, total: int) -> bool {
    current - radius <= page <= current + radius && 0 <= page < total
}

/// The decoded pages that are kept.
pub open spec fn kept_pages(cache: Set<usize>, current: int, total: int) -> Set<usize> {
    cache.filter(|i: usize| nearby(i as int, current, CACHE_RADIUS as int, total))
}

/// The pages around the current one, the nearest first: within `steps` of it,
/// at most `ahead` ahead of it and `behind` behind it.
pub open spec fn load_order(current: int, ahead: int, behind: int, steps: nat) -> Seq<int>
    decreases steps,
{
    if steps == 0 {
        seq![current]
    } else {
        let rest = load_order(current, ahead, behind, (steps - 1) as nat);
        let forward = if steps <= ahead {
            rest.push(current + steps)
        } else {
            rest
        };
        if steps <= behind {
            forward.push(current - steps)
        } else {
            forward
        }
    }
}

/// The pages to load out of a list: those that exist and are neither decoded
/// nor being decoded, each once.
pub open spec fn to_load(
    order: Seq<int>,
    total: int,
    cache: Set<usize>,
    pending: Set<usize>,
) -> Seq<usize>
    decreases order.len(),
{
    if order.len() == 0 {
        Seq::empty()
    } else {
        let rest = to_load(order.drop_last(), total, cache, pending);
        let i = order.last();
        if 0 <= i < total && !cache.contains(i as usize) && !pending.contains(i as usize)
            && !rest.contains(i as usize) {
            rest.push(i as usize)
        } else {
            rest
        }
    }
}

/// A set with all pages of a list.
pub open spec fn with_all(s: Set<usize>, list: Seq<usize>) -> Set<usize>
    decreases list.len(),
{
    if list.len() == 0 {
        s
    } else {
        with_all(s, list.drop_last()).insert(list.last())
    }
}

/// How far pages are loaded ahead of the current one, and behind it.
pub open spec fn reach(nav_dir: int) -> (int, int) {
    if nav_dir < 0 {
        (PRELOAD_NEAR as int, PRELOAD_FAR as int)
    } else {
        (PRELOAD_FAR as int, PRELOAD_NEAR as int)
    }
}

/// The pages to load in a state.
pub open spec fn window_pages(m: Model) -> Seq<usize> {
    let (ahead, behind) = reach(m.nav_dir);
    to_load(
        load_order(m.current_page, ahead, behind, PRELOAD_FAR as nat),
        m.sources.len() as int,
        kept_pages(m.cache, m.current_page, m.sources.len() as int),
        m.pending,
    )
}

/// The requests for pages.
pub open spec fn decodes(list: Seq<usize>, sources: Seq<PageView>) -> Seq<ActionModel> {
    list.map_values(
        |i: usize| ActionModel::Decode { index: i as int, source: sources[i as int] },
    )
}

/// What becomes of a state when its window of pages is brought up to date.
#[verifier::opaque]
pub open spec fn refreshed(m: Model) -> (Model, Seq<ActionModel>) {
    if m.sources.len() == 0 {
        (m, Seq::empty())
    } else {
        (
            Model {
                cache: kept_pages(m.cache, m.current_page, m.sources.len() as int),
                pending: with_all(m.pending, window_pages(m)),
                ..m
            },
            decodes(window_pages(m), m.sources),
        )
    }
}

/// What a list adds to a set.
proof fn with_all_contains(s: Set<usize>, list: Seq<usize>, x: usize)
    ensures
        with_all(s, list).contains(x) <==> s.contains(x) || list.contains(x),
    decreases list.len(),
{
    if list.len() > 0 {
        with_all_contains(s, list.drop_last(), x);
        let rest = list.drop_last();
        if rest.contains(x) {
            let k = choose|k: int| 0 <= k < rest.len() && rest[k] == x;
            assert(list[k] == x);
        }
        if list.contains(x) && x != list.last() {
            let k = choose|k: int| 0 <= k < list.len() && list[k] == x;
            assert(rest[k] == x);
        }
        if x == list.last() {
            assert(list[list.len() - 1] == x);
        }
    }
}

/// What is loaded out of a list.
proof fn to_load_is(order: Seq<int>, total: int, cache: Set<usize>, pending: Set<usize>)
    requires
        total <= usize::MAX,
    ensures
        ({
            let list = to_load(order, total, cache, pending);
            &&& list.no_duplicates()
            &&& forall|k: int|
                0 <= k < list.len() ==> (#[trigger] list[k]) < total && !cache.contains(list[k])
                    && !pending.contains(list[k])
            &&& forall|i: int|
                0 <= i < order.len() && 0 <= #[trigger] order[i] < total ==> cache.contains(
                    order[i] as usize,
                ) || pending.contains(order[i] as usize) || list.contains(order[i] as usize)
        }),
    decreases order.len(),
{
    if order.len() > 0 {
        let before = order.drop_last();
        let rest = to_load(before, total, cache, pending);
        let list = to_load(order, total, cache, pending);
        to_load_is(before, total, cache, pending);
        assert forall|i: int| 0 <= i < order.len() && 0 <= #[trigger] order[i] < total implies cache.contains(
            order[i] as usize,
        ) || pending.contains(order[i] as usize) || list.contains(order[i] as usize) by {
            if i < before.len() {
                assert(before[i] == order[i]);
                if rest.contains(order[i] as usize) {
                    let k = choose|k: int| 0 <= k < rest.len() && rest[k] == order[i] as usize;
                    assert(list[k] == order[i] as usize);
                }
            } else if list.len() > rest.len() {
                assert(list[rest.len() as int] == order[i] as usize);
            }
        }
    }
}

/// The pages around the current one are in the list of those around it.
proof fn load_order_has(current: int, ahead: int, behind: int, steps: nat, page: int)
    requires
        current - behind <= page <= current + ahead,
        current - steps <= page <= current + steps,
    ensures
        load_order(current, ahead, behind, steps).contains(page),
    decreases steps,
{
    let list = load_order(current, ahead, behind, steps);
    if steps == 0 {
        assert(list[0] == page);
    } else {
        let rest = load_order(current, ahead, behind, (steps - 1) as nat);
        let forward = if steps <= ahead {
            rest.push(current + steps)
        } else {
            rest
        };
        if page == current + steps {
            assert(forward[rest.len() as int] == page);
            assert(list[rest.len() as int] == page);
        } else if page == current - steps {
            assert(list[forward.len() as int] == page);
        } else {
            load_order_has(current, ahead, behind, (steps - 1) as nat, page);
            let k = choose|k: int| 0 <= k < rest.len() && rest[k] == page;
            assert(forward[k] == page);
            assert(list[k] == page);
        }
    }
}

/// When the window was brought up to date, the current page and the pages
/// around it, more of them in the direction in which the reader is headed, are
/// decoded or being decoded.
pub proof fn window_is_covered(m: Model, page: int)
    requires
        m.sources.len() <= usize::MAX,
        0 <= page < m.sources.len(),
        m.current_page - reach(m.nav_dir).1 <= page <= m.current_page + reach(m.nav_dir).0,
    ensures
        refreshed(m).0.cache.contains(page as usize) || refreshed(m).0.pending.contains(
            page as usize,
        ),
{
    let (ahead, behind) = reach(m.nav_dir);
    let order = load_order(m.current_page, ahead, behind, PRELOAD_FAR as nat);
    let total = m.sources.len() as int;
    let kept = kept_pages(m.cache, m.current_page, total);
    load_order_has(m.current_page, ahead, behind, PRELOAD_FAR as nat, page);
    to_load_is(order, total, kept, m.pending);
    let k = choose|k: int| 0 <= k < order.len() && order[k] == page;
    assert(order[k] == page);
    reveal(refreshed);
    with_all_contains(m.pending, window_pages(m), page as usize);
}

/// No page is asked for that is decoded or being decoded already, none is asked
/// for twice, and none that does not exist.
pub proof fn no_page_is_asked_for_twice(m: Model)
    requires
        m.sources.len() <= usize::MAX,
    ensures
        window_pages(m).no_duplicates(),
        forall|k: int|
            0 <= k < window_pages(m).len() ==> (#[trigger] window_pages(m)[k]) < m.sources.len()
                && !refreshed(m).0.cache.contains(window_pages(m)[k]) && !m.pending.contains(
                window_pages(m)[k],
            ) && refreshed(m).0.pending.contains(window_pages(m)[k]),
{
    let (ahead, behind) = reach(m.nav_dir);
    let order = load_order(m.current_page, ahead, behind, PRELOAD_FAR as nat);
    let total = m.sources.len() as int;
    reveal(refreshed);
    to_load_is(order, total, kept_pages(m.cache, m.current_page, total), m.pending);
    assert forall|k: int| 0 <= k < window_pages(m).len() implies refreshed(m).0.pending.contains(
        #[trigger] window_pages(m)[k],
    ) by {
        with_all_contains(m.pending, window_pages(m), window_pages(m)[k]);
    }
}

/// Decoded pages are kept near the current page, and only there.
pub proof fn kept_pages_are_near(m: Model, page: usize)
    requires
        m.sources.len() > 0,
    ensures
        refreshed(m).0.cache.contains(page) <==> m.cache.contains(page) && nearby(
            page as int,
            m.current_page,
            CACHE_RADIUS as int,
            m.sources.len() as int,
        ),
{
    reveal(refreshed);
}

/// The decoded pages that are kept.
fn keep_nearby(cache: &HashSet<usize>, current: usize, len: usize) -> (r: HashSet<usize>)
    ensures
        r@ == kept_pages(cache@, current as int, len as int),
{
    let start: usize = if current < CACHE_RADIUS {
        0
    } else {
        current - CACHE_RADIUS
    };
    let end: usize = if current >= len || len - current <= CACHE_RADIUS {
        len
    } else {
        current + CACHE_RADIUS + 1
    };
    let mut kept: HashSet<usize> = HashSet::new();
    let mut i: usize = start;
    assert(kept@ =~= cache@.filter(|x: usize| start <= x < i));
    while i < end
        invariant
            start <= i,
            i <= end || i == start,
            kept@ == cache@.filter(|x: usize| start <= x < i),
        decreases end - i,
    {
        if cache.contains(&i) {
            kept.insert(i);
        }
        i = i + 1;
        assert(kept@ =~= cache@.filter(|x: usize| start <= x < i));
    }
    assert(kept@ =~= kept_pages(cache@, current as int, len as int));
    kept
}

/// Asks for a page, if it exists and is neither decoded nor being decoded.
fn ask_for(
    page: i128,
    sources: &Vec<PageSource>,
    cache: &HashSet<usize>,
    pending: &mut HashSet<usize>,
    out: &mut Vec<Action>,
    Ghost(before): Ghost<Set<usize>>,
    Ghost(order): Ghost<Seq<int>>,
)
    requires
        ({
            let list = to_load(order, sources@.len() as int, cache@, before);
            &&& old(pending)@ == with_all(before, list)
            &&& action_models(old(out)@) == decodes(list, page_views(sources@))
        }),
    ensures
        ({
            let list = to_load(order.push(page as int), sources@.len() as int, cache@, before);
            &&& final(pending)@ == with_all(before, list)
            &&& action_models(final(out)@) == decodes(list, page_views(sources@))
        }),
{
    let ghost list = to_load(order, sources@.len() as int, cache@, before);
    let ghost was = out@;
    assert(order.push(page as int).drop_last() =~= order);
    if 0 <= page && page < sources.len() as i128 {
        let i: usize = page as usize;
        proof {
            with_all_contains(before, list, i);
        }
        if !cache.contains(&i) && !pending.contains(&i) {
            pending.insert(i);
            let source = copy_page(&sources[i]);
            let action = Action::Decode { index: i, source };
            out.push(action);
            assert(page_views(sources@)[i as int] == source@);
            assert(action_models(out@) =~= action_models(was).push(action@));
            assert(decodes(list.push(i), page_views(sources@)) =~= decodes(
                list,
                page_views(sources@),
            ).push(action@));
            assert(list.push(i).drop_last() =~= list);
        }
    }
}

/// Asks for the pages around the current one that are missing.
fn ask_around(
    current: usize,
    nav_dir: i8,
    sources: &Vec<PageSource>,
    cache: &HashSet<usize>,
    pending: &mut HashSet<usize>,
) -> (r: Vec<Action>)
    ensures
        ({
            let (ahead, behind) = reach(nav_dir as int);
            let list = to_load(
                load_order(current as int, ahead, behind, PRELOAD_FAR as nat),
                sources@.len() as int,
                cache@,
                old(pending)@,
            );
            &&& final(pending)@ == with_all(old(pending)@, list)
            &&& action_models(r@) == decodes(list, page_views(sources@))
        }),
{
    let mut out: Vec<Action> = Vec::new();
    let ghost before = pending@;
    let (ahead, behind): (usize, usize) = if nav_dir < 0 {
        (PRELOAD_NEAR, PRELOAD_FAR)
    } else {
        (PRELOAD_FAR, PRELOAD_NEAR)
    };
    let place: i128 = current as i128;
    let ghost none = Seq::<int>::empty();
    assert(action_models(out@) =~= decodes(Seq::empty(), page_views(sources@)));
    ask_for(place, sources, cache, pending, &mut out, Ghost(before), Ghost(none));
    assert(none.push(place as int) =~= load_order(place as int, ahead as int, behind as int, 0));
    for step in 1..(PRELOAD_FAR + 1)
        invariant
            ahead <= PRELOAD_FAR,
            behind <= PRELOAD_FAR,
            0 <= place <= usize::MAX,
            1 <= step,
            ({
                let list = to_load(
                    load_order(place as int, ahead as int, behind as int, (step - 1) as nat),
                    sources@.len() as int,
                    cache@,
                    before,
                );
                &&& pending@ == with_all(before, list)
                &&& action_models(out@) == decodes(list, page_views(sources@))
            }),
    {
        let ghost rest = load_order(place as int, ahead as int, behind as int, (step - 1) as nat);
        let ghost forward = if step <= ahead {
            rest.push(place + step)
        } else {
            rest
        };
        if step <= ahead {
            ask_for(
                place + step as i128,
                sources,
                cache,
                pending,
                &mut out,
                Ghost(before),
                Ghost(rest),
            );
        }
        if step <= behind {
            ask_for(
                place - step as i128,
                sources,
                cache,
                pending,
                &mut out,
                Ghost(before),
                Ghost(forward),
            );
        }
    }
    out
}

impl App {
    /// Brings the window of pages up to date: forgets decoded pages that are far
    /// away, and asks for those around the current page that are missing.
    pub fn refresh_window(&mut self) -> (r: Vec<Action>)
        ensures
            (final(self)@, action_models(r@)) == refreshed(old(self)@),
    {
        reveal(refreshed);
        reveal(App::model);
        let len: usize = self.sources.len();
        assert(self@.sources.len() == len);
        if len == 0 {
            let none: Vec<Action> = Vec::new();
            assert(action_models(none@) =~= Seq::empty());
            return none;
        }
        self.cache = keep_nearby(&self.cache, self.current_page, len);
        ask_around(self.current_page, self.nav_dir, &self.sources, &self.cache, &mut self.pending)
    }
}

// ── Laws ─────────────────────────────────────────────────────────────────────

/// The pages in the list of those around the current one.
proof fn load_order_is(current: int, ahead: int, behind: int, steps: nat, k: int, l: int)
    requires
        0 <= k <= l < load_order(current, ahead, behind, steps).len(),
        0 <= ahead,
        0 <= behind,
    ensures
        ({
            let list = load_order(current, ahead, behind, steps);
            &&& current - behind <= list[k] <= current + ahead
            &&& current - steps <= list[k] <= current + steps
            &&& distance(list[k], current) <= distance(list[l], current)
            &&& k < l && distance(list[k], current) == distance(list[l], current) ==> list[k]
                > list[l]
        }),
    decreases steps,
{
    let list = load_order(current, ahead, behind, steps);
    if steps > 0 {
        let rest = load_order(current, ahead, behind, (steps - 1) as nat);
        if l < rest.len() {
            load_order_is(current, ahead, behind, (steps - 1) as nat, k, l);
            assert(list[k] == rest[k] && list[l] == rest[l]);
        } else if k < rest.len() {
            load_order_is(current, ahead, behind, (steps - 1) as nat, k, k);
            assert(list[k] == rest[k]);
        }
    }
}

/// What is loaded stands in the list, and in its order.
proof fn to_load_in_order(
    order: Seq<int>,
    total: int,
    cache: Set<usize>,
    pending: Set<usize>,
    k: int,
    l: int,
) -> (r: (int, int))
    requires
        total <= usize::MAX,
        0 <= k <= l < to_load(order, total, cache, pending).len(),
    ensures
        0 <= r.0 <= r.1 < order.len(),
        order[r.0] == to_load(order, total, cache, pending)[k],
        order[r.1] == to_load(order, total, cache, pending)[l],
        k < l ==> r.0 < r.1,
    decreases order.len(),
{
    let before = order.drop_last();
    let rest = to_load(before, total, cache, pending);
    if l < rest.len() {
        to_load_in_order(before, total, cache, pending, k, l)
    } else if k < rest.len() {
        let (i, j) = to_load_in_order(before, total, cache, pending, k, k);
        (i, order.len() - 1)
    } else {
        (order.len() - 1, order.len() - 1)
    }
}

/// A page is asked for exactly if it exists, is neither decoded nor being decoded, and
/// lies at most six pages ahead of the current one or one behind it; while the reader is
/// headed back, at most one ahead or six behind. The nearest come first, and of two that
/// are equally near the one ahead.
pub proof fn pages_are_asked_for_in_the_reading_direction(m: Model, page: usize)
    requires
        m.sources.len() <= usize::MAX,
        0 <= m.current_page,
    ensures
        window_pages(m).contains(page) <==> {
            &&& page < m.sources.len()
            &&& !m.cache.contains(page)
            &&& !m.pending.contains(page)
            &&& if m.nav_dir < 0 {
                m.current_page - 6 <= page <= m.current_page + 1
            } else {
                m.current_page - 1 <= page <= m.current_page + 6
            }
        },
        forall|k: int, l: int|
            0 <= k < l < window_pages(m).len() ==> {
                let a = #[trigger] window_pages(m)[k] as int - m.current_page;
                let b = #[trigger] window_pages(m)[l] as int - m.current_page;
                (if a < 0 {
                    -a
                } else {
                    a
                }) < (if b < 0 {
                    -b
                } else {
                    b
                }) || (a == -b && a > 0)
            },
{
    let (ahead, behind) = reach(m.nav_dir);
    let order = load_order(m.current_page, ahead, behind, PRELOAD_FAR as nat);
    let total = m.sources.len() as int;
    let kept = kept_pages(m.cache, m.current_page, total);
    let list = window_pages(m);
    to_load_is(order, total, kept, m.pending);
    if list.contains(page) {
        let k = choose|k: int| 0 <= k < list.len() && list[k] == page;
        let (i, j) = to_load_in_order(order, total, kept, m.pending, k, k);
        load_order_is(m.current_page, ahead, behind, PRELOAD_FAR as nat, i, i);
        assert(!kept.contains(page));
    }
    if page < m.sources.len() && !m.cache.contains(page) && !m.pending.contains(page) && (
    if m.nav_dir < 0 {
        m.current_page - 6 <= page <= m.current_page + 1
    } else {
        m.current_page - 1 <= page <= m.current_page + 6
    }) {
        load_order_has(m.current_page, ahead, behind, PRELOAD_FAR as nat, page as int);
        let i = choose|i: int| 0 <= i < order.len() && order[i] == page as int;
        assert(order[i] == page);
    }
    assert forall|k: int, l: int| 0 <= k < l < list.len() implies ({
        let a = #[trigger] list[k] as int - m.current_page;
        let b = #[trigger] list[l] as int - m.current_page;
        (if a < 0 {
            -a
        } else {
            a
        }) < (if b < 0 {
            -b
        } else {
            b
        }) || (a == -b && a > 0)
    }) by {
        let (i, j) = to_load_in_order(order, total, kept, m.pending, k, l);
        load_order_is(m.current_page, ahead, behind, PRELOAD_FAR as nat, i, j);
        assert(list[k] != list[l]);
    }
}

/// Each page that is asked for is to be decoded from its own source, and is then awaited;
/// nothing else is awaited that was not before. Pages more than fourteen away from the
/// current one are given up, and no other decoded page is.
pub proof fn the_window_is_brought_up_to_date(m: Model, page: usize, k: int)
    requires
        0 < m.sources.len() <= usize::MAX,
        0 <= m.current_page,
    ensures
        refreshed(m).1.len() == window_pages(m).len(),
        0 <= k < window_pages(m).len() ==> refreshed(m).1[k] == (ActionModel::Decode {
            index: window_pages(m)[k] as int,
            source: m.sources[window_pages(m)[k] as int],
        }),
        refreshed(m).0.pending.contains(page) <==> m.pending.contains(page) || window_pages(
            m,
        ).contains(page),
        refreshed(m).0.cache.contains(page) <==> m.cache.contains(page) && page < m.sources.len()
            && m.current_page - 14 <= page <= m.current_page + 14,
        refreshed(m).0.current_page == m.current_page,
        refreshed(m).0.sources == m.sources,
{
    reveal(refreshed);
    with_all_contains(m.pending, window_pages(m), page);
}

} // verus!

use vstd::prelude::*;
use vstd::string::StringExecFns;

use crate::event::EventModel;
use crate::state::{last_n, lemma_recent_is_latest, opt_view, views, App, AppModel, RootState, RECENT_CAPACITY};

verus! {

/// Rows of the header panel.
pub const HEADER_HEIGHT: u16 = 3;

/// Rows the lower panels keep at least.
pub const MIN_RECENT_HEIGHT: u16 = 4;

/// The rows the root panel asks for: four for the detail panel of a single
/// root, else one per root plus borders and a header row, held at the
/// largest `u16`.
pub open spec fn desired_root_height(n_roots: nat) -> nat {
    if n_roots <= 1 {
        4
    } else if n_roots + 3 > u16::MAX {
        u16::MAX as nat
    } else {
        n_roots + 3
    }
}

/// The rows the root panel gets on a screen of `area_height` rows: what it
/// asks for, but no more than is left after the header and the lower
/// panels' minimum, and never less than three.
pub open spec fn root_panel_height_spec(n_roots: nat, area_height: nat) -> nat {
    let left = if area_height >= 7 {
        (area_height - 7) as nat
    } else {
        0
    };
    let available = if left > 3 {
        left
    } else {
        3
    };
    if desired_root_height(n_roots) < available {
        desired_root_height(n_roots)
    } else {
        available
    }
}

/// The height of the root panel.
pub fn root_panel_height(n_roots: usize, area_height: u16) -> (r: u16)
    ensures
        r == root_panel_height_spec(n_roots as nat, area_height as nat),
{
    let desired: u16 = if n_roots <= 1 {
        4
    } else if n_roots > (u16::MAX - 3) as usize {
        u16::MAX
    } else {
        n_roots as u16 + 3
    };
    let available = area_height.saturating_sub(HEADER_HEIGHT + MIN_RECENT_HEIGHT);
    let available = if available > 3 {
        available
    } else {
        3
    };
    if desired < available {
        desired
    } else {
        available
    }
}

/// Whether the root panel shows one root in detail rather than a table.
pub fn uses_detail_panel(n_roots: usize) -> (b: bool)
    ensures
        b == (n_roots == 1),
{
    n_roots == 1
}

/// How the area below the root panel is shared.
#[derive(Debug, Clone, Copy, PartialEq, Eq)]
pub enum LowerLayout {
    /// Nothing fits.
    Hidden,
    /// Only the panel of current paths.
    CurrentOnly,
    /// The panel of current paths with `current_height` rows, and the recent
    /// matches below it.
    Split { current_height: u16 },
}

/// The layout of the lower area, `height` rows by `width` columns.
pub fn lower_layout(height: u16, width: u16) -> (r: LowerLayout)
    ensures
        (height == 0 || width == 0) ==> r is Hidden,
        (height != 0 && width != 0 && height <= 5) ==> r is CurrentOnly,
        (height > 5 && width != 0) ==> r == (LowerLayout::Split { current_height: 5 }),
{
    if height == 0 || width == 0 {
        LowerLayout::Hidden
    } else if height <= 5 {
        LowerLayout::CurrentOnly
    } else {
        let current_height = if height > 5 {
            5
        } else if height < 3 {
            3
        } else {
            height
        };
        LowerLayout::Split { current_height }
    }
}

/// How many recent matches a list of `area_height` rows shows: the rows
/// inside its border, at least one and at most the recent capacity.
pub open spec fn recent_window_size(area_height: nat) -> nat {
    let inner = if area_height >= 2 {
        (area_height - 2) as nat
    } else {
        0
    };
    if inner < 1 {
        1
    } else if inner > RECENT_CAPACITY {
        RECENT_CAPACITY as nat
    } else {
        inner
    }
}

/// The recent matches that a list of `area_height` rows shows, newest first.
pub open spec fn recent_shown(recent: Seq<Seq<char>>, area_height: nat) -> Seq<Seq<char>> {
    last_n(recent, recent_window_size(area_height)).reverse()
}

/// The recent matches to list in an area of `area_height` rows, newest
/// first; `None` where the area is too low to draw the list at all.
pub fn recent_window(recent: &Vec<String>, area_height: u16) -> (r: Option<Vec<String>>)
    ensures
        area_height < 3 ==> r is None,
        area_height >= 3 ==> (r matches Some(v) && views(v@) == recent_shown(
            views(recent@),
            area_height as nat,
        )),
{
    if area_height < 3 {
        return None;
    }
    let capacity = (area_height - 2) as usize;
    let window: usize = if capacity < 1 {
        1
    } else if capacity > RECENT_CAPACITY {
        RECENT_CAPACITY
    } else {
        capacity
    };
    let start: usize = if recent.len() > window {
        recent.len() - window
    } else {
        0
    };
    let ghost shown = recent_shown(views(recent@), area_height as nat);
    let ghost tail = views(recent@).subrange(start as int, recent.len() as int);
    proof {
        assert(tail =~= last_n(views(recent@), recent_window_size(area_height as nat)));
    }
    let mut items: Vec<String> = Vec::new();
    let mut k: usize = recent.len();
    while k > start
        invariant
            start <= k <= recent.len(),
            tail == views(recent@).subrange(start as int, recent.len() as int),
            views(items@) =~= tail.reverse().take((recent.len() - k) as int),
        decreases k,
    {
        k = k - 1;
        let ghost before = views(items@);
        items.push(recent[k].clone());
        proof {
            let n = recent.len() - k - 1;
            assert(tail.reverse()[n] == tail[tail.len() - 1 - n]);
            assert(tail[tail.len() - 1 - n] == views(recent@)[k as int]);
            assert(tail.reverse().take(n + 1) =~= tail.reverse().take(n).push(tail.reverse()[n]));
            assert(views(items@) =~= before.push(recent@[k as int]@));
        }
    }
    proof {
        assert(tail.reverse().take((recent.len() - k) as int) =~= tail.reverse());
    }
    Some(items)
}

/// The headline status: scanning until every root is done.
pub fn overall_status(app: &App) -> (r: &'static str)
    ensures
        r@ == if app@.all_done() {
            "done"@
        } else {
            "scanning"@
        },
{
    if app.all_done() {
        "done"
    } else {
        "scanning"
    }
}

/// The status of one root in its detail panel.
pub fn root_status(root: &RootState) -> (r: &'static str)
    ensures
        r@ == if root.done {
            "done"@
        } else {
            "scanning"@
        },
{
    if root.done {
        "done"
    } else {
        "scanning"
    }
}

/// The status of one root in the table of roots.
pub fn table_status(root: &RootState) -> (r: &'static str)
    ensures
        r@ == if root.done {
            "done"@
        } else {
            "…"@
        },
{
    if root.done {
        "done"
    } else {
        "…"
    }
}

/// The mark of one root in the panel of current paths.
pub fn progress_marker(root: &RootState) -> (r: &'static str)
    ensures
        r@ == if root.done {
            "✓"@
        } else {
            "▶"@
        },
{
    if root.done {
        "✓"
    } else {
        "▶"
    }
}

/// What a root is visiting: `complete` once done, else its latest progress
/// hint, or `idle` before the first one.
pub fn current_label(root: &RootState, idle: &str) -> (r: String)
    ensures
        r@ == if root.done {
            "complete"@
        } else {
            match opt_view(root.current) {
                Some(p) => p,
                None => idle@,
            }
        },
{
    if root.done {
        String::from_str("complete")
    } else {
        match &root.current {
            Some(p) => p.clone(),
            None => String::from_str(idle),
        }
    }
}


/// After any sequence of events handled from a fresh state, the recent list
/// as drawn is the latest confirmed matches, newest first, as many as the
/// area holds.
pub proof fn lemma_recent_shown_newest_first(
    paths: Seq<Seq<char>>,
    events: Seq<EventModel>,
    area_height: nat,
)
    ensures
        recent_shown(AppModel::initial(paths).run(events).recent, area_height) == last_n(
            AppModel::initial(paths).run(events).all_matches,
            recent_window_size(area_height),
        ).reverse(),
{
    lemma_recent_is_latest(paths, events);
    let all = AppModel::initial(paths).run(events).all_matches;
    assert(last_n(last_n(all, RECENT_CAPACITY as nat), recent_window_size(area_height)) =~= last_n(
        all,
        recent_window_size(area_height),
    ));
}

} // verus!

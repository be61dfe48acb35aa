use vstd::prelude::*;

use crate::event::{EventModel, ScanEvent};

verus! {

/// How many of the latest confirmed matches the recent list keeps.
pub const RECENT_CAPACITY: usize = 12;

/// Progress of one root, mutated only by the aggregator.
#[derive(Debug)]
pub struct RootState {
    pub path: String,
    pub scanned: u64,
    pub found: u64,
    pub done: bool,
    pub current: Option<String>,
}

/// The mathematical value of a [`RootState`].
pub ghost struct RootModel {
    pub path: Seq<char>,
    pub scanned: nat,
    pub found: nat,
    pub done: bool,
    pub current: Option<Seq<char>>,
}

pub open spec fn opt_view(o: Option<String>) -> Option<Seq<char>> {
    match o {
        Some(s) => Some(s@),
        None => None,
    }
}

impl View for RootState {
    type V = RootModel;

    open spec fn view(&self) -> RootModel {
        RootModel {
            path: self.path@,
            scanned: self.scanned as nat,
            found: self.found as nat,
            done: self.done,
            current: opt_view(self.current),
        }
    }
}

impl RootModel {
    pub open spec fn initial(path: Seq<char>) -> RootModel {
        RootModel { path, scanned: 0, found: 0, done: false, current: None }
    }
}

impl RootState {
    /// A root that has not been scanned yet.
    pub fn new(path: String) -> (r: RootState)
        ensures
            r@ == RootModel::initial(path@),
    {
        RootState { path, scanned: 0, found: 0, done: false, current: None }
    }
}

/// The characters of each string.
pub open spec fn views(v: Seq<String>) -> Seq<Seq<char>> {
    v.map_values(|s: String| s@)
}

/// Adding one, held at the largest `u64`.
pub open spec fn sat_inc(n: nat) -> nat {
    if n < u64::MAX {
        n + 1
    } else {
        n
    }
}

/// The sum of the match counts of the roots.
pub open spec fn sum_found(roots: Seq<RootModel>) -> nat
    decreases roots.len(),
{
    if roots.len() == 0 {
        0
    } else {
        sum_found(roots.drop_last()) + roots.last().found
    }
}

/// The sum of the visited-entry counts of the roots.
pub open spec fn sum_scanned(roots: Seq<RootModel>) -> nat
    decreases roots.len(),
{
    if roots.len() == 0 {
        0
    } else {
        sum_scanned(roots.drop_last()) + roots.last().scanned
    }
}

/// The last `min(n, s.len())` items of `s`, oldest first.
pub open spec fn last_n<A>(s: Seq<A>, n: nat) -> Seq<A> {
    if s.len() > n {
        s.subrange(s.len() - n, s.len() as int)
    } else {
        s
    }
}

/// The aggregated scan state as mathematical values.
pub ghost struct AppModel {
    pub roots: Seq<RootModel>,
    /// The latest confirmed matches, oldest first.
    pub recent: Seq<Seq<char>>,
    /// Every confirmed match, in the order it was confirmed.
    pub all_matches: Seq<Seq<char>>,
}

impl AppModel {
    pub open spec fn initial(paths: Seq<Seq<char>>) -> AppModel {
        AppModel {
            roots: paths.map_values(|p: Seq<char>| RootModel::initial(p)),
            recent: Seq::empty(),
            all_matches: Seq::empty(),
        }
    }

    /// The set of canonical paths already confirmed.
    pub open spec fn seen(self) -> Set<Seq<char>> {
        self.all_matches.to_set()
    }

    /// Each match is recorded once and attributed to exactly one root, and the
    /// recent list is the tail of the match list.
    pub open spec fn wf(self) -> bool {
        &&& self.all_matches.no_duplicates()
        &&& sum_found(self.roots) == self.all_matches.len()
        &&& self.recent == last_n(self.all_matches, RECENT_CAPACITY as nat)
    }

    /// Whether the event names one of the roots.
    pub open spec fn accepts(self, e: EventModel) -> bool {
        e.root_idx() < self.roots.len()
    }

    /// Whether the event is a match that has not been seen before.
    pub open spec fn confirms(self, e: EventModel) -> bool {
        match e {
            EventModel::MatchFound { path, .. } => !self.seen().contains(path),
            _ => false,
        }
    }

    /// The state after the aggregator handles one event.
    pub open spec fn step(self, e: EventModel) -> AppModel {
        if !self.accepts(e) {
            self
        } else {
            let i = e.root_idx() as int;
            let r = self.roots[i];
            match e {
                EventModel::EntryVisited { .. } => AppModel {
                    roots: self.roots.update(i, RootModel { scanned: sat_inc(r.scanned), ..r }),
                    ..self
                },
                EventModel::ProgressHint { path, .. } => AppModel {
                    roots: self.roots.update(i, RootModel { current: Some(path), ..r }),
                    ..self
                },
                EventModel::MatchFound { path, .. } => if self.seen().contains(path) {
                    self
                } else {
                    AppModel {
                        roots: self.roots.update(i, RootModel { found: r.found + 1, ..r }),
                        recent: last_n(self.recent.push(path), RECENT_CAPACITY as nat),
                        all_matches: self.all_matches.push(path),
                    }
                },
                EventModel::RootFinished { .. } => AppModel {
                    roots: self.roots.update(i, RootModel { done: true, current: None, ..r }),
                    ..self
                },
            }
        }
    }

    /// The state after the aggregator handles the events in order.
    pub open spec fn run(self, events: Seq<EventModel>) -> AppModel
        decreases events.len(),
    {
        if events.len() == 0 {
            self
        } else {
            self.run(events.drop_last()).step(events.last())
        }
    }

    /// Whether every root has finished.
    pub open spec fn all_done(self) -> bool {
        forall|i: int| 0 <= i < self.roots.len() ==> #[trigger] self.roots[i].done
    }
}

/// The aggregator: sole owner of the scan state.
pub struct App {
    roots: Vec<RootState>,
    recent: Vec<String>,
    all_matches: Vec<String>,
}

impl View for App {
    type V = AppModel;

    closed spec fn view(&self) -> AppModel {
        AppModel {
            roots: self.roots@.map_values(|r: RootState| r@),
            recent: views(self.recent@),
            all_matches: views(self.all_matches@),
        }
    }
}


proof fn lemma_sum_found_update(roots: Seq<RootModel>, i: int, r: RootModel)
    requires
        0 <= i < roots.len(),
    ensures
        sum_found(roots.update(i, r)) + roots[i].found == sum_found(roots) + r.found,
    decreases roots.len(),
{
    let u = roots.update(i, r);
    if i == roots.len() - 1 {
        assert(u.drop_last() =~= roots.drop_last());
    } else {
        lemma_sum_found_update(roots.drop_last(), i, r);
        assert(u.drop_last() =~= roots.drop_last().update(i, r));
    }
}

proof fn lemma_found_le_sum(roots: Seq<RootModel>, i: int)
    requires
        0 <= i < roots.len(),
    ensures
        roots[i].found <= sum_found(roots),
    decreases roots.len(),
{
    if i < roots.len() - 1 {
        lemma_found_le_sum(roots.drop_last(), i);
    }
}

proof fn lemma_last_n_push<A>(s: Seq<A>, x: A, n: nat)
    ensures
        last_n(last_n(s, n).push(x), n) =~= last_n(s.push(x), n),
{
}

proof fn lemma_step_wf(m: AppModel, e: EventModel)
    requires
        m.wf(),
    ensures
        m.step(e).wf(),
        m.step(e).roots.len() == m.roots.len(),
{
    if m.accepts(e) {
        let i = e.root_idx() as int;
        let r = m.roots[i];
        match e {
            EventModel::EntryVisited { .. } => {
                lemma_sum_found_update(m.roots, i, RootModel { scanned: sat_inc(r.scanned), ..r });
            },
            EventModel::ProgressHint { path, .. } => {
                lemma_sum_found_update(m.roots, i, RootModel { current: Some(path), ..r });
            },
            EventModel::MatchFound { path, .. } => {
                if !m.seen().contains(path) {
                    lemma_sum_found_update(m.roots, i, RootModel { found: r.found + 1, ..r });
                    lemma_last_n_push(m.all_matches, path, RECENT_CAPACITY as nat);
                    let s = m.all_matches.push(path);
                    assert forall|a: int, b: int| 0 <= a < s.len() && 0 <= b < s.len() && a != b
                        implies s[a] != s[b] by {
                        if a == s.len() - 1 {
                            assert(m.all_matches.contains(s[b]));
                        } else if b == s.len() - 1 {
                            assert(m.all_matches.contains(s[a]));
                        }
                    }
                }
            },
            EventModel::RootFinished { .. } => {
                lemma_sum_found_update(m.roots, i, RootModel { done: true, current: None, ..r });
            },
        }
    }
}

proof fn lemma_run_wf(m: AppModel, events: Seq<EventModel>)
    requires
        m.wf(),
    ensures
        m.run(events).wf(),
        m.run(events).roots.len() == m.roots.len(),
    decreases events.len(),
{
    if events.len() > 0 {
        lemma_run_wf(m, events.drop_last());
        lemma_step_wf(m.run(events.drop_last()), events.last());
    }
}

proof fn lemma_initial_wf(paths: Seq<Seq<char>>)
    ensures
        AppModel::initial(paths).wf(),
        AppModel::initial(paths).roots.len() == paths.len(),
    decreases paths.len(),
{
    let m = AppModel::initial(paths);
    assert(m.recent =~= last_n(m.all_matches, RECENT_CAPACITY as nat));
    if paths.len() > 0 {
        lemma_initial_wf(paths.drop_last());
        assert(m.roots.drop_last() =~= AppModel::initial(paths.drop_last()).roots);
    }
}

impl App {
    /// A fresh state with one unscanned root per path, in the given order.
    pub fn new(paths: Vec<String>) -> (r: App)
        ensures
            r@ == AppModel::initial(views(paths@)),
            r@.wf(),
    {
        let mut roots: Vec<RootState> = Vec::new();
        let mut i: usize = 0;
        while i < paths.len()
            invariant
                i <= paths.len(),
                roots.len() == i,
                forall|j: int| 0 <= j < i ==> #[trigger] roots@[j]@ == RootModel::initial(paths@[j]@),
            decreases paths.len() - i,
        {
            roots.push(RootState::new(paths[i].clone()));
            i = i + 1;
        }
        let r = App { roots, recent: Vec::new(), all_matches: Vec::new() };
        proof {
            assert(r@.roots =~= AppModel::initial(views(paths@)).roots);
            assert(r@.recent =~= Seq::<Seq<char>>::empty());
            assert(r@.all_matches =~= Seq::<Seq<char>>::empty());
            lemma_initial_wf(views(paths@));
        }
        r
    }
}


/// Whether `p` is one of the strings of `v`.
fn contains_path(v: &Vec<String>, p: &String) -> (b: bool)
    ensures
        b == views(v@).contains(p@),
{
    let mut i: usize = 0;
    while i < v.len()
        invariant
            i <= v.len(),
            forall|j: int| 0 <= j < i ==> v@[j]@ != p@,
        decreases v.len() - i,
    {
        if v[i] == *p {
            proof {
                assert(views(v@)[i as int] == p@);
            }
            return true;
        }
        i = i + 1;
    }
    proof {
        assert forall|j: int| 0 <= j < views(v@).len() implies views(v@)[j] != p@ by {
            assert(v@[j]@ != p@);
        }
    }
    false
}

impl App {
    /// The roots, in the order they were given.
    pub fn roots(&self) -> (r: &Vec<RootState>)
        ensures
            r@.map_values(|x: RootState| x@) == self@.roots,
    {
        &self.roots
    }

    /// The latest confirmed matches, oldest first.
    pub fn recent(&self) -> (r: &Vec<String>)
        ensures
            views(r@) == self@.recent,
    {
        &self.recent
    }

    /// Every confirmed match, in the order it was confirmed.
    pub fn all_matches(&self) -> (r: &Vec<String>)
        ensures
            views(r@) == self@.all_matches,
    {
        &self.all_matches
    }

    /// Whether `p` has already been confirmed as a match.
    pub fn is_seen(&self, p: &String) -> (b: bool)
        ensures
            b == self@.seen().contains(p@),
    {
        contains_path(&self.all_matches, p)
    }

    /// Appends to the recent list, dropping the oldest beyond its capacity.
    fn push_recent(&mut self, p: String)
        requires
            old(self).recent@.len() <= RECENT_CAPACITY,
        ensures
            views(final(self).recent@) == last_n(
                views(old(self).recent@).push(p@),
                RECENT_CAPACITY as nat,
            ),
            final(self).roots == old(self).roots,
            final(self).all_matches == old(self).all_matches,
    {
        self.recent.push(p);
        if self.recent.len() > RECENT_CAPACITY {
            self.recent.remove(0);
        }
        proof {
            assert(views(self.recent@) =~= last_n(
                views(old(self).recent@).push(p@),
                RECENT_CAPACITY as nat,
            ));
        }
    }

    /// Handles one event: counts a visited entry, records the current path,
    /// confirms a match not seen before, or marks the root done. Returns the
    /// path when the event confirmed a new match, for a live writer to record.
    pub fn apply(&mut self, ev: ScanEvent) -> (confirmed: Option<String>)
        requires
            old(self)@.wf(),
            old(self)@.accepts(ev@),
            old(self)@.all_matches.len() < usize::MAX,
        ensures
            final(self)@ == old(self)@.step(ev@),
            final(self)@.wf(),
            confirmed is Some <==> old(self)@.confirms(ev@),
            confirmed matches Some(p) ==> ev@ matches EventModel::MatchFound { path, .. } && p@
                == path,
    {
        proof {
            lemma_step_wf(self@, ev@);
        }
        let ghost m = self@;
        match ev {
            ScanEvent::EntryVisited { root_idx } => {
                let n = self.roots[root_idx].scanned.saturating_add(1);
                self.roots[root_idx].scanned = n;
                proof {
                    assert(self@.roots =~= m.step(ev@).roots);
                }
                None
            },
            ScanEvent::ProgressHint { root_idx, path } => {
                self.roots[root_idx].current = Some(path);
                proof {
                    assert(self@.roots =~= m.step(ev@).roots);
                }
                None
            },
            ScanEvent::MatchFound { root_idx, path } => {
                if contains_path(&self.all_matches, &path) {
                    None
                } else {
                    proof {
                        lemma_found_le_sum(m.roots, root_idx as int);
                    }
                    let n = self.roots[root_idx].found + 1;
                    self.roots[root_idx].found = n;
                    self.push_recent(path.clone());
                    self.all_matches.push(path.clone());
                    proof {
                        assert(self@.roots =~= m.step(ev@).roots);
                        assert(self@.all_matches =~= m.step(ev@).all_matches);
                    }
                    Some(path)
                }
            },
            ScanEvent::RootFinished { root_idx } => {
                self.roots[root_idx].done = true;
                self.roots[root_idx].current = None;
                proof {
                    assert(self@.roots =~= m.step(ev@).roots);
                }
                None
            },
        }
    }
}


proof fn lemma_sum_found_prefix(roots: Seq<RootModel>, i: int)
    requires
        0 <= i <= roots.len(),
    ensures
        sum_found(roots.take(i)) <= sum_found(roots),
    decreases roots.len() - i,
{
    if i < roots.len() {
        lemma_sum_found_prefix(roots, i + 1);
        assert(roots.take(i + 1).drop_last() =~= roots.take(i));
    } else {
        assert(roots.take(i) =~= roots);
    }
}

impl App {
    /// The number of entries visited over all roots, held at the largest `u64`.
    pub fn total_scanned(&self) -> (r: u64)
        ensures
            r == if sum_scanned(self@.roots) < u64::MAX {
                sum_scanned(self@.roots)
            } else {
                u64::MAX as nat
            },
    {
        let ghost rs = self@.roots;
        let mut acc: u64 = 0;
        let mut i: usize = 0;
        while i < self.roots.len()
            invariant
                i <= self.roots.len(),
                rs == self@.roots,
                rs.len() == self.roots.len(),
                acc == if sum_scanned(rs.take(i as int)) < u64::MAX {
                    sum_scanned(rs.take(i as int))
                } else {
                    u64::MAX as nat
                },
            decreases self.roots.len() - i,
        {
            proof {
                assert(rs.take(i + 1).drop_last() =~= rs.take(i as int));
                assert(rs[i as int] == self.roots@[i as int]@);
            }
            acc = acc.saturating_add(self.roots[i].scanned);
            i = i + 1;
        }
        proof {
            assert(rs.take(i as int) =~= rs);
        }
        acc
    }

    /// The number of matches over all roots.
    pub fn total_found(&self) -> (r: u64)
        requires
            self@.wf(),
        ensures
            r == sum_found(self@.roots),
            r == self@.all_matches.len(),
    {
        let ghost rs = self@.roots;
        let n_matches = self.all_matches.len();
        let mut acc: u64 = 0;
        let mut i: usize = 0;
        while i < self.roots.len()
            invariant
                i <= self.roots.len(),
                rs == self@.roots,
                rs.len() == self.roots.len(),
                n_matches == self@.all_matches.len(),
                sum_found(rs) == self@.all_matches.len(),
                self@.all_matches.len() == self.all_matches@.len(),
                acc == sum_found(rs.take(i as int)),
            decreases self.roots.len() - i,
        {
            proof {
                assert(rs.take(i + 1).drop_last() =~= rs.take(i as int));
                assert(rs[i as int] == self.roots@[i as int]@);
                lemma_sum_found_prefix(rs, i + 1);
                assert(sum_found(rs.take(i + 1)) == acc + rs[i as int].found);
            }
            acc = acc + self.roots[i].found;
            i = i + 1;
        }
        proof {
            assert(rs.take(i as int) =~= rs);
        }
        acc
    }

    /// Whether every root has finished.
    pub fn all_done(&self) -> (b: bool)
        ensures
            b == self@.all_done(),
    {
        let mut i: usize = 0;
        while i < self.roots.len()
            invariant
                i <= self.roots.len(),
                forall|j: int| 0 <= j < i ==> #[trigger] self@.roots[j].done,
            decreases self.roots.len() - i,
        {
            if !self.roots[i].done {
                proof {
                    assert(!self@.roots[i as int].done);
                }
                return false;
            }
            i = i + 1;
        }
        true
    }
}


/// After any sequence of events handled from a fresh state, no path appears
/// twice among the matches, and there are as many matches as seen paths.
pub proof fn lemma_matches_unique(paths: Seq<Seq<char>>, events: Seq<EventModel>)
    ensures
        AppModel::initial(paths).run(events).all_matches.no_duplicates(),
        AppModel::initial(paths).run(events).all_matches.len() == AppModel::initial(paths).run(
            events,
        ).seen().len(),
{
    lemma_initial_wf(paths);
    lemma_run_wf(AppModel::initial(paths), events);
    AppModel::initial(paths).run(events).all_matches.unique_seq_to_set();
}

/// After any sequence of events handled from a fresh state, no root counts
/// more matches than there are, and the roots' counts add up to the number
/// of matches: each match is attributed to exactly one root.
pub proof fn lemma_matches_attributed(paths: Seq<Seq<char>>, events: Seq<EventModel>)
    ensures
        forall|i: int|
            0 <= i < AppModel::initial(paths).run(events).roots.len() ==> (
            #[trigger] AppModel::initial(paths).run(events).roots[i]).found
                <= AppModel::initial(paths).run(events).all_matches.len(),
        sum_found(AppModel::initial(paths).run(events).roots) == AppModel::initial(paths).run(
            events,
        ).all_matches.len(),
{
    lemma_initial_wf(paths);
    lemma_run_wf(AppModel::initial(paths), events);
    let m = AppModel::initial(paths).run(events);
    assert forall|i: int| 0 <= i < m.roots.len() implies (#[trigger] m.roots[i]).found
        <= m.all_matches.len() by {
        lemma_found_le_sum(m.roots, i);
    }
}

/// A match event handled a second time changes nothing, wherever the run
/// stands: the state after it is the state after the first time.
pub proof fn lemma_match_idempotent(
    paths: Seq<Seq<char>>,
    events: Seq<EventModel>,
    e: EventModel,
)
    requires
        e is MatchFound,
    ensures
        AppModel::initial(paths).run(events).step(e).step(e) == AppModel::initial(paths).run(
            events,
        ).step(e),
{
    let m = AppModel::initial(paths).run(events);
    let m1 = m.step(e);
    if m.accepts(e) && !m.seen().contains(e->MatchFound_path) {
        assert(m1.all_matches.last() == e->MatchFound_path);
        assert(m1.seen().contains(e->MatchFound_path));
    }
}

/// After any sequence of events handled from a fresh state, the recent list
/// holds at most its capacity, and it is exactly the latest confirmed
/// matches, oldest first.
pub proof fn lemma_recent_is_latest(paths: Seq<Seq<char>>, events: Seq<EventModel>)
    ensures
        AppModel::initial(paths).run(events).recent.len() <= RECENT_CAPACITY,
        AppModel::initial(paths).run(events).recent == last_n(
            AppModel::initial(paths).run(events).all_matches,
            RECENT_CAPACITY as nat,
        ),
{
    lemma_initial_wf(paths);
    lemma_run_wf(AppModel::initial(paths), events);
}

} // verus!

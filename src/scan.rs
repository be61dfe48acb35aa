use vstd::prelude::*;

use crate::event::{EventModel, ScanEvent};
use crate::output::chars_of;

verus! {

/// The least time, in milliseconds, between two progress hints of one root.
pub const PROGRESS_THROTTLE_MS: u64 = 120;

/// Whether a file name is `.git` up to ASCII case.
pub open spec fn is_git_name(n: Seq<char>) -> bool {
    &&& n.len() == 4
    &&& n[0] == '.'
    &&& (n[1] == 'g' || n[1] == 'G')
    &&& (n[2] == 'i' || n[2] == 'I')
    &&& (n[3] == 't' || n[3] == 'T')
}

/// Whether `name` is `.git`, ignoring ASCII case.
pub fn is_git_dir_name(name: &str) -> (b: bool)
    ensures
        b == is_git_name(name@),
{
    let cs = chars_of(name);
    cs.len() == 4 && cs[0] == '.' && (cs[1] == 'g' || cs[1] == 'G') && (cs[2] == 'i' || cs[2]
        == 'I') && (cs[3] == 't' || cs[3] == 'T')
}

/// Whether a visited entry is a match: a directory whose name (when it is
/// valid text) is `.git` up to ASCII case.
pub fn is_git_dir(is_dir: bool, file_name: Option<&str>) -> (b: bool)
    ensures
        b == (is_dir && file_name is Some && is_git_name(file_name->0@)),
{
    if !is_dir {
        return false;
    }
    match file_name {
        Some(n) => is_git_dir_name(n),
        None => false,
    }
}

/// The path recorded for a match: its canonical form where it could be
/// resolved, else the path as discovered.
pub fn canonical_or(raw: String, canonical: Option<String>) -> (r: String)
    ensures
        r@ == match canonical {
            Some(c) => c@,
            None => raw@,
        },
{
    match canonical {
        Some(c) => c,
        None => raw,
    }
}

/// The events for one successfully visited entry: it is counted, its path
/// becomes the progress hint where one is due, and a match is reported with
/// its recorded path.
pub open spec fn visit_events_spec(
    root_idx: nat,
    path: Seq<char>,
    report_progress: bool,
    matched: Option<Seq<char>>,
) -> Seq<EventModel> {
    seq![EventModel::EntryVisited { root_idx }] + (if report_progress {
        seq![EventModel::ProgressHint { root_idx, path }]
    } else {
        Seq::empty()
    }) + match matched {
        Some(p) => seq![EventModel::MatchFound { root_idx, path: p }],
        None => Seq::empty(),
    }
}

/// The events a scanner sends for one successfully visited entry, in order.
pub fn visit_events(
    root_idx: usize,
    path: String,
    report_progress: bool,
    matched: Option<String>,
) -> (r: Vec<ScanEvent>)
    ensures
        r@.map_values(|e: ScanEvent| e@) == visit_events_spec(
            root_idx as nat,
            path@,
            report_progress,
            match matched {
                Some(p) => Some(p@),
                None => None,
            },
        ),
{
    let mut r: Vec<ScanEvent> = Vec::new();
    r.push(ScanEvent::EntryVisited { root_idx });
    if report_progress {
        r.push(ScanEvent::ProgressHint { root_idx, path });
    }
    match matched {
        Some(p) => r.push(ScanEvent::MatchFound { root_idx, path: p }),
        None => {},
    }
    proof {
        assert(r@.map_values(|e: ScanEvent| e@) =~= visit_events_spec(
            root_idx as nat,
            path@,
            report_progress,
            match matched {
                Some(p) => Some(p@),
                None => None,
            },
        ));
    }
    r
}

/// The events a scanner sends for an entry it could not read: the entry is
/// counted as visited and nothing else, and the walk goes on.
pub fn error_events(root_idx: usize) -> (r: Vec<ScanEvent>)
    ensures
        r@.map_values(|e: ScanEvent| e@) == seq![EventModel::EntryVisited { root_idx: root_idx as nat }],
{
    let mut r: Vec<ScanEvent> = Vec::new();
    r.push(ScanEvent::EntryVisited { root_idx });
    proof {
        assert(r@.map_values(|e: ScanEvent| e@) =~= seq![
            EventModel::EntryVisited { root_idx: root_idx as nat },
        ]);
    }
    r
}

/// Spacing of the advisory progress hints of one root. Times are
/// milliseconds on one monotonic clock.
#[derive(Debug, Clone, Copy)]
pub struct ProgressThrottle {
    /// When the last hint was let through.
    pub last_ms: u64,
    /// The least time between two hints.
    pub interval_ms: u64,
}

impl ProgressThrottle {
    /// A throttle whose first hint is due `interval_ms` after `now_ms`.
    pub fn new(now_ms: u64, interval_ms: u64) -> (r: ProgressThrottle)
        ensures
            r.last_ms == now_ms,
            r.interval_ms == interval_ms,
    {
        ProgressThrottle { last_ms: now_ms, interval_ms }
    }

    /// Whether a hint is due at `now_ms`: at least the interval has passed
    /// since the last one (a clock reading before it counts as no time). A
    /// hint that is due is taken: the interval starts again at `now_ms`.
    pub fn should_report(&mut self, now_ms: u64) -> (due: bool)
        ensures
            due == (now_ms >= old(self).last_ms && now_ms - old(self).last_ms
                >= old(self).interval_ms),
            final(self).interval_ms == old(self).interval_ms,
            final(self).last_ms == if due {
                now_ms
            } else {
                old(self).last_ms
            },
    {
        if now_ms >= self.last_ms && now_ms - self.last_ms >= self.interval_ms {
            self.last_ms = now_ms;
            true
        } else {
            false
        }
    }
}

} // verus!

use vstd::prelude::*;

verus! {

/// A message from a root's scanner to the aggregator.
#[derive(Debug, PartialEq, Eq)]
pub enum ScanEvent {
    /// One filesystem entry (file, directory or unreadable entry) was processed.
    EntryVisited { root_idx: usize },
    /// Advisory "currently here" update, for display only.
    ProgressHint { root_idx: usize, path: String },
    /// A canonical match path, not yet deduplicated.
    MatchFound { root_idx: usize, path: String },
    /// The root's tree is exhausted; nothing more comes for it.
    RootFinished { root_idx: usize },
}

/// The mathematical value of a [`ScanEvent`]: paths are seen as their characters.
pub ghost enum EventModel {
    EntryVisited { root_idx: nat },
    ProgressHint { root_idx: nat, path: Seq<char> },
    MatchFound { root_idx: nat, path: Seq<char> },
    RootFinished { root_idx: nat },
}

impl EventModel {
    pub open spec fn root_idx(self) -> nat {
        match self {
            EventModel::EntryVisited { root_idx } => root_idx,
            EventModel::ProgressHint { root_idx, .. } => root_idx,
            EventModel::MatchFound { root_idx, .. } => root_idx,
            EventModel::RootFinished { root_idx } => root_idx,
        }
    }
}

impl View for ScanEvent {
    type V = EventModel;

    open spec fn view(&self) -> EventModel {
        match self {
            ScanEvent::EntryVisited { root_idx } => EventModel::EntryVisited {
                root_idx: *root_idx as nat,
            },
            ScanEvent::ProgressHint { root_idx, path } => EventModel::ProgressHint {
                root_idx: *root_idx as nat,
                path: path@,
            },
            ScanEvent::MatchFound { root_idx, path } => EventModel::MatchFound {
                root_idx: *root_idx as nat,
                path: path@,
            },
            ScanEvent::RootFinished { root_idx } => EventModel::RootFinished {
                root_idx: *root_idx as nat,
            },
        }
    }
}

impl ScanEvent {
    /// The index of the root that the event belongs to.
    pub fn root_idx(&self) -> (r: usize)
        ensures
            r as nat == self@.root_idx(),
    {
        match self {
            ScanEvent::EntryVisited { root_idx } => *root_idx,
            ScanEvent::ProgressHint { root_idx, .. } => *root_idx,
            ScanEvent::MatchFound { root_idx, .. } => *root_idx,
            ScanEvent::RootFinished { root_idx } => *root_idx,
        }
    }
}

} // verus!

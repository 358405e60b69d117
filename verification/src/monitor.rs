//! File-change observation state: the per-path last-observed identity used
//! for change detection, the extension filter events pass through, and the
//! per-second rate window.  The watch mechanism itself is an external
//! collaborator; it hands these functions plain values.

use vstd::prelude::*;

use crate::detector::ext_with_dot;

verus! {

/// The last observed identity of a watched path: modification time
/// (seconds since the epoch), size, and content digest.
#[derive(Debug)]
pub struct FileState {
    pub last_modified: u64,
    pub size: u64,
    pub hash: String,
}

/// The mathematical content of a `FileState`.
#[verifier::ext_equal]
pub struct FileStateView {
    pub last_modified: u64,
    pub size: u64,
    pub hash: Seq<char>,
}

impl View for FileState {
    type V = FileStateView;

    open spec fn view(&self) -> FileStateView {
        FileStateView { last_modified: self.last_modified, size: self.size, hash: self.hash@ }
    }
}

/// One detected change, in the scan-based monitor's vocabulary: the kind
/// is `created` or `modified`, and the digest is the content at
/// observation time.
#[derive(Debug)]
pub struct FileChangeEvent {
    pub path: String,
    pub event_type: String,
    pub timestamp: u64,
    pub file_size: u64,
    pub file_hash: Option<String>,
}

/// Whether an event for `path` passes the extension allow-list: the path
/// must have an extension, and the list, unless empty, must hold it (with
/// its dot).
pub open spec fn passes_filter(path: Seq<char>, extensions: Seq<Seq<char>>) -> bool {
    match ext_with_dot(path) {
        Some(d) => extensions.len() == 0 || extensions.contains(d),
        None => false,
    }
}

/// The extension allow-list check the event stream is filtered by.
pub fn event_passes_filter(path: &String, extensions: &Vec<String>) -> (r: bool)
    ensures
        r == passes_filter(path@, extensions.deep_view()),
{
    match crate::strutil::extension(path.as_str()) {
        Some(ext) => {
            let mut dotted = String::from_str(".");
            dotted.append(ext.as_str());
            proof {
                reveal_strlit(".");
                assert(dotted@ =~= seq!['.'] + ext@);
                assert(ext_with_dot(path@) == Some(dotted@));
            }
            if extensions.len() == 0 {
                true
            } else {
                crate::strutil::vec_contains_string(extensions, &dotted)
            }
        },
        None => false,
    }
}

/// The states a monitor holds, as (path, state) pairs in insertion order.
pub open spec fn states_view(states: Seq<(String, FileState)>) -> Seq<(Seq<char>, FileStateView)> {
    Seq::new(states.len(), |i: int| (states[i].0@, states[i].1@))
}

/// The scan-based monitor's state: the watched roots and the last observed
/// identity of every file seen so far.
pub struct FileSystemMonitor {
    watch_paths: Vec<String>,
    states: Vec<(String, FileState)>,
}

impl FileSystemMonitor {
    /// The per-path states, in first-observation order.
    pub closed spec fn spec_states(self) -> Seq<(Seq<char>, FileStateView)> {
        states_view(self.states@)
    }

    pub closed spec fn spec_watch_paths(self) -> Seq<Seq<char>> {
        self.watch_paths.deep_view()
    }

    /// No path is tracked twice.
    pub closed spec fn wf(self) -> bool {
        forall|i: int, j: int|
            0 <= i < j < self.states@.len() ==> (#[trigger] self.states@[i].0@) != (
            #[trigger] self.states@[j].0@)
    }

    /// Whether `path` is tracked, and with what state.
    pub open spec fn spec_lookup(self, path: Seq<char>) -> Option<FileStateView> {
        if exists|i: int| 0 <= i < self.spec_states().len() && self.spec_states()[i].0 == path {
            Some(
                self.spec_states()[choose|i: int|
                    0 <= i < self.spec_states().len() && self.spec_states()[i].0 == path].1,
            )
        } else {
            None
        }
    }

    pub fn new(watch_paths: Vec<String>) -> (r: Self)
        ensures
            r.wf(),
            r.spec_watch_paths() == watch_paths.deep_view(),
            r.spec_states() =~= Seq::<(Seq<char>, FileStateView)>::empty(),
    {
        FileSystemMonitor { watch_paths, states: Vec::new() }
    }

    /// How many files the monitor tracks.
    pub fn files_tracked(&self) -> (r: usize)
        ensures
            r == self.spec_states().len(),
    {
        self.states.len()
    }

    fn find_state(&self, path: &String) -> (r: Option<usize>)
        ensures
            match r {
                Some(i) => i < self.spec_states().len() && self.spec_states()[i as int].0 == path@,
                None => !exists|i: int|
                    0 <= i < self.spec_states().len() && (#[trigger] self.spec_states()[i].0)
                        == path@,
            },
    {
        let ghost sv = self.spec_states();
        let mut i: usize = 0;
        while i < self.states.len()
            invariant
                i <= self.states@.len(),
                sv == self.spec_states(),
                sv.len() == self.states@.len(),
                forall|j: int| 0 <= j < i ==> (#[trigger] sv[j].0) != path@,
            decreases self.states@.len() - i,
        {
            let hit = self.states[i].0.eq(path);
            proof {
                assert(sv[i as int].0 == self.states@[i as int].0@);
            }
            if hit {
                return Some(i);
            }
            i = i + 1;
        }
        proof {
            if exists|j: int| 0 <= j < sv.len() && (#[trigger] sv[j].0) == path@ {
                let j = choose|j: int| 0 <= j < sv.len() && (#[trigger] sv[j].0) == path@;
                assert(sv[j].0 != path@);
            }
        }
        None
    }

    /// Records one observation of `path` (modification time, size and
    /// content digest, as read at `now`) and reports what changed: a
    /// `created` event the first time a path is seen, a `modified` event
    /// when its digest differs from the last observation, and nothing when
    /// the content is unchanged.  The stored state is updated either way.
    #[verifier::loop_isolation(false)]
    pub fn observe_file(
        &mut self,
        path: &String,
        modified: u64,
        size: u64,
        hash: &String,
        now: u64,
    ) -> (r: Option<FileChangeEvent>)
        requires
            old(self).wf(),
        ensures
            final(self).wf(),
            final(self).spec_watch_paths() == old(self).spec_watch_paths(),
            ({
                let st = FileStateView { last_modified: modified, size, hash: hash@ };
                match old(self).spec_lookup(path@) {
                    None => {
                        &&& r matches Some(e) && e.path@ == path@ && e.event_type@ == "created"@
                            && e.timestamp == now && e.file_size == size && (e.file_hash matches Some(h)
                            && h@ == hash@)
                        &&& final(self).spec_states() =~= old(self).spec_states().push(
                            (path@, st),
                        )
                    },
                    Some(prev) => {
                        &&& final(self).spec_states() =~= old(self).spec_states().update(
                            info_pos(old(self).spec_states(), path@),
                            (path@, st),
                        )
                        &&& if prev.hash != hash@ {
                            r matches Some(e) && e.path@ == path@ && e.event_type@ == "modified"@
                                && e.timestamp == now && e.file_size == size && (
                            e.file_hash matches Some(h) && h@ == hash@)
                        } else {
                            r is None
                        }
                    },
                }
            }),
    {
        let ghost sv = old(self).spec_states();
        let found = self.find_state(path);
        match found {
            None => {
                proof {
                    if exists|i: int| 0 <= i < sv.len() && (#[trigger] sv[i].0) == path@ {
                        let i = choose|i: int| 0 <= i < sv.len() && (#[trigger] sv[i].0) == path@;
                        assert(sv[i].0 == path@);
                    }
                }
                let st = FileState { last_modified: modified, size, hash: hash.clone() };
                self.states.push((path.clone(), st));
                proof {
                    assert(self.spec_states() =~= sv.push(
                        (path@, FileStateView { last_modified: modified, size, hash: hash@ }),
                    ));
                    assert forall|i: int, j: int|
                        0 <= i < j < self.states@.len() implies (#[trigger] self.states@[i].0@)
                        != (#[trigger] self.states@[j].0@) by {
                        if j == self.states@.len() - 1 {
                            assert(sv[i].0 == self.states@[i].0@);
                            assert(self.states@[j].0@ == path@);
                        }
                    }
                }
                Some(
                    FileChangeEvent {
                        path: path.clone(),
                        event_type: String::from_str("created"),
                        timestamp: now,
                        file_size: size,
                        file_hash: Some(hash.clone()),
                    },
                )
            },
            Some(idx) => {
                proof {
                    lemma_state_pos(sv, path@, idx as int);
                }
                let changed = !self.states[idx].1.hash.eq(hash);
                proof {
                    assert(sv[idx as int].1.hash == self.states@[idx as int].1@.hash);
                }
                let st = FileState { last_modified: modified, size, hash: hash.clone() };
                let entry = self.states.remove(idx);
                self.states.insert(idx, (entry.0, st));
                proof {
                    assert(self.spec_states() =~= sv.update(
                        idx as int,
                        (path@, FileStateView { last_modified: modified, size, hash: hash@ }),
                    ));
                    assert(sv[idx as int].0 == path@);
                    assert forall|i: int, j: int|
                        0 <= i < j < self.states@.len() implies (#[trigger] self.states@[i].0@)
                        != (#[trigger] self.states@[j].0@) by {
                        assert(self.states@[i].0@ == sv[i].0);
                        assert(self.states@[j].0@ == sv[j].0);
                    }
                }
                if changed {
                    Some(
                        FileChangeEvent {
                            path: path.clone(),
                            event_type: String::from_str("modified"),
                            timestamp: now,
                            file_size: size,
                            file_hash: Some(hash.clone()),
                        },
                    )
                } else {
                    None
                }
            },
        }
    }
}

/// The position of `path` among tracked states (unique when well-formed).
pub open spec fn info_pos(states: Seq<(Seq<char>, FileStateView)>, path: Seq<char>) -> int {
    choose|i: int| 0 <= i < states.len() && states[i].0 == path
}

/// A found index is the position `info_pos` names, given distinct paths.
proof fn lemma_state_pos(states: Seq<(Seq<char>, FileStateView)>, path: Seq<char>, i: int)
    requires
        0 <= i < states.len(),
        states[i].0 == path,
        forall|a: int, b: int|
            0 <= a < b < states.len() ==> (#[trigger] states[a].0) != (#[trigger] states[b].0),
    ensures
        info_pos(states, path) == i,
        exists|k: int| 0 <= k < states.len() && states[k].0 == path,
{
    let j = info_pos(states, path);
    if i < j {
        assert(states[i].0 != states[j].0);
    } else if j < i {
        assert(states[j].0 != states[i].0);
    }
}

/// The events of the last second: push observed instants, prune the ones
/// that fell out.  Instants are milliseconds.
pub struct RateWindow {
    timestamps: Vec<u64>,
}

/// The timestamps left after pruning: every leading instant more than one
/// second older than `now` leaves, from the front only.
pub open spec fn pruned(ts: Seq<u64>, now: u64) -> Seq<u64>
    decreases ts.len(),
{
    if ts.len() == 0 {
        ts
    } else if ts[0] + 1000 < now {
        pruned(ts.skip(1), now)
    } else {
        ts
    }
}

impl RateWindow {
    pub closed spec fn spec_timestamps(self) -> Seq<u64> {
        self.timestamps@
    }

    pub fn new() -> (r: Self)
        ensures
            r.spec_timestamps() =~= Seq::<u64>::empty(),
    {
        RateWindow { timestamps: Vec::new() }
    }

    /// Records one instant.
    pub fn push(&mut self, now: u64)
        ensures
            final(self).spec_timestamps() == old(self).spec_timestamps().push(now),
    {
        self.timestamps.push(now);
    }

    /// Evicts every leading instant more than one second older than `now`.
    #[verifier::loop_isolation(false)]
    pub fn prune(&mut self, now: u64)
        ensures
            final(self).spec_timestamps() == pruned(old(self).spec_timestamps(), now),
    {
        let ghost orig = self.timestamps@;
        while self.timestamps.len() > 0 && now > 1000 && self.timestamps[0] < now - 1000
            invariant
                pruned(orig, now) == pruned(self.timestamps@, now),
            decreases self.timestamps@.len(),
        {
            let ghost before = self.timestamps@;
            self.timestamps.remove(0);
            proof {
                assert(self.timestamps@ =~= before.skip(1));
            }
        }
    }

    /// How many instants the window holds; over a one-second window this
    /// is the per-second rate.
    pub fn len(&self) -> (r: usize)
        ensures
            r == self.spec_timestamps().len(),
    {
        self.timestamps.len()
    }
}

} // verus!

//! The threat scoring engine: a sliding time window of recent file events,
//! and a multi-factor heuristic that turns a window snapshot into a score
//! and, at or above the fixed threshold of 70, an alert.

use vstd::prelude::*;

use crate::config::Config;
use crate::strutil::digit_char;
use crate::strutil::extension;
use crate::strutil::extension_of;
use crate::strutil::u64_dec;
use crate::strutil::u64_to_string;
use crate::strutil::vec_contains_string;

verus! {

/// What kind of change an event reports.
#[derive(Clone, Copy, Debug, PartialEq, Eq, Structural)]
pub enum FileEventType {
    Created,
    Modified,
    Deleted,
    Renamed,
}

/// One observed filesystem change; the timestamp is seconds since the
/// epoch.
#[derive(Debug)]
pub struct FileEvent {
    pub path: String,
    pub event_type: FileEventType,
    pub timestamp: u64,
}

/// The mathematical content of a `FileEvent`.
#[verifier::ext_equal]
pub struct EventView {
    pub path: Seq<char>,
    pub event_type: FileEventType,
    pub timestamp: u64,
}

impl View for FileEvent {
    type V = EventView;

    open spec fn view(&self) -> EventView {
        EventView { path: self.path@, event_type: self.event_type, timestamp: self.timestamp }
    }
}

impl Clone for FileEvent {
    fn clone(&self) -> (r: Self)
        ensures
            r@ == self@,
    {
        FileEvent {
            path: self.path.clone(),
            event_type: self.event_type,
            timestamp: self.timestamp,
        }
    }
}

/// A detection result: when and why the detector scored the window at or
/// above the alert threshold.
#[derive(Debug)]
pub struct ThreatAlert {
    pub timestamp: u64,
    pub score: u32,
    pub description: String,
    pub file_path: String,
    pub threat_type: String,
}

/// The mathematical content of a `ThreatAlert`.
#[verifier::ext_equal]
pub struct AlertView {
    pub timestamp: u64,
    pub score: u32,
    pub description: Seq<char>,
    pub file_path: Seq<char>,
    pub threat_type: Seq<char>,
}

impl View for ThreatAlert {
    type V = AlertView;

    open spec fn view(&self) -> AlertView {
        AlertView {
            timestamp: self.timestamp,
            score: self.score,
            description: self.description@,
            file_path: self.file_path@,
            threat_type: self.threat_type@,
        }
    }
}

impl Clone for ThreatAlert {
    fn clone(&self) -> (r: Self)
        ensures
            r@ == self@,
    {
        ThreatAlert {
            timestamp: self.timestamp,
            score: self.score,
            description: self.description.clone(),
            file_path: self.file_path.clone(),
            threat_type: self.threat_type.clone(),
        }
    }
}

/// The extension of a path with its leading dot, as the suspicious-
/// extension list writes them.
pub open spec fn ext_with_dot(path: Seq<char>) -> Option<Seq<char>> {
    match extension_of(path) {
        Some(e) => Some(seq!['.'] + e),
        None => None,
    }
}

/// Whether an event's path carries a suspicious extension.
pub open spec fn is_suspicious(e: EventView, sus: Seq<Seq<char>>) -> bool {
    match ext_with_dot(e.path) {
        Some(d) => sus.contains(d),
        None => false,
    }
}

/// How many events in the window carry a suspicious extension.
pub open spec fn suspicious_count(win: Seq<EventView>, sus: Seq<Seq<char>>) -> int
    decreases win.len(),
{
    if win.len() == 0 {
        0
    } else {
        suspicious_count(win.drop_last(), sus) + if is_suspicious(win.last(), sus) {
            1int
        } else {
            0int
        }
    }
}

/// How many events in the window have extension `x`.
pub open spec fn ext_count(win: Seq<EventView>, x: Seq<char>) -> int
    decreases win.len(),
{
    if win.len() == 0 {
        0
    } else {
        ext_count(win.drop_last(), x) + if extension_of(win.last().path) == Some(x) {
            1int
        } else {
            0int
        }
    }
}

/// The distinct extensions occurring in the window, in first-occurrence
/// order.
pub open spec fn distinct_exts(win: Seq<EventView>) -> Seq<Seq<char>>
    decreases win.len(),
{
    if win.len() == 0 {
        Seq::empty()
    } else {
        let p = distinct_exts(win.drop_last());
        match extension_of(win.last().path) {
            Some(x) => if p.contains(x) {
                p
            } else {
                p.push(x)
            },
            None => p,
        }
    }
}

/// How many of the given extensions occur more than three times in the
/// window.
pub open spec fn count_heavy(win: Seq<EventView>, exts: Seq<Seq<char>>) -> int
    decreases exts.len(),
{
    if exts.len() == 0 {
        0
    } else {
        count_heavy(win, exts.drop_last()) + if ext_count(win, exts.last()) > 3 {
            1int
        } else {
            0int
        }
    }
}

/// How many extensions occur more than three times in the window: the
/// mass-renaming heuristic.
pub open spec fn mass_rename_count(win: Seq<EventView>) -> int {
    count_heavy(win, distinct_exts(win))
}

/// +30 when the window holds more events than the rapid-change threshold.
pub open spec fn rapid_factor(win: Seq<EventView>, threshold: nat) -> int {
    if win.len() > threshold {
        30
    } else {
        0
    }
}

/// +20 when any event carries a suspicious extension.
pub open spec fn suspicious_factor(win: Seq<EventView>, sus: Seq<Seq<char>>) -> int {
    if suspicious_count(win, sus) > 0 {
        20
    } else {
        0
    }
}

/// +40 when the measured entropy (millibits per byte; absent when the file
/// could not be read) exceeds the threshold.
pub open spec fn entropy_factor(entropy: Option<u64>, threshold: u64) -> int {
    match entropy {
        Some(e) => if e > threshold {
            40
        } else {
            0
        },
        None => 0,
    }
}

/// +10 when more than five extensions each occur more than three times.
pub open spec fn rename_factor(win: Seq<EventView>) -> int {
    if mass_rename_count(win) > 5 {
        10
    } else {
        0
    }
}

/// The threat score of a window snapshot: the sum of the four factors.
pub open spec fn threat_score(
    win: Seq<EventView>,
    threshold: nat,
    sus: Seq<Seq<char>>,
    entropy: Option<u64>,
    ethreshold: u64,
) -> int {
    rapid_factor(win, threshold) + suspicious_factor(win, sus) + entropy_factor(entropy, ethreshold)
        + rename_factor(win)
}

pub open spec fn reason_rapid(n: int) -> Seq<char> {
    "Rapid file changes detected: "@ + u64_dec(n) + " files/min"@
}

pub open spec fn reason_suspicious(n: int) -> Seq<char> {
    "Suspicious extensions: "@ + u64_dec(n) + " files"@
}

pub open spec fn reason_entropy(e: int) -> Seq<char> {
    "High entropy detected: "@ + u64_dec(e / 1000) + seq!['.', digit_char((e % 1000) / 100), digit_char((e % 100) / 10)] + " bits/byte"@
}

pub open spec fn reason_rename(n: int) -> Seq<char> {
    "Mass file renaming: "@ + u64_dec(n) + " patterns"@
}

/// Appends a triggered reason to the description, separating reasons with
/// a semicolon.
pub open spec fn append_reason(acc: Seq<char>, r: Seq<char>) -> Seq<char> {
    if acc.len() == 0 {
        r
    } else {
        acc + "; "@ + r
    }
}

/// The alert description: the triggered reasons in factor order, joined by
/// semicolons.
pub open spec fn spec_description(
    win: Seq<EventView>,
    threshold: nat,
    sus: Seq<Seq<char>>,
    entropy: Option<u64>,
    ethreshold: u64,
) -> Seq<char> {
    let d0 = Seq::<char>::empty();
    let d1 = if rapid_factor(win, threshold) > 0 {
        append_reason(d0, reason_rapid(win.len() as int))
    } else {
        d0
    };
    let d2 = if suspicious_factor(win, sus) > 0 {
        append_reason(d1, reason_suspicious(suspicious_count(win, sus)))
    } else {
        d1
    };
    let d3 = match entropy {
        Some(e) => if e > ethreshold {
            append_reason(d2, reason_entropy(e as int))
        } else {
            d2
        },
        None => d2,
    };
    if rename_factor(win) > 0 {
        append_reason(d3, reason_rename(mass_rename_count(win)))
    } else {
        d3
    }
}

/// The window after eviction: every leading event older than the cutoff
/// leaves, from the front only.
pub open spec fn evict_old(win: Seq<EventView>, cutoff: int) -> Seq<EventView>
    decreases win.len(),
{
    if win.len() == 0 {
        win
    } else if (win[0].timestamp as int) < cutoff {
        evict_old(win.skip(1), cutoff)
    } else {
        win
    }
}

/// The eviction cutoff: events older than `now` minus the window length
/// leave.
pub open spec fn cutoff_time(now: u64, window: u64) -> int {
    if now >= window {
        now - window
    } else {
        0
    }
}

/// No window holds more suspicious events than events.
pub proof fn lemma_suspicious_count_bounds(win: Seq<EventView>, sus: Seq<Seq<char>>)
    ensures
        0 <= suspicious_count(win, sus) <= win.len(),
    decreases win.len(),
{
    if win.len() > 0 {
        lemma_suspicious_count_bounds(win.drop_last(), sus);
    }
}

/// The sliding-window detector: the recent events, the configuration it
/// scores against, and a running count of processed events.
pub struct ThreatDetector {
    config: Config,
    event_window: Vec<FileEvent>,
    files_monitored: usize,
}

impl ThreatDetector {
    /// The current window snapshot, oldest first.
    pub closed spec fn spec_window(self) -> Seq<EventView> {
        Seq::new(self.event_window@.len(), |i: int| self.event_window@[i]@)
    }

    pub closed spec fn spec_rapid_threshold(self) -> nat {
        self.config.detection.rapid_change_threshold as nat
    }

    pub closed spec fn spec_suspicious(self) -> Seq<Seq<char>> {
        self.config.detection.suspicious_extensions.deep_view()
    }

    pub closed spec fn spec_entropy_threshold(self) -> u64 {
        self.config.detection.entropy_threshold_millibits
    }

    pub closed spec fn spec_window_seconds(self) -> u64 {
        self.config.detection.time_window_seconds
    }

    pub closed spec fn spec_files_monitored(self) -> nat {
        self.files_monitored as nat
    }

    /// The detector's settings, unchanged by event processing.
    pub open spec fn same_settings(self, other: ThreatDetector) -> bool {
        &&& self.spec_rapid_threshold() == other.spec_rapid_threshold()
        &&& self.spec_suspicious() == other.spec_suspicious()
        &&& self.spec_entropy_threshold() == other.spec_entropy_threshold()
        &&& self.spec_window_seconds() == other.spec_window_seconds()
    }

    pub fn new(config: Config) -> (r: Self)
        ensures
            r.spec_window() =~= Seq::<EventView>::empty(),
            r.spec_files_monitored() == 0,
            r.spec_rapid_threshold() == config.detection.rapid_change_threshold,
            r.spec_suspicious() == config.detection.suspicious_extensions.deep_view(),
            r.spec_entropy_threshold() == config.detection.entropy_threshold_millibits,
            r.spec_window_seconds() == config.detection.time_window_seconds,
    {
        ThreatDetector { config, event_window: Vec::new(), files_monitored: 0 }
    }

    /// Admits one event observed at `now`: appends it to the window and
    /// evicts every leading event older than the window cutoff.
    #[verifier::loop_isolation(false)]
    pub fn process_event(&mut self, event: &FileEvent, now: u64)
        requires
            old(self).spec_files_monitored() < usize::MAX,
        ensures
            old(self).same_settings(*final(self)),
            final(self).spec_files_monitored() == old(self).spec_files_monitored() + 1,
            final(self).spec_window() == evict_old(
                old(self).spec_window().push(event@),
                cutoff_time(now, old(self).spec_window_seconds()),
            ),
    {
        self.event_window.push(event.clone());
        self.files_monitored = self.files_monitored + 1;
        let ghost pushed = self.spec_window();
        proof {
            assert(pushed =~= old(self).spec_window().push(event@));
        }
        let w = self.config.detection.time_window_seconds;
        let cutoff: u64 = if now >= w {
            now - w
        } else {
            0
        };
        proof {
            assert(cutoff == cutoff_time(now, w));
        }
        while self.event_window.len() > 0 && self.event_window[0].timestamp < cutoff
            invariant
                self.config == old(self).config,
                self.files_monitored == old(self).files_monitored + 1,
                evict_old(pushed, cutoff as int) == evict_old(self.spec_window(), cutoff as int),
            decreases self.event_window@.len(),
        {
            let ghost before = self.spec_window();
            proof {
                assert(before[0].timestamp == self.event_window@[0]@.timestamp);
            }
            self.event_window.remove(0);
            proof {
                assert(self.spec_window() =~= before.skip(1));
            }
        }
        proof {
            let cur = self.spec_window();
            if cur.len() > 0 {
                assert(cur[0].timestamp == self.event_window@[0]@.timestamp);
                assert(!((cur[0].timestamp as int) < cutoff as int));
            }
            assert(evict_old(cur, cutoff as int) == cur);
        }
    }

    pub fn files_monitored(&self) -> (r: usize)
        ensures
            r == self.spec_files_monitored(),
    {
        self.files_monitored
    }

    /// How many windowed events carry a suspicious extension.
    #[verifier::loop_isolation(false)]
    fn count_suspicious(&self) -> (r: usize)
        ensures
            r == suspicious_count(self.spec_window(), self.spec_suspicious()),
    {
        let ghost win = self.spec_window();
        let ghost sus = self.spec_suspicious();
        let mut count: usize = 0;
        let mut t: usize = 0;
        proof {
            assert(win.take(0) =~= Seq::<EventView>::empty());
        }
        while t < self.event_window.len()
            invariant
                t <= win.len(),
                count == suspicious_count(win.take(t as int), sus),
                count <= t,
            decreases win.len() - t,
        {
            let ghost e = win[t as int];
            proof {
                assert(e == self.event_window@[t as int]@);
                assert(win.take(t + 1).drop_last() =~= win.take(t as int));
                assert(win.take(t + 1).last() == e);
            }
            let hit: bool = match extension(self.event_window[t].path.as_str()) {
                Some(ext) => {
                    let mut dotted = String::from_str(".");
                    dotted.append(ext.as_str());
                    proof {
                        reveal_strlit(".");
                        assert(dotted@ =~= seq!['.'] + ext@);
                        assert(ext_with_dot(e.path) == Some(dotted@));
                    }
                    vec_contains_string(&self.config.detection.suspicious_extensions, &dotted)
                },
                None => false,
            };
            proof {
                assert(hit == is_suspicious(e, sus));
            }
            if hit {
                count = count + 1;
            }
            t = t + 1;
        }
        proof {
            assert(win.take(t as int) =~= win);
        }
        count
    }

    /// The mass-renaming heuristic: how many extensions occur more than
    /// three times among the windowed events.
    #[verifier::loop_isolation(false)]
    fn detect_mass_rename(&self) -> (r: usize)
        ensures
            r == mass_rename_count(self.spec_window()),
    {
        let ghost win = self.spec_window();
        let mut hist: Vec<(String, u64)> = Vec::new();
        let mut t: usize = 0;
        proof {
            assert(win.take(0) =~= Seq::<EventView>::empty());
            assert(hist_keys(hist@) =~= distinct_exts(win.take(0)));
        }
        while t < self.event_window.len()
            invariant
                t <= win.len(),
                hist_keys(hist@) =~= distinct_exts(win.take(t as int)),
                forall|k: int|
                    0 <= k < hist@.len() ==> ((#[trigger] hist@[k]).1 as int) == ext_count(
                        win.take(t as int),
                        hist@[k].0@,
                    ),
                forall|k: int| 0 <= k < hist@.len() ==> ((#[trigger] hist@[k]).1 as int) <= t,
                forall|k1: int, k2: int|
                    0 <= k1 < k2 < hist@.len() ==> (#[trigger] hist@[k1].0@) != (
                    #[trigger] hist@[k2].0@),
            decreases win.len() - t,
        {
            let ghost e = win[t as int];
            let ghost prevh = hist@;
            proof {
                assert(e == self.event_window@[t as int]@);
                assert(win.take(t + 1).drop_last() =~= win.take(t as int));
                assert(win.take(t + 1).last() == e);
            }
            match extension(self.event_window[t].path.as_str()) {
                None => {
                    proof {
                        assert(distinct_exts(win.take(t + 1)) == distinct_exts(win.take(t as int)));
                        assert forall|k: int| 0 <= k < hist@.len() implies ((#[trigger] hist@[k]).1
                            as int) == ext_count(win.take(t + 1), hist@[k].0@) by {
                            assert(ext_count(win.take(t + 1), hist@[k].0@) == ext_count(
                                win.take(t as int),
                                hist@[k].0@,
                            ));
                        }
                    }
                },
                Some(x) => {
                    let mut j: usize = 0;
                    let mut found = false;
                    while j < hist.len() && !found
                        invariant
                            j <= hist@.len(),
                            hist@ == prevh,
                            !found ==> forall|k: int| 0 <= k < j ==> (#[trigger] hist@[k].0@) != x@,
                            found ==> j < hist@.len() && hist@[j as int].0@ == x@,
                        decreases hist@.len() - j + (if found {
                            0int
                        } else {
                            1int
                        }),
                    {
                        let hit = hist[j].0.eq(&x);
                        if hit {
                            found = true;
                        } else {
                            j = j + 1;
                        }
                    }
                    proof {
                        assert(extension_of(e.path) == Some(x@));
                        if found {
                            assert(hist_keys(prevh)[j as int] == x@);
                            assert(distinct_exts(win.take(t as int)).contains(x@));
                            assert(distinct_exts(win.take(t + 1)) == distinct_exts(
                                win.take(t as int),
                            ));
                        } else {
                            assert forall|k: int| 0 <= k < prevh.len() implies (
                            #[trigger] hist_keys(prevh)[k]) != x@ by {
                                assert(prevh[k].0@ != x@);
                            }
                            if distinct_exts(win.take(t as int)).contains(x@) {
                                let k = choose|k: int|
                                    0 <= k < distinct_exts(win.take(t as int)).len()
                                        && distinct_exts(win.take(t as int))[k] == x@;
                                assert(hist_keys(prevh)[k] == x@);
                            }
                            assert(!distinct_exts(win.take(t as int)).contains(x@));
                            assert(distinct_exts(win.take(t + 1)) == distinct_exts(
                                win.take(t as int),
                            ).push(x@));
                        }
                    }
                    if found {
                        let entry = hist.remove(j);
                        let count = entry.1;
                        proof {
                            assert((count as int) <= t);
                            assert(t < usize::MAX ==> count < u64::MAX);
                            assert(count < u64::MAX);
                        }
                        hist.insert(j, (entry.0, count + 1));
                        proof {
                            assert(hist@ =~= prevh.update(j as int, (prevh[j as int].0, (count
                                + 1) as u64)));
                            assert(hist_keys(hist@) =~= hist_keys(prevh));
                            assert forall|k: int| 0 <= k < hist@.len() implies ((
                            #[trigger] hist@[k]).1 as int) == ext_count(
                                win.take(t + 1),
                                hist@[k].0@,
                            ) by {
                                if k == j {
                                    assert(hist@[k].0@ == x@);
                                    assert(ext_count(win.take(t + 1), x@) == ext_count(
                                        win.take(t as int),
                                        x@,
                                    ) + 1);
                                } else {
                                    assert(hist@[k] == prevh[k]);
                                    assert(hist@[k].0@ != x@);
                                    assert(ext_count(win.take(t + 1), hist@[k].0@) == ext_count(
                                        win.take(t as int),
                                        hist@[k].0@,
                                    ));
                                }
                            }
                        }
                    } else {
                        hist.push((x, 1));
                        proof {
                            assert(hist@ =~= prevh.push((x, 1u64)));
                            assert(hist_keys(hist@) =~= hist_keys(prevh).push(x@));
                            lemma_ext_count_new_key(win.take(t as int), x@, hist_keys(prevh));
                            assert forall|k: int| 0 <= k < hist@.len() implies ((
                            #[trigger] hist@[k]).1 as int) == ext_count(
                                win.take(t + 1),
                                hist@[k].0@,
                            ) by {
                                if k == hist@.len() - 1 {
                                    assert(hist@[k].0@ == x@);
                                    assert(ext_count(win.take(t + 1), x@) == ext_count(
                                        win.take(t as int),
                                        x@,
                                    ) + 1);
                                    assert(ext_count(win.take(t as int), x@) == 0);
                                } else {
                                    assert(hist@[k] == prevh[k]);
                                    assert(hist@[k].0@ != x@);
                                    assert(ext_count(win.take(t + 1), hist@[k].0@) == ext_count(
                                        win.take(t as int),
                                        hist@[k].0@,
                                    ));
                                }
                            }
                        }
                    }
                },
            }
            t = t + 1;
        }
        proof {
            assert(win.take(t as int) =~= win);
        }
        let ghost keys = hist_keys(hist@);
        let mut acc: usize = 0;
        let mut k: usize = 0;
        proof {
            assert(keys.take(0) =~= Seq::<Seq<char>>::empty());
        }
        while k < hist.len()
            invariant
                k <= hist@.len(),
                keys == hist_keys(hist@),
                acc == count_heavy(win, keys.take(k as int)),
                acc <= k,
            decreases hist@.len() - k,
        {
            proof {
                assert(keys.take(k + 1).drop_last() =~= keys.take(k as int));
                assert(keys.take(k + 1).last() == keys[k as int]);
                assert(keys[k as int] == hist@[k as int].0@);
            }
            if hist[k].1 > 3 {
                acc = acc + 1;
            }
            k = k + 1;
        }
        proof {
            assert(keys.take(k as int) =~= keys);
        }
        acc
    }

    /// Scores the current window snapshot and, at a total of 70 or more,
    /// emits an alert carrying the score, the triggered reasons, the most
    /// recent event's path and the fixed threat label.  `entropy_millibits`
    /// is the measured entropy of the most recent event's file, absent when
    /// that file could not be read; it degrades that factor to zero.  The
    /// function reads the snapshot alone: it mutates nothing, and equal
    /// snapshots score equally.
    pub fn check_threat(&self, now: u64, entropy_millibits: Option<u64>) -> (r: Option<ThreatAlert>)
        ensures
            ({
                let win = self.spec_window();
                let score = threat_score(
                    win,
                    self.spec_rapid_threshold(),
                    self.spec_suspicious(),
                    entropy_millibits,
                    self.spec_entropy_threshold(),
                );
                match r {
                    Some(a) => score >= 70 && win.len() > 0 && a@.score == score && a@.timestamp
                        == now && a@.file_path == win.last().path && a@.threat_type == "Ransomware"@
                        && a@.description == spec_description(
                        win,
                        self.spec_rapid_threshold(),
                        self.spec_suspicious(),
                        entropy_millibits,
                        self.spec_entropy_threshold(),
                    ),
                    None => score < 70 || win.len() == 0,
                }
            }),
    {
        let (score, description) = self.current_threat_score(entropy_millibits);
        let n = self.event_window.len();
        if score >= 70 {
            if n == 0 {
                return None;
            }
            let last = &self.event_window[n - 1];
            proof {
                assert(last@ == self.spec_window().last());
            }
            Some(
                ThreatAlert {
                    timestamp: now,
                    score,
                    description,
                    file_path: last.path.clone(),
                    threat_type: String::from_str("Ransomware"),
                },
            )
        } else {
            None
        }
    }

    /// The score the current window snapshot earns, with the triggered
    /// reasons as one text — also below the alert threshold, for status
    /// reporting.
    pub fn current_threat_score(&self, entropy_millibits: Option<u64>) -> (r: (u32, String))
        ensures
            r.0 == threat_score(
                self.spec_window(),
                self.spec_rapid_threshold(),
                self.spec_suspicious(),
                entropy_millibits,
                self.spec_entropy_threshold(),
            ),
            r.1@ == spec_description(
                self.spec_window(),
                self.spec_rapid_threshold(),
                self.spec_suspicious(),
                entropy_millibits,
                self.spec_entropy_threshold(),
            ),
    {
        let ghost win = self.spec_window();
        let ghost threshold = self.spec_rapid_threshold();
        let ghost sus = self.spec_suspicious();
        let ghost ethreshold = self.spec_entropy_threshold();
        let mut score: u32 = 0;
        let mut description = String::new();

        let n = self.event_window.len();
        if n > self.config.detection.rapid_change_threshold {
            score = score + 30;
            let mut reason = String::from_str("Rapid file changes detected: ");
            reason.append(u64_to_string(n as u64).as_str());
            reason.append(" files/min");
            description = append_reason_exec(description, reason);
            proof {
                assert(description@ =~= reason_rapid(win.len() as int));
            }
        }

        let sc = self.count_suspicious();
        proof {
            lemma_suspicious_count_bounds(win, sus);
        }
        if sc > 0 {
            score = score + 20;
            let mut reason = String::from_str("Suspicious extensions: ");
            reason.append(u64_to_string(sc as u64).as_str());
            reason.append(" files");
            description = append_reason_exec(description, reason);
        }

        if let Some(e) = entropy_millibits {
            if e > self.config.detection.entropy_threshold_millibits {
                score = score + 40;
                let mut reason = String::from_str("High entropy detected: ");
                reason.append(u64_to_string(e / 1000).as_str());
                reason.append(".");
                reason.append(digit_str_pub((e % 1000) / 100));
                reason.append(digit_str_pub((e % 100) / 10));
                reason.append(" bits/byte");
                proof {
                    reveal_strlit(".");
                    assert(reason@ =~= reason_entropy(e as int));
                }
                description = append_reason_exec(description, reason);
            }
        }

        let rn = self.detect_mass_rename();
        if rn > 5 {
            score = score + 10;
            let mut reason = String::from_str("Mass file renaming: ");
            reason.append(u64_to_string(rn as u64).as_str());
            reason.append(" patterns");
            description = append_reason_exec(description, reason);
        }

        proof {
            assert(score == threat_score(win, threshold, sus, entropy_millibits, ethreshold));
            assert(description@ == spec_description(
                win,
                threshold,
                sus,
                entropy_millibits,
                ethreshold,
            ));
        }
        (score, description)
    }
}

/// How often byte value `b` occurs in `data`.
pub open spec fn count_byte(data: Seq<u8>, b: u8) -> int
    decreases data.len(),
{
    if data.len() == 0 {
        0
    } else {
        count_byte(data.drop_last(), b) + if data.last() == b {
            1int
        } else {
            0int
        }
    }
}

/// The byte-value histogram the entropy factor is computed from: 256
/// counters, one per byte value.  The entropy formula itself works on real
/// numbers and lives with the caller; the counting is exact here.
#[verifier::loop_isolation(false)]
pub fn byte_histogram(data: &Vec<u8>) -> (r: Vec<u64>)
    requires
        data@.len() <= u64::MAX,
    ensures
        r@.len() == 256,
        forall|b: int| 0 <= b < 256 ==> (#[trigger] r@[b]) as int == count_byte(data@, b as u8),
{
    let mut r: Vec<u64> = Vec::new();
    let mut k: usize = 0;
    while k < 256
        invariant
            k <= 256,
            r@.len() == k,
            forall|b: int| 0 <= b < k ==> (#[trigger] r@[b]) == 0,
        decreases 256 - k,
    {
        r.push(0);
        k = k + 1;
    }
    proof {
        assert forall|b: int| 0 <= b < 256 implies (#[trigger] r@[b]) as int == count_byte(
            data@.take(0),
            b as u8,
        ) by {
            assert(data@.take(0) =~= Seq::<u8>::empty());
        }
    }
    let mut t: usize = 0;
    while t < data.len()
        invariant
            t <= data@.len(),
            r@.len() == 256,
            forall|b: int|
                0 <= b < 256 ==> (#[trigger] r@[b]) as int == count_byte(data@.take(t as int), b as u8),
            forall|b: int| 0 <= b < 256 ==> (#[trigger] r@[b]) as int <= t,
        decreases data@.len() - t,
    {
        let byte = data[t];
        let idx = byte as usize;
        let ghost before = r@;
        let cur = r[idx];
        r.set(idx, cur + 1);
        proof {
            assert forall|b: int| 0 <= b < 256 implies (#[trigger] r@[b]) as int == count_byte(
                data@.take(t + 1),
                b as u8,
            ) by {
                assert(data@.take(t + 1).drop_last() =~= data@.take(t as int));
                assert(data@.take(t + 1).last() == data@[t as int]);
                if b == idx {
                    assert(r@[b] == before[b] + 1);
                } else {
                    assert(r@[b] == before[b]);
                }
            }
        }
        t = t + 1;
    }
    proof {
        assert(data@.take(t as int) =~= data@);
    }
    r
}

/// The key strings a histogram holds, in order.
pub open spec fn hist_keys(h: Seq<(String, u64)>) -> Seq<Seq<char>> {
    Seq::new(h.len(), |i: int| h[i].0@)
}

/// An extension outside the histogram keys occurs zero times in the
/// window the histogram summarizes.
proof fn lemma_ext_count_new_key(win: Seq<EventView>, x: Seq<char>, keys: Seq<Seq<char>>)
    requires
        keys =~= distinct_exts(win),
        !distinct_exts(win).contains(x),
    ensures
        ext_count(win, x) == 0,
    decreases win.len(),
{
    if win.len() > 0 {
        let p = distinct_exts(win.drop_last());
        assert forall|y: Seq<char>| p.contains(y) implies distinct_exts(win).contains(y) by {
            let k = choose|k: int| 0 <= k < p.len() && p[k] == y;
            match extension_of(win.last().path) {
                Some(z) => {
                    if p.contains(z) {
                        assert(distinct_exts(win)[k] == y);
                    } else {
                        assert(distinct_exts(win)[k] == y);
                    }
                },
                None => {
                    assert(distinct_exts(win)[k] == y);
                },
            }
        }
        lemma_ext_count_new_key(win.drop_last(), x, distinct_exts(win.drop_last()));
        match extension_of(win.last().path) {
            Some(z) => {
                if z == x {
                    if p.contains(x) {
                        assert(distinct_exts(win).contains(x));
                    } else {
                        assert(distinct_exts(win).last() == x);
                        assert(distinct_exts(win).contains(x));
                    }
                    assert(false);
                }
            },
            None => {},
        }
    }
}

/// Joins a freshly built reason onto the running description.
fn append_reason_exec(acc: String, reason: String) -> (r: String)
    ensures
        r@ == append_reason(acc@, reason@),
{
    if acc.as_str().unicode_len() == 0 {
        proof {
            assert(acc@.len() == 0);
        }
        reason
    } else {
        let mut out = acc;
        out.append("; ");
        out.append(reason.as_str());
        proof {
            reveal_strlit("; ");
        }
        out
    }
}

/// A single digit as text.
fn digit_str_pub(d: u64) -> (r: &'static str)
    requires
        d < 10,
    ensures
        r@ =~= seq![digit_char(d as int)],
{
    proof {
        reveal_strlit("0");
        reveal_strlit("1");
        reveal_strlit("2");
        reveal_strlit("3");
        reveal_strlit("4");
        reveal_strlit("5");
        reveal_strlit("6");
        reveal_strlit("7");
        reveal_strlit("8");
        reveal_strlit("9");
    }
    match d {
        0 => "0",
        1 => "1",
        2 => "2",
        3 => "3",
        4 => "4",
        5 => "5",
        6 => "6",
        7 => "7",
        8 => "8",
        _ => "9",
    }
}

/// With more events than the rapid-change threshold but no suspicious
/// extension, no entropy reading and no mass renaming, the score is the
/// rapid-change factor alone, exactly 30 — below the alert threshold of
/// 70, so no alert fires.
pub proof fn lemma_rapid_alone_scores_thirty(
    win: Seq<EventView>,
    threshold: nat,
    sus: Seq<Seq<char>>,
    ethreshold: u64,
)
    requires
        win.len() > threshold,
        suspicious_count(win, sus) == 0,
        mass_rename_count(win) <= 5,
    ensures
        threat_score(win, threshold, sus, None, ethreshold) == 30,
        threat_score(win, threshold, sus, None, ethreshold) < 70,
{
}

/// Rapid changes, a suspicious extension and an entropy reading above
/// threshold together score 90, past the alert threshold of 70; the alert
/// description carries all three reasons, in factor order.
pub proof fn lemma_three_factors_fire(
    win: Seq<EventView>,
    threshold: nat,
    sus: Seq<Seq<char>>,
    e: u64,
    ethreshold: u64,
)
    requires
        win.len() > threshold,
        suspicious_count(win, sus) > 0,
        e > ethreshold,
        mass_rename_count(win) <= 5,
    ensures
        threat_score(win, threshold, sus, Some(e), ethreshold) == 90,
        threat_score(win, threshold, sus, Some(e), ethreshold) >= 70,
        spec_description(win, threshold, sus, Some(e), ethreshold) =~= reason_rapid(
            win.len() as int,
        ) + "; "@ + reason_suspicious(suspicious_count(win, sus)) + "; "@ + reason_entropy(
            e as int,
        ),
{
    let d1 = reason_rapid(win.len() as int);
    let d2 = append_reason(d1, reason_suspicious(suspicious_count(win, sus)));
    let d3 = append_reason(d2, reason_entropy(e as int));
    assert(d1.len() > 0);
    assert(d2.len() > 0);
    assert(d3 =~= d1 + "; "@ + reason_suspicious(suspicious_count(win, sus)) + "; "@
        + reason_entropy(e as int));
}

} // verus!

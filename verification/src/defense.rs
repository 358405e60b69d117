//! The defense engine: the isolated-write discipline that redirects writes
//! away from protected files during an attack, the modified-since
//! selection of the mirror backup engine, and the action a threat score
//! calls for.  Copying files and creating directories are I/O and stay
//! outside; the decisions live here.

use vstd::prelude::*;

use crate::monitor::FileSystemMonitor;
use crate::strutil::u64_dec;
use crate::strutil::u64_to_string;

verus! {

/// The outcome of one mirror backup run, as reported to operators.
#[derive(Debug)]
pub struct BackupResult {
    pub success: bool,
    pub files_backed_up: usize,
    pub total_bytes: u64,
    pub duration_ms: u64,
    pub backup_path: String,
    pub error_message: Option<String>,
}

/// The outcome of one defense action.
#[derive(Debug)]
pub struct DefenseActionResult {
    pub action_type: String,
    pub success: bool,
    pub duration_ms: u64,
    pub protected_files: usize,
    pub error_message: Option<String>,
}

/// One redirected write: where the write was aimed, where it landed, when,
/// and how many bytes.
#[derive(Debug)]
pub struct WriteOperation {
    pub original_path: String,
    pub redirected_path: String,
    pub timestamp: u64,
    pub data_size: u64,
}

/// The mathematical content of a `WriteOperation`.
#[verifier::ext_equal]
pub struct WriteOpView {
    pub original_path: Seq<char>,
    pub redirected_path: Seq<char>,
    pub timestamp: u64,
    pub data_size: u64,
}

impl View for WriteOperation {
    type V = WriteOpView;

    open spec fn view(&self) -> WriteOpView {
        WriteOpView {
            original_path: self.original_path@,
            redirected_path: self.redirected_path@,
            timestamp: self.timestamp,
            data_size: self.data_size,
        }
    }
}

impl Clone for WriteOperation {
    fn clone(&self) -> (r: Self)
        ensures
            r@ == self@,
    {
        WriteOperation {
            original_path: self.original_path.clone(),
            redirected_path: self.redirected_path.clone(),
            timestamp: self.timestamp,
            data_size: self.data_size,
        }
    }
}

/// Why a write could not be redirected.
#[derive(Clone, Copy, Debug, PartialEq, Eq, Structural)]
pub enum IsolationError {
    /// Isolation mode is not active.
    NotActive,
}

/// The path relative to `dir`, when `path` lies under it; otherwise the
/// path unchanged.
pub open spec fn strip_dir_prefix(path: Seq<char>, dir: Seq<char>) -> Seq<char> {
    if path.len() > dir.len() && path.take(dir.len() as int) == dir && path[dir.len() as int]
        == '/' {
        path.skip(dir.len() as int + 1)
    } else {
        path
    }
}

/// Where a redirected write lands: under the clean-log directory, named by
/// the timestamp and the path relative to the protected directory.
pub open spec fn redirect_target(
    clean_log_dir: Seq<char>,
    protected_dir: Seq<char>,
    path: Seq<char>,
    timestamp: u64,
) -> Seq<char> {
    clean_log_dir + seq!['/'] + u64_dec(timestamp as int) + seq!['_'] + strip_dir_prefix(
        path,
        protected_dir,
    )
}

/// Strips `dir` (and its separator) off the front of `path` when `path`
/// lies under it.
pub fn strip_prefix_dir(path: &String, dir: &String) -> (r: String)
    ensures
        r@ == strip_dir_prefix(path@, dir@),
{
    let plen = path.as_str().unicode_len();
    let dlen = dir.as_str().unicode_len();
    if plen <= dlen {
        return path.clone();
    }
    let mut i: usize = 0;
    while i < dlen
        invariant
            i <= dlen,
            dlen < plen,
            plen == path@.len(),
            dlen == dir@.len(),
            forall|j: int| 0 <= j < i ==> path@[j] == dir@[j],
        decreases dlen - i,
    {
        let pc = path.as_str().get_char(i);
        let dc = dir.as_str().get_char(i);
        if pc != dc {
            proof {
                assert(path@[i as int] != dir@[i as int]);
                assert(path@.take(dlen as int)[i as int] != dir@[i as int]);
            }
            return path.clone();
        }
        i = i + 1;
    }
    proof {
        assert(path@.take(dlen as int) =~= dir@);
    }
    let sep = path.as_str().get_char(dlen);
    if sep != '/' {
        return path.clone();
    }
    let rest = path.as_str().substring_char(dlen + 1, plen).to_owned();
    proof {
        assert(rest@ =~= path@.skip(dlen + 1));
    }
    rest
}

/// The isolated-write channel: while active, writes aimed at the protected
/// directory are redirected into the clean-log directory and recorded, so
/// they can be replayed once the attack is over.
pub struct IsolatedWriteManager {
    protected_dir: String,
    clean_log_dir: String,
    is_isolation_active: bool,
    write_log: Vec<WriteOperation>,
}

impl IsolatedWriteManager {
    pub closed spec fn spec_protected_dir(self) -> Seq<char> {
        self.protected_dir@
    }

    pub closed spec fn spec_clean_log_dir(self) -> Seq<char> {
        self.clean_log_dir@
    }

    pub closed spec fn spec_active(self) -> bool {
        self.is_isolation_active
    }

    pub closed spec fn spec_log(self) -> Seq<WriteOpView> {
        Seq::new(self.write_log@.len(), |i: int| self.write_log@[i]@)
    }

    pub fn new(protected_dir: String, clean_log_dir: String) -> (r: Self)
        ensures
            r.spec_protected_dir() == protected_dir@,
            r.spec_clean_log_dir() == clean_log_dir@,
            !r.spec_active(),
            r.spec_log() =~= Seq::<WriteOpView>::empty(),
    {
        IsolatedWriteManager {
            protected_dir,
            clean_log_dir,
            is_isolation_active: false,
            write_log: Vec::new(),
        }
    }

    /// Turns isolation on; redirected writes are accepted from here on.
    pub fn activate_isolation(&mut self)
        ensures
            final(self).spec_active(),
            final(self).spec_protected_dir() == old(self).spec_protected_dir(),
            final(self).spec_clean_log_dir() == old(self).spec_clean_log_dir(),
            final(self).spec_log() == old(self).spec_log(),
    {
        self.is_isolation_active = true;
    }

    /// Turns isolation off; the log is kept for replay.
    pub fn deactivate_isolation(&mut self)
        ensures
            !final(self).spec_active(),
            final(self).spec_protected_dir() == old(self).spec_protected_dir(),
            final(self).spec_clean_log_dir() == old(self).spec_clean_log_dir(),
            final(self).spec_log() == old(self).spec_log(),
    {
        self.is_isolation_active = false;
    }

    pub fn is_active(&self) -> (r: bool)
        ensures
            r == self.spec_active(),
    {
        self.is_isolation_active
    }

    /// Plans the redirection of one write of `data_size` bytes aimed at
    /// `original_path`: fails unless isolation is active; otherwise
    /// computes the clean-log target, records the operation, and returns
    /// it for the caller to perform.
    pub fn redirect_write(&mut self, original_path: &String, data_size: u64, timestamp: u64) -> (r:
        Result<WriteOperation, IsolationError>)
        ensures
            final(self).spec_active() == old(self).spec_active(),
            final(self).spec_protected_dir() == old(self).spec_protected_dir(),
            final(self).spec_clean_log_dir() == old(self).spec_clean_log_dir(),
            ({
                let target = redirect_target(
                    old(self).spec_clean_log_dir(),
                    old(self).spec_protected_dir(),
                    original_path@,
                    timestamp,
                );
                let log0 = old(self).spec_log();
                let log1 = final(self).spec_log();
                match r {
                    Ok(op) => old(self).spec_active() && op.original_path@ == original_path@
                        && op.redirected_path@ == target && op.timestamp == timestamp
                        && op.data_size == data_size && log1 =~= log0.push(op@),
                    Err(e) => e == IsolationError::NotActive && !old(self).spec_active() && log1
                        == log0,
                }
            }),
    {
        if !self.is_isolation_active {
            return Err(IsolationError::NotActive);
        }
        let relative = strip_prefix_dir(original_path, &self.protected_dir);
        let mut redirected = self.clean_log_dir.clone();
        redirected.append("/");
        redirected.append(u64_to_string(timestamp).as_str());
        redirected.append("_");
        redirected.append(relative.as_str());
        proof {
            reveal_strlit("/");
            reveal_strlit("_");
            assert("/"@ =~= seq!['/']);
            assert("_"@ =~= seq!['_']);
            assert(redirected@ =~= redirect_target(
                self.clean_log_dir@,
                self.protected_dir@,
                original_path@,
                timestamp,
            ));
        }
        let op = WriteOperation {
            original_path: original_path.clone(),
            redirected_path: redirected,
            timestamp,
            data_size,
        };
        let ghost before = self.spec_log();
        let copy = op.clone();
        self.write_log.push(copy);
        proof {
            assert(self.spec_log() =~= before.push(op@));
        }
        Ok(op)
    }

    /// The recorded redirected writes, oldest first, for replay onto the
    /// protected paths.
    pub fn get_write_log(&self) -> (r: Vec<WriteOperation>)
        ensures
            r@.len() == self.spec_log().len(),
            forall|i: int| 0 <= i < r@.len() ==> (#[trigger] r@[i])@ == self.spec_log()[i],
    {
        let mut r: Vec<WriteOperation> = Vec::new();
        let mut i: usize = 0;
        while i < self.write_log.len()
            invariant
                i <= self.write_log@.len(),
                r@.len() == i,
                forall|j: int| 0 <= j < i ==> (#[trigger] r@[j])@ == self.spec_log()[j],
            decreases self.write_log@.len() - i,
        {
            let c = self.write_log[i].clone();
            proof {
                assert(c@ == self.spec_log()[i as int]);
            }
            r.push(c);
            i = i + 1;
        }
        r
    }
}

/// Whether a file modified at `modified` needs backing up, given when the
/// last mirror run finished: everything qualifies before the first run.
pub open spec fn should_select(modified: u64, last: Option<u64>) -> bool {
    match last {
        None => true,
        Some(t) => modified > t,
    }
}

/// The paths among `files` (path, modification time) that qualify, in
/// order.
pub open spec fn selected_files(files: Seq<(Seq<char>, u64)>, last: Option<u64>) -> Seq<Seq<char>>
    decreases files.len(),
{
    if files.len() == 0 {
        Seq::empty()
    } else {
        let p = selected_files(files.drop_last(), last);
        if should_select(files.last().1, last) {
            p.push(files.last().0)
        } else {
            p
        }
    }
}

/// The (path, modification time) pairs a file listing denotes.
pub open spec fn listing_view(files: Seq<(String, u64)>) -> Seq<(Seq<char>, u64)> {
    Seq::new(files.len(), |i: int| (files[i].0@, files[i].1))
}

/// The mirror backup engine: copies changed files of a source directory
/// into timestamped backup directories.  The copying is I/O; what to copy
/// and where is decided here.
pub struct IncrementalBackupEngine {
    source_dir: String,
    backup_dir: String,
    last_backup_time: Option<u64>,
}

impl IncrementalBackupEngine {
    pub closed spec fn spec_source_dir(self) -> Seq<char> {
        self.source_dir@
    }

    pub closed spec fn spec_backup_dir(self) -> Seq<char> {
        self.backup_dir@
    }

    pub closed spec fn spec_last_backup_time(self) -> Option<u64> {
        self.last_backup_time
    }

    pub fn new(source_dir: String, backup_dir: String) -> (r: Self)
        ensures
            r.spec_source_dir() == source_dir@,
            r.spec_backup_dir() == backup_dir@,
            r.spec_last_backup_time() is None,
    {
        IncrementalBackupEngine { source_dir, backup_dir, last_backup_time: None }
    }

    /// The files a mirror run must copy: those modified after the last
    /// run, or all of them on the first run.
    #[verifier::loop_isolation(false)]
    pub fn select_files(&self, files: &Vec<(String, u64)>) -> (r: Vec<String>)
        ensures
            r.deep_view() =~= selected_files(listing_view(files@), self.spec_last_backup_time()),
    {
        let ghost lv = listing_view(files@);
        let ghost last = self.last_backup_time;
        let mut r: Vec<String> = Vec::new();
        let mut i: usize = 0;
        proof {
            assert(lv.take(0) =~= Seq::<(Seq<char>, u64)>::empty());
            assert(r.deep_view() =~= selected_files(lv.take(0), last));
        }
        while i < files.len()
            invariant
                i <= files@.len(),
                r.deep_view() =~= selected_files(lv.take(i as int), last),
            decreases files@.len() - i,
        {
            let take = match self.last_backup_time {
                None => true,
                Some(t) => files[i].1 > t,
            };
            let ghost before = r.deep_view();
            proof {
                assert(lv.take(i + 1).drop_last() =~= lv.take(i as int));
                assert(lv.take(i + 1).last() == lv[i as int]);
                assert(take == should_select(lv[i as int].1, last));
            }
            if take {
                r.push(files[i].0.clone());
                proof {
                    assert(r.deep_view() =~= before.push(lv[i as int].0));
                }
            }
            i = i + 1;
        }
        proof {
            assert(lv.take(i as int) =~= lv);
        }
        r
    }

    /// The directory one mirror run writes into: timestamped under the
    /// backup root, with the emergency prefix when the run is an
    /// attack-response backup.
    pub fn backup_dir_name(&self, timestamp: u64, emergency: bool) -> (r: String)
        ensures
            r@ == self.spec_backup_dir() + seq!['/'] + (if emergency {
                "emergency_backup_"@
            } else {
                "backup_"@
            }) + u64_dec(timestamp as int),
    {
        let mut out = self.backup_dir.clone();
        out.append("/");
        if emergency {
            out.append("emergency_backup_");
        } else {
            out.append("backup_");
        }
        out.append(u64_to_string(timestamp).as_str());
        proof {
            reveal_strlit("/");
            assert("/"@ =~= seq!['/']);
            assert(out@ =~= self.spec_backup_dir() + seq!['/'] + (if emergency {
                "emergency_backup_"@
            } else {
                "backup_"@
            }) + u64_dec(timestamp as int));
        }
        out
    }

    /// Remembers when a mirror run finished; later selections compare
    /// against it.
    pub fn mark_backup_complete(&mut self, now: u64)
        ensures
            final(self).spec_source_dir() == old(self).spec_source_dir(),
            final(self).spec_backup_dir() == old(self).spec_backup_dir(),
            final(self).spec_last_backup_time() == Some(now),
    {
        self.last_backup_time = Some(now);
    }
}

/// What a threat score calls for, thresholds in thousandths: above 0.7 an
/// emergency backup plus isolation, above 0.4 an incremental backup,
/// otherwise monitoring alone.
#[derive(Clone, Copy, Debug, PartialEq, Eq, Structural)]
pub enum DefenseAction {
    EmergencyBackupAndIsolation,
    IncrementalBackup,
    Monitoring,
}

/// Picks the defense action for a threat score given in thousandths.
pub fn choose_defense_action(threat_score_millis: u32) -> (r: DefenseAction)
    ensures
        threat_score_millis > 700 ==> r == DefenseAction::EmergencyBackupAndIsolation,
        400 < threat_score_millis <= 700 ==> r == DefenseAction::IncrementalBackup,
        threat_score_millis <= 400 ==> r == DefenseAction::Monitoring,
{
    if threat_score_millis > 700 {
        DefenseAction::EmergencyBackupAndIsolation
    } else if threat_score_millis > 400 {
        DefenseAction::IncrementalBackup
    } else {
        DefenseAction::Monitoring
    }
}

/// The label an action result reports.
pub fn action_type_label(action: DefenseAction) -> (r: String)
    ensures
        action == DefenseAction::EmergencyBackupAndIsolation ==> r@
            == "emergency_backup_and_isolation"@,
        action == DefenseAction::IncrementalBackup ==> r@ == "incremental_backup"@,
        action == DefenseAction::Monitoring ==> r@ == "monitoring"@,
{
    match action {
        DefenseAction::EmergencyBackupAndIsolation => String::from_str(
            "emergency_backup_and_isolation",
        ),
        DefenseAction::IncrementalBackup => String::from_str("incremental_backup"),
        DefenseAction::Monitoring => String::from_str("monitoring"),
    }
}

/// The integrated defense engine: the scan monitor, the mirror backup
/// engine and the isolated-write channel, over one protected source
/// directory.
pub struct DefenseEngine {
    pub monitor: FileSystemMonitor,
    pub backup_engine: IncrementalBackupEngine,
    pub write_manager: IsolatedWriteManager,
}

impl DefenseEngine {
    pub fn new(
        watch_paths: Vec<String>,
        source_dir: String,
        backup_dir: String,
        clean_log_dir: String,
    ) -> (r: Self)
        ensures
            r.monitor.wf(),
            r.monitor.spec_states() =~= Seq::<(Seq<char>, crate::monitor::FileStateView)>::empty(),
            r.monitor.spec_watch_paths() == watch_paths.deep_view(),
            r.backup_engine.spec_source_dir() == source_dir@,
            r.backup_engine.spec_backup_dir() == backup_dir@,
            r.backup_engine.spec_last_backup_time() is None,
            r.write_manager.spec_protected_dir() == source_dir@,
            r.write_manager.spec_clean_log_dir() == clean_log_dir@,
            !r.write_manager.spec_active(),
            r.write_manager.spec_log() =~= Seq::<WriteOpView>::empty(),
    {
        let source_copy = source_dir.clone();
        DefenseEngine {
            monitor: FileSystemMonitor::new(watch_paths),
            backup_engine: IncrementalBackupEngine::new(source_dir, backup_dir),
            write_manager: IsolatedWriteManager::new(source_copy, clean_log_dir),
        }
    }

    /// Ends an attack response: isolation goes off and the recorded
    /// redirected writes come back, oldest first, for the caller to replay
    /// onto the protected paths.
    pub fn restore_normal_operations(&mut self) -> (r: Vec<WriteOperation>)
        ensures
            !final(self).write_manager.spec_active(),
            final(self).write_manager.spec_log() == old(self).write_manager.spec_log(),
            final(self).monitor == old(self).monitor,
            final(self).backup_engine == old(self).backup_engine,
            r@.len() == old(self).write_manager.spec_log().len(),
            forall|i: int|
                0 <= i < r@.len() ==> (#[trigger] r@[i])@ == old(self).write_manager.spec_log()[i],
    {
        self.write_manager.deactivate_isolation();
        self.write_manager.get_write_log()
    }
}

} // verus!

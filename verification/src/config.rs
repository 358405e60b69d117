//! Process configuration as plain values.  Loading from disk and parsing
//! live outside the library; the defaults and their exact values are
//! stated and checked here.

use vstd::prelude::*;

verus! {

/// What to watch: directory roots and the file extensions of interest.
pub struct MonitoringConfig {
    pub watch_paths: Vec<String>,
    pub file_extensions: Vec<String>,
    pub event_buffer_size: usize,
}

/// Detector thresholds.  The entropy threshold is in millibits per byte,
/// so the default of 7.5 bits/byte is 7500.
pub struct DetectionConfig {
    pub entropy_threshold_millibits: u64,
    pub rapid_change_threshold: usize,
    pub suspicious_extensions: Vec<String>,
    pub time_window_seconds: u64,
}

/// Backup engine and retention policy settings: when a history exceeds
/// `retention_versions`, the oldest `retention_batch` versions leave.
pub struct BackupConfig {
    pub incremental_interval: u64,
    pub retention_versions: usize,
    pub retention_batch: usize,
    pub block_size: usize,
    pub compression_enabled: bool,
    pub storage_path: String,
}

/// Which AEAD scheme and key derivation the store uses, by name.
pub struct EncryptionConfig {
    pub algorithm: String,
    pub key_derivation: String,
}

/// Where alerts go.
pub struct AlertsConfig {
    pub webhook_url: Option<String>,
    pub email_recipients: Vec<String>,
    pub sms_numbers: Vec<String>,
}

/// The whole process configuration.
pub struct Config {
    pub monitoring: MonitoringConfig,
    pub detection: DetectionConfig,
    pub backup: BackupConfig,
    pub encryption: EncryptionConfig,
    pub alerts: AlertsConfig,
}

impl Default for MonitoringConfig {
    /// Watches the bundled sample directory for the common medical-record
    /// file types.
    fn default() -> (r: Self)
        ensures
            r.watch_paths.deep_view() =~= seq!["./test_medical_data"@],
            r.file_extensions.deep_view() =~= seq![".dcm"@, ".hl7"@, ".xml"@, ".json"@, ".db"@],
            r.event_buffer_size == 10000,
    {
        let mut watch_paths: Vec<String> = Vec::new();
        watch_paths.push(String::from_str("./test_medical_data"));
        let mut file_extensions: Vec<String> = Vec::new();
        file_extensions.push(String::from_str(".dcm"));
        file_extensions.push(String::from_str(".hl7"));
        file_extensions.push(String::from_str(".xml"));
        file_extensions.push(String::from_str(".json"));
        file_extensions.push(String::from_str(".db"));
        MonitoringConfig { watch_paths, file_extensions, event_buffer_size: 10000 }
    }
}

impl Default for DetectionConfig {
    /// 7.5 bits/byte entropy threshold, 50 changes per window, a 60 s
    /// window, and the extensions ransomware leaves behind.
    fn default() -> (r: Self)
        ensures
            r.entropy_threshold_millibits == 7500,
            r.rapid_change_threshold == 50,
            r.suspicious_extensions.deep_view() =~= seq![
                ".locked"@,
                ".encrypted"@,
                ".crypto"@,
                ".crypt"@,
                ".enc"@,
            ],
            r.time_window_seconds == 60,
    {
        let mut suspicious_extensions: Vec<String> = Vec::new();
        suspicious_extensions.push(String::from_str(".locked"));
        suspicious_extensions.push(String::from_str(".encrypted"));
        suspicious_extensions.push(String::from_str(".crypto"));
        suspicious_extensions.push(String::from_str(".crypt"));
        suspicious_extensions.push(String::from_str(".enc"));
        DetectionConfig {
            entropy_threshold_millibits: 7500,
            rapid_change_threshold: 50,
            suspicious_extensions,
            time_window_seconds: 60,
        }
    }
}

impl Default for BackupConfig {
    /// 4096-byte blocks, up to 100 versions per path, trimming the oldest
    /// 10 past the cap.
    fn default() -> (r: Self)
        ensures
            r.incremental_interval == 60,
            r.retention_versions == 100,
            r.retention_batch == 10,
            r.block_size == 4096,
            r.compression_enabled == true,
            r.storage_path@ == "./backups"@,
    {
        BackupConfig {
            incremental_interval: 60,
            retention_versions: 100,
            retention_batch: 10,
            block_size: 4096,
            compression_enabled: true,
            storage_path: String::from_str("./backups"),
        }
    }
}

impl Default for EncryptionConfig {
    fn default() -> (r: Self)
        ensures
            r.algorithm@ == "AES-256-GCM"@,
            r.key_derivation@ == "Argon2id"@,
    {
        EncryptionConfig {
            algorithm: String::from_str("AES-256-GCM"),
            key_derivation: String::from_str("Argon2id"),
        }
    }
}

impl Default for AlertsConfig {
    fn default() -> (r: Self)
        ensures
            r.webhook_url is None,
            r.email_recipients@.len() == 0,
            r.sms_numbers@.len() == 0,
    {
        AlertsConfig { webhook_url: None, email_recipients: Vec::new(), sms_numbers: Vec::new() }
    }
}

impl Default for Config {
    /// The composition of every section's default.
    fn default() -> (r: Self)
        ensures
            r.monitoring.watch_paths.deep_view() =~= seq!["./test_medical_data"@],
            r.monitoring.file_extensions.deep_view() =~= seq![
                ".dcm"@,
                ".hl7"@,
                ".xml"@,
                ".json"@,
                ".db"@,
            ],
            r.monitoring.event_buffer_size == 10000,
            r.detection.entropy_threshold_millibits == 7500,
            r.detection.rapid_change_threshold == 50,
            r.detection.suspicious_extensions.deep_view() =~= seq![
                ".locked"@,
                ".encrypted"@,
                ".crypto"@,
                ".crypt"@,
                ".enc"@,
            ],
            r.detection.time_window_seconds == 60,
            r.backup.incremental_interval == 60,
            r.backup.retention_versions == 100,
            r.backup.retention_batch == 10,
            r.backup.block_size == 4096,
            r.backup.compression_enabled == true,
            r.backup.storage_path@ == "./backups"@,
            r.encryption.algorithm@ == "AES-256-GCM"@,
            r.encryption.key_derivation@ == "Argon2id"@,
            r.alerts.webhook_url is None,
            r.alerts.email_recipients@.len() == 0,
            r.alerts.sms_numbers@.len() == 0,
    {
        Config {
            monitoring: MonitoringConfig::default(),
            detection: DetectionConfig::default(),
            backup: BackupConfig::default(),
            encryption: EncryptionConfig::default(),
            alerts: AlertsConfig::default(),
        }
    }
}

/// The standalone tool's configuration: directories, key location, scoring
/// service address, and the chunk size its snapshots hash with.
pub struct AppConfig {
    pub source_dir: String,
    pub restore_dir: String,
    pub store_dir: String,
    pub key_path: String,
    pub ai_url: String,
    pub chunk_size: usize,
}

/// The chunk size a configuration falls back to: one mebibyte.
pub fn default_chunk_size() -> (r: usize)
    ensures
        r == 1048576,
{
    1048576
}

} // verus!

//! State and settings of a TigerBeetle process manager: the runtime state
//! exposed to the API, the backup configuration file's settings, and the
//! decisions of the backup jobs.

use vstd::prelude::*;
use vstd::string::{StrSliceExecFns, StringExecFns};

verus! {

/// Log level.
#[derive(Debug, Clone, Copy, PartialEq, Eq)]
pub enum LogLevel {
    /// Informational log.
    Info,
    /// Warning log.
    Warn,
    /// Error log.
    Error,
}

/// A log entry from the TigerBeetle process.
#[derive(Debug, Clone)]
pub struct LogEntry {
    /// ISO 8601 timestamp.
    pub timestamp: String,
    /// Log level.
    pub level: LogLevel,
    /// Log message.
    pub message: String,
}

impl LogEntry {
    /// The entry for a line the process wrote: standard output is logged
    /// at `Info`, standard error at `Error`.
    pub fn from_output_line(timestamp: String, line: String, from_stderr: bool) -> (e: LogEntry)
        ensures
            e.timestamp == timestamp,
            e.message == line,
            e.level == if from_stderr { LogLevel::Error } else { LogLevel::Info },
    {
        LogEntry {
            timestamp,
            level: if from_stderr { LogLevel::Error } else { LogLevel::Info },
            message: line,
        }
    }
}

/// Configuration for the TigerBeetle process manager.
#[derive(Debug, Clone)]
pub struct ManagerConfig {
    /// Path to the TigerBeetle executable.
    pub exe: String,
    /// Arguments to pass to the TigerBeetle process.
    pub args: Vec<String>,
    /// Path to the data file to back up.
    pub backup_file: String,
    /// S3 bucket name for backups.
    pub bucket: String,
}

/// The prefix of the argument that carries TigerBeetle's listen address.
pub const ADDRESSES_ARG: &'static str = "--addresses=";

/// The listen address in `args`: what follows `--addresses=` in the first
/// argument that starts with it, or empty.
pub open spec fn listen_address(args: Seq<Seq<char>>) -> Seq<char>
    decreases args.len(),
{
    if args.len() == 0 {
        Seq::empty()
    } else if ADDRESSES_ARG@.is_prefix_of(args[0]) {
        args[0].skip(ADDRESSES_ARG@.len() as int)
    } else {
        listen_address(args.drop_first())
    }
}

/// The views of a sequence of strings.
pub open spec fn string_views(v: Seq<String>) -> Seq<Seq<char>> {
    Seq::new(v.len(), |i: int| v[i]@)
}

/// Whether `prefix` starts `s`.
pub(crate) fn starts_with(s: &str, prefix: &str) -> (b: bool)
    ensures
        b == prefix@.is_prefix_of(s@),
{
    let n = prefix.unicode_len();
    let m = s.unicode_len();
    if n > m {
        return false;
    }
    let mut i: usize = 0;
    while i < n
        invariant
            n == prefix@.len(),
            m == s@.len(),
            n <= m,
            i <= n,
            forall|k: int| 0 <= k < i ==> prefix@[k] == s@[k],
        decreases n - i,
    {
        if prefix.get_char(i) != s.get_char(i) {
            return false;
        }
        i = i + 1;
    }
    true
}

/// Find the listen address in `args`.
pub(crate) fn find_listen_address(args: &Vec<String>) -> (a: String)
    ensures
        a@ == listen_address(string_views(args@)),
{
    let prefix = ADDRESSES_ARG;
    let plen = prefix.unicode_len();
    let mut i: usize = 0;
    assert(string_views(args@).skip(0) =~= string_views(args@));
    while i < args.len()
        invariant
            i <= args@.len(),
            plen == prefix@.len(),
            prefix == ADDRESSES_ARG,
            listen_address(string_views(args@)) == listen_address(
                string_views(args@).skip(i as int),
            ),
        decreases args@.len() - i,
    {
        let a = args[i].as_str();
        proof {
            let vs = string_views(args@).skip(i as int);
            assert(vs[0] == a@);
            assert(vs.drop_first() =~= string_views(args@).skip(i + 1));
        }
        if starts_with(a, prefix) {
            let len = a.unicode_len();
            return a.substring_char(plen, len).to_owned();
        }
        i = i + 1;
    }
    proof {
        assert(string_views(args@).skip(i as int) =~= Seq::<Seq<char>>::empty());
    }
    String::new()
}

/// Copy a list of strings.
pub(crate) fn copy_strings(v: &Vec<String>) -> (out: Vec<String>)
    ensures
        out@ == v@,
{
    let mut out: Vec<String> = Vec::new();
    for i in 0..v.len()
        invariant
            out@ == v@.take(i as int),
    {
        out.push(v[i].clone());
        proof {
            assert(v@.take(i + 1) =~= v@.take(i as int).push(v@[i as int]));
        }
    }
    assert(v@.take(v@.len() as int) =~= v@);
    out
}

/// Copy an optional string.
pub(crate) fn copy_opt(o: &Option<String>) -> (r: Option<String>)
    ensures
        r == *o,
{
    match o {
        Some(s) => Some(s.clone()),
        None => None,
    }
}

/// Manager runtime state (exposed for API access).
#[derive(Debug, Clone)]
pub struct ManagerState {
    /// Whether the TigerBeetle process is currently running.
    pub process_running: bool,
    /// OS process ID (None if not running).
    pub pid: Option<u32>,
    /// TigerBeetle executable path.
    pub exe: String,
    /// Arguments passed to TigerBeetle.
    pub args: Vec<String>,
    /// TigerBeetle listen address.
    pub address: String,
    /// Whether backups are currently enabled.
    pub backups_enabled: bool,
    /// Cron schedule pattern (None = disabled).
    pub cron_schedule: Option<String>,
    /// Path to the backup file.
    pub backup_file: String,
    /// S3 bucket name.
    pub bucket: String,
    /// ISO 8601 timestamp of last successful backup.
    pub last_backup_at: Option<String>,
    /// Last backup error message.
    pub last_backup_error: Option<String>,
}

impl ManagerState {
    /// The state of a manager for `config` before its process starts, with
    /// backups enabled exactly when a cron schedule is set.
    pub fn new(config: &ManagerConfig, initial_cron: Option<String>) -> (s: ManagerState)
        ensures
            !s.process_running,
            s.pid is None,
            s.exe == config.exe,
            s.args@ == config.args@,
            s.address@ == listen_address(string_views(config.args@)),
            s.backups_enabled == initial_cron is Some,
            s.cron_schedule == initial_cron,
            s.backup_file == config.backup_file,
            s.bucket == config.bucket,
            s.last_backup_at is None,
            s.last_backup_error is None,
    {
        let address = find_listen_address(&config.args);
        let enabled = initial_cron.is_some();
        ManagerState {
            process_running: false,
            pid: None,
            exe: config.exe.clone(),
            args: copy_strings(&config.args),
            address,
            backups_enabled: enabled,
            cron_schedule: initial_cron,
            backup_file: config.backup_file.clone(),
            bucket: config.bucket.clone(),
            last_backup_at: None,
            last_backup_error: None,
        }
    }

    /// Record that the process started with OS process id `pid`.
    pub fn process_started(&mut self, pid: Option<u32>)
        ensures
            *final(self) == (ManagerState { process_running: true, pid, ..*old(self) }),
    {
        self.process_running = true;
        self.pid = pid;
    }

    /// Enable backups on the cron schedule `schedule`.
    pub fn enable_backups(&mut self, schedule: String)
        ensures
            *final(self) == (ManagerState {
                backups_enabled: true,
                cron_schedule: Some(schedule),
                ..*old(self)
            }),
    {
        self.backups_enabled = true;
        self.cron_schedule = Some(schedule);
    }

    /// Disable backups and clear the cron schedule.
    pub fn disable_backups(&mut self)
        ensures
            *final(self) == (ManagerState {
                backups_enabled: false,
                cron_schedule: None,
                ..*old(self)
            }),
    {
        self.backups_enabled = false;
        self.cron_schedule = None;
    }

    /// Record a successful backup finished at `at`.
    pub fn backup_succeeded(&mut self, at: String)
        ensures
            *final(self) == (ManagerState {
                last_backup_at: Some(at),
                last_backup_error: None,
                ..*old(self)
            }),
    {
        self.last_backup_at = Some(at);
        self.last_backup_error = None;
    }

    /// Record a failed backup with its message; the time of the last
    /// success stays.
    pub fn backup_failed(&mut self, message: String)
        ensures
            *final(self) == (ManagerState { last_backup_error: Some(message), ..*old(self) }),
    {
        self.last_backup_error = Some(message);
    }

    /// Record how a backup ended: `Ok` with the time it finished, or `Err`
    /// with its failure; a failure keeps the time of the last success.
    pub fn record_backup_outcome(&mut self, outcome: Result<String, String>)
        ensures
            outcome matches Ok(at) ==> *final(self) == (ManagerState {
                last_backup_at: Some(at),
                last_backup_error: None,
                ..*old(self)
            }),
            outcome matches Err(m) ==> *final(self) == (ManagerState {
                last_backup_error: Some(m),
                ..*old(self)
            }),
    {
        match outcome {
            Ok(at) => self.backup_succeeded(at),
            Err(m) => self.backup_failed(m),
        }
    }

    /// What a scheduled backup job works on: the backup file and bucket,
    /// or `None` when backups are disabled and the job skips.
    pub fn backup_job_target(&self) -> (t: Option<(String, String)>)
        ensures
            !self.backups_enabled ==> t is None,
            self.backups_enabled ==> t == Some((self.backup_file, self.bucket)),
    {
        if !self.backups_enabled {
            return None;
        }
        Some((self.backup_file.clone(), self.bucket.clone()))
    }

    /// Take on the bucket and backup file of a saved backup configuration,
    /// where it sets them.
    pub fn apply_backup_config(&mut self, cfg: &BackupConfig)
        ensures
            *final(self) == (ManagerState {
                bucket: match cfg.bucket {
                    Some(b) => b,
                    None => old(self).bucket,
                },
                backup_file: match cfg.backup_file {
                    Some(f) => f,
                    None => old(self).backup_file,
                },
                ..*old(self)
            }),
    {
        match &cfg.bucket {
            Some(b) => {
                self.bucket = b.clone();
            },
            None => {},
        }
        match &cfg.backup_file {
            Some(f) => {
                self.backup_file = f.clone();
            },
            None => {},
        }
    }
}

/// AWS / S3 credentials and endpoint configuration, and backup settings,
/// as stored in a TOML file under the upper-case keys named below. All
/// fields are optional: unset AWS fields fall back to the corresponding
/// environment variables.
#[derive(Debug, Clone)]
pub struct BackupConfig {
    /// S3-compatible endpoint URL (`AWS_ENDPOINT_URL`).
    pub aws_endpoint_url: Option<String>,
    /// AWS access key ID (`AWS_ACCESS_KEY_ID`).
    pub aws_access_key_id: Option<String>,
    /// AWS secret access key (`AWS_SECRET_ACCESS_KEY`).
    pub aws_secret_access_key: Option<String>,
    /// AWS region (`AWS_DEFAULT_REGION`).
    pub aws_default_region: Option<String>,
    /// Checksum calculation mode (`AWS_REQUEST_CHECKSUM_CALCULATION`).
    pub aws_request_checksum_calculation: Option<String>,
    /// Checksum validation mode (`AWS_RESPONSE_CHECKSUM_VALIDATION`).
    pub aws_response_checksum_validation: Option<String>,
    /// Cron schedule for automated backups (`BACKUP_CRON_SCHEDULE`).
    pub cron_schedule: Option<String>,
    /// S3 bucket name for backups (`BACKUP_BUCKET`).
    pub bucket: Option<String>,
    /// Path to the data file to back up (`BACKUP_FILE`).
    pub backup_file: Option<String>,
}

impl Default for BackupConfig {
    fn default() -> (c: Self)
        ensures
            c.aws_endpoint_url is None,
            c.aws_access_key_id is None,
            c.aws_secret_access_key is None,
            c.aws_default_region is None,
            c.aws_request_checksum_calculation is None,
            c.aws_response_checksum_validation is None,
            c.cron_schedule is None,
            c.bucket is None,
            c.backup_file is None,
    {
        BackupConfig {
            aws_endpoint_url: None,
            aws_access_key_id: None,
            aws_secret_access_key: None,
            aws_default_region: None,
            aws_request_checksum_calculation: None,
            aws_response_checksum_validation: None,
            cron_schedule: None,
            bucket: None,
            backup_file: None,
        }
    }
}

/// New values for the settings of a [`BackupConfig`]; an empty string
/// leaves the setting as it was.
#[derive(Debug, Clone)]
pub struct BackupConfigUpdate {
    /// New `AWS_ENDPOINT_URL`.
    pub aws_endpoint_url: String,
    /// New `AWS_ACCESS_KEY_ID`.
    pub aws_access_key_id: String,
    /// New `AWS_SECRET_ACCESS_KEY`.
    pub aws_secret_access_key: String,
    /// New `AWS_DEFAULT_REGION`.
    pub aws_default_region: String,
    /// New `AWS_REQUEST_CHECKSUM_CALCULATION`.
    pub aws_request_checksum_calculation: String,
    /// New `AWS_RESPONSE_CHECKSUM_VALIDATION`.
    pub aws_response_checksum_validation: String,
    /// New `BACKUP_BUCKET`.
    pub bucket: String,
    /// New `BACKUP_FILE`.
    pub backup_file: String,
}

/// `old` overridden by `new` where `new` is not empty.
pub open spec fn override_field(old: Option<String>, new: String) -> Option<String> {
    if new@.len() == 0 {
        old
    } else {
        Some(new)
    }
}

fn override_with(field: &mut Option<String>, new: &String)
    ensures
        *final(field) == override_field(*old(field), *new),
{
    if new.as_str().unicode_len() != 0 {
        *field = Some(new.clone());
    }
}

/// The AWS settings that are set, as environment variable assignments in
/// the order they are applied; the region sets both `AWS_DEFAULT_REGION`
/// and `AWS_REGION`.
pub open spec fn spec_env_assignments(c: BackupConfig) -> Seq<(Seq<char>, Seq<char>)> {
    env_item("AWS_ENDPOINT_URL"@, c.aws_endpoint_url) + env_item("AWS_ACCESS_KEY_ID"@, c.aws_access_key_id)
        + env_item("AWS_SECRET_ACCESS_KEY"@, c.aws_secret_access_key) + env_item(
        "AWS_DEFAULT_REGION"@,
        c.aws_default_region,
    ) + env_item("AWS_REGION"@, c.aws_default_region) + env_item(
        "AWS_REQUEST_CHECKSUM_CALCULATION"@,
        c.aws_request_checksum_calculation,
    ) + env_item("AWS_RESPONSE_CHECKSUM_VALIDATION"@, c.aws_response_checksum_validation)
}

/// One assignment of `name` when `value` is set, else none.
pub open spec fn env_item(name: Seq<char>, value: Option<String>) -> Seq<(Seq<char>, Seq<char>)> {
    match value {
        Some(v) => seq![(name, v@)],
        None => Seq::empty(),
    }
}

/// The views of a list of assignments.
pub open spec fn pair_views(v: Seq<(String, String)>) -> Seq<(Seq<char>, Seq<char>)> {
    Seq::new(v.len(), |i: int| (v[i].0@, v[i].1@))
}

fn push_env(out: &mut Vec<(String, String)>, name: &str, value: &Option<String>)
    ensures
        pair_views(final(out)@) == pair_views(old(out)@) + env_item(name@, *value),
{
    match value {
        Some(v) => {
            out.push((name.to_owned(), v.clone()));
            assert(pair_views(final(out)@) =~= pair_views(old(out)@) + env_item(name@, *value));
        },
        None => {
            assert(pair_views(final(out)@) =~= pair_views(old(out)@) + env_item(name@, *value));
        },
    }
}

impl BackupConfig {
    /// Override the settings that `update` gives a non-empty value; the
    /// cron schedule stays.
    pub fn apply_update(&mut self, update: &BackupConfigUpdate)
        ensures
            final(self).aws_endpoint_url == override_field(
                old(self).aws_endpoint_url,
                update.aws_endpoint_url,
            ),
            final(self).aws_access_key_id == override_field(
                old(self).aws_access_key_id,
                update.aws_access_key_id,
            ),
            final(self).aws_secret_access_key == override_field(
                old(self).aws_secret_access_key,
                update.aws_secret_access_key,
            ),
            final(self).aws_default_region == override_field(
                old(self).aws_default_region,
                update.aws_default_region,
            ),
            final(self).aws_request_checksum_calculation == override_field(
                old(self).aws_request_checksum_calculation,
                update.aws_request_checksum_calculation,
            ),
            final(self).aws_response_checksum_validation == override_field(
                old(self).aws_response_checksum_validation,
                update.aws_response_checksum_validation,
            ),
            final(self).cron_schedule == old(self).cron_schedule,
            final(self).bucket == override_field(old(self).bucket, update.bucket),
            final(self).backup_file == override_field(old(self).backup_file, update.backup_file),
    {
        override_with(&mut self.aws_endpoint_url, &update.aws_endpoint_url);
        override_with(&mut self.aws_access_key_id, &update.aws_access_key_id);
        override_with(&mut self.aws_secret_access_key, &update.aws_secret_access_key);
        override_with(&mut self.aws_default_region, &update.aws_default_region);
        override_with(
            &mut self.aws_request_checksum_calculation,
            &update.aws_request_checksum_calculation,
        );
        override_with(
            &mut self.aws_response_checksum_validation,
            &update.aws_response_checksum_validation,
        );
        override_with(&mut self.bucket, &update.bucket);
        override_with(&mut self.backup_file, &update.backup_file);
    }

    /// The environment variable assignments that make the AWS SDK pick up
    /// the settings of this configuration.
    pub fn env_assignments(&self) -> (v: Vec<(String, String)>)
        ensures
            pair_views(v@) == spec_env_assignments(*self),
    {
        let mut v: Vec<(String, String)> = Vec::new();
        assert(pair_views(v@) =~= Seq::<(Seq<char>, Seq<char>)>::empty());
        push_env(&mut v, "AWS_ENDPOINT_URL", &self.aws_endpoint_url);
        push_env(&mut v, "AWS_ACCESS_KEY_ID", &self.aws_access_key_id);
        push_env(&mut v, "AWS_SECRET_ACCESS_KEY", &self.aws_secret_access_key);
        push_env(&mut v, "AWS_DEFAULT_REGION", &self.aws_default_region);
        push_env(&mut v, "AWS_REGION", &self.aws_default_region);
        push_env(&mut v, "AWS_REQUEST_CHECKSUM_CALCULATION", &self.aws_request_checksum_calculation);
        push_env(&mut v, "AWS_RESPONSE_CHECKSUM_VALIDATION", &self.aws_response_checksum_validation);
        assert(pair_views(v@) =~= spec_env_assignments(*self));
        v
    }
}

/// What a node reports of its backup configuration.
#[derive(Debug, Clone)]
pub struct BackupConfigReply {
    /// Whether the node has a configuration file.
    pub config_file_configured: bool,
    /// `AWS_ENDPOINT_URL`, or empty.
    pub aws_endpoint_url: String,
    /// `AWS_ACCESS_KEY_ID`, or empty.
    pub aws_access_key_id: String,
    /// `AWS_SECRET_ACCESS_KEY`, or empty.
    pub aws_secret_access_key: String,
    /// `AWS_DEFAULT_REGION`, or empty.
    pub aws_default_region: String,
    /// `AWS_REQUEST_CHECKSUM_CALCULATION`, or empty.
    pub aws_request_checksum_calculation: String,
    /// `AWS_RESPONSE_CHECKSUM_VALIDATION`, or empty.
    pub aws_response_checksum_validation: String,
    /// `BACKUP_BUCKET`, or empty.
    pub bucket: String,
    /// `BACKUP_FILE`, or empty.
    pub backup_file: String,
}

/// The value of a setting, or empty when unset.
pub open spec fn or_empty(o: Option<String>) -> Seq<char> {
    match o {
        Some(s) => s@,
        None => Seq::empty(),
    }
}

fn value_or_empty(o: &Option<String>) -> (s: String)
    ensures
        s@ == or_empty(*o),
{
    match o {
        Some(v) => v.clone(),
        None => String::new(),
    }
}

impl BackupConfigReply {
    /// The report for a node with the configuration `cfg` loaded from its
    /// file, or with no file (`None`): each setting's value, empty when
    /// unset; all empty without a file.
    pub fn from_config(cfg: Option<&BackupConfig>) -> (r: BackupConfigReply)
        ensures
            r.config_file_configured == cfg is Some,
            cfg is None ==> {
                &&& r.aws_endpoint_url@.len() == 0
                &&& r.aws_access_key_id@.len() == 0
                &&& r.aws_secret_access_key@.len() == 0
                &&& r.aws_default_region@.len() == 0
                &&& r.aws_request_checksum_calculation@.len() == 0
                &&& r.aws_response_checksum_validation@.len() == 0
                &&& r.bucket@.len() == 0
                &&& r.backup_file@.len() == 0
            },
            cfg matches Some(c) ==> {
                &&& r.aws_endpoint_url@ == or_empty(c.aws_endpoint_url)
                &&& r.aws_access_key_id@ == or_empty(c.aws_access_key_id)
                &&& r.aws_secret_access_key@ == or_empty(c.aws_secret_access_key)
                &&& r.aws_default_region@ == or_empty(c.aws_default_region)
                &&& r.aws_request_checksum_calculation@ == or_empty(
                    c.aws_request_checksum_calculation,
                )
                &&& r.aws_response_checksum_validation@ == or_empty(
                    c.aws_response_checksum_validation,
                )
                &&& r.bucket@ == or_empty(c.bucket)
                &&& r.backup_file@ == or_empty(c.backup_file)
            },
    {
        match cfg {
            None => BackupConfigReply {
                config_file_configured: false,
                aws_endpoint_url: String::new(),
                aws_access_key_id: String::new(),
                aws_secret_access_key: String::new(),
                aws_default_region: String::new(),
                aws_request_checksum_calculation: String::new(),
                aws_response_checksum_validation: String::new(),
                bucket: String::new(),
                backup_file: String::new(),
            },
            Some(c) => BackupConfigReply {
                config_file_configured: true,
                aws_endpoint_url: value_or_empty(&c.aws_endpoint_url),
                aws_access_key_id: value_or_empty(&c.aws_access_key_id),
                aws_secret_access_key: value_or_empty(&c.aws_secret_access_key),
                aws_default_region: value_or_empty(&c.aws_default_region),
                aws_request_checksum_calculation: value_or_empty(
                    &c.aws_request_checksum_calculation,
                ),
                aws_response_checksum_validation: value_or_empty(
                    &c.aws_response_checksum_validation,
                ),
                bucket: value_or_empty(&c.bucket),
                backup_file: value_or_empty(&c.backup_file),
            },
        }
    }
}

/// Suffix of compressed backup files.
pub const COMPRESS_SUFFIX: &'static str = ".zst";

/// S3-based backup strategy with zstd compression. AWS credentials and
/// endpoint come first from the TOML file `config_file` (when set and
/// present), then from the standard AWS environment and credential chain.
#[derive(Debug, Clone)]
pub struct S3BackupStrategy {
    /// Optional path to a TOML file with AWS credentials / endpoint overrides.
    pub config_file: Option<String>,
}

impl S3BackupStrategy {
    /// Create a new S3 backup strategy.
    pub fn new(config_file: Option<String>) -> (s: S3BackupStrategy)
        ensures
            s.config_file == config_file,
    {
        S3BackupStrategy { config_file }
    }

    /// Path of the compressed copy of a backup file named `file_name`:
    /// `/tmp/<file_name>.zst`.
    pub fn compressed_path(file_name: &str) -> (p: String)
        ensures
            p@ == "/tmp/"@ + file_name@ + COMPRESS_SUFFIX@,
    {
        let mut p = String::from_str("/tmp/");
        p.append(file_name);
        p.append(COMPRESS_SUFFIX);
        p
    }

    /// Object key of an upload of `compressed_file` made at `timestamp`
    /// (formatted `%Y-%m-%dT%H:%M:%SZ`): `backup/<timestamp>/<file>`.
    pub fn object_key(timestamp: &str, compressed_file: &str) -> (k: String)
        ensures
            k@ == "backup/"@ + timestamp@ + "/"@ + compressed_file@,
    {
        let mut k = String::from_str("backup/");
        k.append(timestamp);
        k.append("/");
        k.append(compressed_file);
        k
    }
}

} // verus!

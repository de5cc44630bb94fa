//! Configuration: a TOML file for everything non-secret, the two secrets from
//! the environment or the service manager's credentials, and the system prompt
//! from its own file.
//!
//! Secrets (`DIALOGOS_DB_KEY`, `LLM_API_KEY`) never come from the file, so the
//! file is safe to commit and share. Loading fails fast with a clear message if
//! a secret or a referenced file is missing. Reading files and the environment
//! is left to the program around the library; what is made of their contents is
//! decided here.
use vstd::prelude::*;
use vstd::string::*;

use crate::limits::Limits;
use crate::text::trim;
use crate::time::Duration;

verus! {

/// Environment variable holding the encrypted-store key.
pub const DB_KEY_ENV: &'static str = "DIALOGOS_DB_KEY";

/// Environment variable holding the LLM provider API key.
pub const LLM_API_KEY_ENV: &'static str = "LLM_API_KEY";

/// Credential file holding the encrypted-store key.
pub const DB_KEY_CREDENTIAL: &'static str = "db_key";

/// Credential file holding the LLM provider API key.
pub const LLM_API_KEY_CREDENTIAL: &'static str = "llm_api_key";

/// Why no configuration can be had. The reasons of a failed read or parse are
/// the words of whoever read or parsed.
#[derive(Debug)]
pub enum ConfigError {
    Read { path: String, reason: String },
    Parse { path: String, reason: String },
    SystemPrompt { path: String, reason: String },
    MissingSecret(&'static str),
}

impl ConfigError {
    /// What to tell the operator.
    pub open spec fn text(self) -> Seq<char> {
        match self {
            ConfigError::Read { path, reason } => "reading config file "@ + path@ + ": "@
                + reason@,
            ConfigError::Parse { path, reason } => "parsing config file "@ + path@ + ": "@
                + reason@,
            ConfigError::SystemPrompt { path, reason } => "reading system prompt "@ + path@
                + ": "@ + reason@,
            ConfigError::MissingSecret(var) => "missing required environment variable "@ + var@
                + " (it holds a secret; set it in the environment, never in the config file)"@,
        }
    }

    /// What to tell the operator.
    pub fn message(&self) -> (text: String)
        ensures
            text@ == self.text(),
    {
        match self {
            ConfigError::Read { path, reason } => "reading config file ".to_owned().concat(
                path.as_str(),
            ).concat(": ").concat(reason.as_str()),
            ConfigError::Parse { path, reason } => "parsing config file ".to_owned().concat(
                path.as_str(),
            ).concat(": ").concat(reason.as_str()),
            ConfigError::SystemPrompt { path, reason } => "reading system prompt ".to_owned().concat(
                path.as_str(),
            ).concat(": ").concat(reason.as_str()),
            ConfigError::MissingSecret(var) => {
                "missing required environment variable ".to_owned().concat(var).concat(
                    " (it holds a secret; set it in the environment, never in the config file)",
                )
            },
        }
    }
}

/// The fully-resolved runtime configuration.
#[derive(Debug)]
pub struct Config {
    pub identity: Identity,
    pub llm: Llm,
    pub limits: Limits,
    pub behavior: Behavior,
}

/// Where the encrypted store is and how to open it.
#[derive(Debug)]
pub struct Identity {
    pub db_path: String,
    pub db_key: String,
    pub registry_url: Option<String>,
}

impl Identity {
    /// Sidecar path for the persisted daily budget, next to the on-disk store.
    /// Keyed to the (stable) store path so the spend cap survives a restart even
    /// though the identity behind the store does not.
    pub fn budget_path(&self) -> (path: String)
        ensures
            path@ == self.db_path@ + ".budget.json"@,
    {
        self.db_path.clone().concat(".budget.json")
    }
}

/// How to reach and drive the model.
#[derive(Debug)]
pub struct Llm {
    pub base_url: String,
    pub model: String,
    pub api_key: String,
    pub max_output_tokens: u32,
    /// The sampling temperature, as the bit pattern of a single-precision
    /// number: it is only ever handed on.
    pub temperature_bits: u32,
    pub request_timeout: Duration,
    /// Worker threads making concurrent LLM calls, so a slow reply in one
    /// conversation does not stall the others.
    pub workers: usize,
}

/// How the bot behaves in a conversation.
#[derive(Debug)]
pub struct Behavior {
    pub greeting: String,
    pub system_prompt: String,
    pub history_turns: usize,
    pub ignore_groups: bool,
}

/// The config file as it is written: what may be left out is optional.
#[derive(Debug)]
pub struct FileConfig {
    pub identity: FileIdentity,
    pub llm: FileLlm,
    pub limits: Option<FileLimits>,
    pub behavior: Option<FileBehavior>,
}

/// The `[identity]` section.
#[derive(Debug)]
pub struct FileIdentity {
    pub db_path: String,
    pub registry_url: Option<String>,
}

/// The `[llm]` section.
#[derive(Debug)]
pub struct FileLlm {
    pub base_url: String,
    pub model: String,
    pub system_prompt_path: String,
    pub max_output_tokens: Option<u32>,
    pub temperature_bits: Option<u32>,
    pub request_timeout_secs: Option<u64>,
    pub workers: Option<usize>,
}

/// The `[limits]` section.
#[derive(Debug)]
pub struct FileLimits {
    pub per_convo_max_messages: usize,
    pub per_convo_window_secs: u64,
    pub global_daily_max_messages: u32,
    pub global_daily_max_tokens: u64,
    pub max_active_conversations: Option<usize>,
    pub max_known_conversations: Option<usize>,
}

/// The `[behavior]` section.
#[derive(Debug)]
pub struct FileBehavior {
    pub greeting: Option<String>,
    pub history_turns: Option<usize>,
    pub ignore_groups: Option<bool>,
}

impl Default for FileLimits {
    /// The limits of a file without a `[limits]` section.
    fn default() -> (limits: Self)
        ensures
            limits.per_convo_max_messages == 10,
            limits.per_convo_window_secs == 300,
            limits.global_daily_max_messages == 2_000,
            limits.global_daily_max_tokens == 500_000,
            limits.max_active_conversations == Some(1_024usize),
            limits.max_known_conversations == Some(65_536usize),
    {
        FileLimits {
            per_convo_max_messages: 10,
            per_convo_window_secs: 300,
            global_daily_max_messages: 2_000,
            global_daily_max_tokens: 500_000,
            max_active_conversations: Some(default_max_active_conversations()),
            max_known_conversations: Some(default_max_known_conversations()),
        }
    }
}

impl Default for FileBehavior {
    /// The behaviour of a file without a `[behavior]` section.
    fn default() -> (behavior: Self)
        ensures
            behavior.greeting is Some,
            behavior.greeting->0@ == "Hi, I'm an AI assistant. Ask me anything."@,
            behavior.history_turns == Some(8usize),
            behavior.ignore_groups == Some(true),
    {
        FileBehavior {
            greeting: Some(default_greeting()),
            history_turns: Some(default_history_turns()),
            ignore_groups: Some(default_ignore_groups()),
        }
    }
}

fn default_max_output_tokens() -> (n: u32)
    ensures
        n == 512,
{
    512
}

/// The bit pattern of 0.7.
fn default_temperature() -> (bits: u32)
    ensures
        bits == 0x3f33_3333,
{
    0x3f33_3333
}

fn default_request_timeout_secs() -> (secs: u64)
    ensures
        secs == 60,
{
    60
}

fn default_workers() -> (n: usize)
    ensures
        n == 4,
{
    4
}

pub(crate) fn default_max_active_conversations() -> (n: usize)
    ensures
        n == 1_024,
{
    1_024
}

pub(crate) fn default_max_known_conversations() -> (n: usize)
    ensures
        n == 65_536,
{
    65_536
}

fn default_greeting() -> (greeting: String)
    ensures
        greeting@ == "Hi, I'm an AI assistant. Ask me anything."@,
{
    "Hi, I'm an AI assistant. Ask me anything.".to_owned()
}

fn default_history_turns() -> (n: usize)
    ensures
        n == 8,
{
    8
}

fn default_ignore_groups() -> (ignore: bool)
    ensures
        ignore,
{
    true
}

/// What is set, or else the default.
pub open spec fn set_or<T>(setting: Option<T>, default: T) -> T {
    match setting {
        Some(value) => value,
        None => default,
    }
}

/// Whether `limits` is what a `[limits]` section, or its absence, asks for.
pub open spec fn limits_follow(limits: Limits, section: Option<FileLimits>) -> bool {
    match section {
        Some(file) => {
            &&& limits.per_convo_window@ == file.per_convo_window_secs * 1_000_000_000
            &&& limits.per_convo_max_messages == file.per_convo_max_messages
            &&& limits.daily_max_messages == file.global_daily_max_messages
            &&& limits.daily_max_tokens == file.global_daily_max_tokens
            &&& limits.max_active_conversations == set_or(file.max_active_conversations, 1_024)
            &&& limits.max_known_conversations == set_or(file.max_known_conversations, 65_536)
        },
        None => {
            &&& limits.per_convo_window@ == 300 * 1_000_000_000
            &&& limits.per_convo_max_messages == 10
            &&& limits.daily_max_messages == 2_000
            &&& limits.daily_max_tokens == 500_000
            &&& limits.max_active_conversations == 1_024
            &&& limits.max_known_conversations == 65_536
        },
    }
}

/// The greeting that a `[behavior]` section, or its absence, asks for.
pub open spec fn greeting_of(section: Option<FileBehavior>) -> Seq<char> {
    match section {
        Some(FileBehavior { greeting: Some(greeting), .. }) => greeting@,
        _ => "Hi, I'm an AI assistant. Ask me anything."@,
    }
}

/// The history length that a `[behavior]` section, or its absence, asks for.
pub open spec fn history_turns_of(section: Option<FileBehavior>) -> usize {
    match section {
        Some(file) => set_or(file.history_turns, 8),
        None => 8,
    }
}

/// Whether groups are ignored, as a `[behavior]` section, or its absence, asks.
pub open spec fn ignore_groups_of(section: Option<FileBehavior>) -> bool {
    match section {
        Some(file) => set_or(file.ignore_groups, true),
        None => true,
    }
}

fn resolve_limits(section: Option<FileLimits>) -> (limits: Limits)
    ensures
        limits_follow(limits, section),
{
    let file: FileLimits = match section {
        Some(file) => file,
        None => FileLimits::default(),
    };
    Limits {
        per_convo_window: Duration::from_secs(file.per_convo_window_secs),
        per_convo_max_messages: file.per_convo_max_messages,
        daily_max_messages: file.global_daily_max_messages,
        daily_max_tokens: file.global_daily_max_tokens,
        max_active_conversations: match file.max_active_conversations {
            Some(n) => n,
            None => default_max_active_conversations(),
        },
        max_known_conversations: match file.max_known_conversations {
            Some(n) => n,
            None => default_max_known_conversations(),
        },
    }
}

fn resolve_behavior(section: Option<FileBehavior>, system_prompt: &str) -> (behavior: Behavior)
    ensures
        behavior.greeting@ == greeting_of(section),
        behavior.system_prompt@ == crate::text::trimmed(system_prompt@),
        behavior.history_turns == history_turns_of(section),
        behavior.ignore_groups == ignore_groups_of(section),
{
    let file: FileBehavior = match section {
        Some(file) => file,
        None => FileBehavior::default(),
    };
    Behavior {
        greeting: match file.greeting {
            Some(greeting) => greeting,
            None => default_greeting(),
        },
        system_prompt: trim(system_prompt),
        history_turns: match file.history_turns {
            Some(n) => n,
            None => default_history_turns(),
        },
        ignore_groups: match file.ignore_groups {
            Some(ignore) => ignore,
            None => default_ignore_groups(),
        },
    }
}

impl Config {
    /// Whether this is what the config file, the two secrets and the system
    /// prompt ask for.
    pub open spec fn follows(
        self,
        file: FileConfig,
        db_key: String,
        api_key: String,
        system_prompt: Seq<char>,
    ) -> bool {
        &&& self.identity.db_path == file.identity.db_path
        &&& self.identity.db_key == db_key
        &&& self.identity.registry_url == file.identity.registry_url
        &&& self.llm.base_url == file.llm.base_url
        &&& self.llm.model == file.llm.model
        &&& self.llm.api_key == api_key
        &&& self.llm.max_output_tokens == set_or(file.llm.max_output_tokens, 512)
        &&& self.llm.temperature_bits == set_or(file.llm.temperature_bits, 0x3f33_3333)
        &&& self.llm.request_timeout@ == set_or(file.llm.request_timeout_secs, 60) * 1_000_000_000
        &&& self.llm.workers == set_or(file.llm.workers, 4)
        &&& limits_follow(self.limits, file.limits)
        &&& self.behavior.greeting@ == greeting_of(file.behavior)
        &&& self.behavior.system_prompt@ == crate::text::trimmed(system_prompt)
        &&& self.behavior.history_turns == history_turns_of(file.behavior)
        &&& self.behavior.ignore_groups == ignore_groups_of(file.behavior)
    }

    /// Merge the config file, the two secrets and the contents of the system
    /// prompt's file: what the file leaves out takes its default, and the prompt
    /// is trimmed.
    pub fn resolve(
        file: FileConfig,
        db_key: String,
        api_key: String,
        system_prompt: &str,
    ) -> (config: Config)
        ensures
            config.follows(file, db_key, api_key, system_prompt@),
    {
        Config {
            identity: Identity {
                db_path: file.identity.db_path,
                db_key,
                registry_url: file.identity.registry_url,
            },
            llm: Llm {
                base_url: file.llm.base_url,
                model: file.llm.model,
                api_key,
                max_output_tokens: match file.llm.max_output_tokens {
                    Some(n) => n,
                    None => default_max_output_tokens(),
                },
                temperature_bits: match file.llm.temperature_bits {
                    Some(bits) => bits,
                    None => default_temperature(),
                },
                request_timeout: Duration::from_secs(
                    match file.llm.request_timeout_secs {
                        Some(secs) => secs,
                        None => default_request_timeout_secs(),
                    },
                ),
                workers: match file.llm.workers {
                    Some(n) => n,
                    None => default_workers(),
                },
            },
            limits: resolve_limits(file.limits),
            behavior: resolve_behavior(file.behavior, system_prompt),
        }
    }
}

/// Settle the configuration from what was read: the first failure decides, in
/// the order of the config file, the two secrets and the system prompt.
pub fn settle_config(
    file: Result<FileConfig, ConfigError>,
    db_key: Result<String, ConfigError>,
    api_key: Result<String, ConfigError>,
    prompt: Result<String, ConfigError>,
) -> (settled: Result<Config, ConfigError>)
    ensures
        match (file, db_key, api_key, prompt) {
            (Err(err), _, _, _) => settled == Err::<Config, ConfigError>(err),
            (Ok(_), Err(err), _, _) => settled == Err::<Config, ConfigError>(err),
            (Ok(_), Ok(_), Err(err), _) => settled == Err::<Config, ConfigError>(err),
            (Ok(_), Ok(_), Ok(_), Err(err)) => settled == Err::<Config, ConfigError>(err),
            (Ok(file), Ok(db_key), Ok(api_key), Ok(prompt)) => settled is Ok
                && settled->Ok_0.follows(file, db_key, api_key, prompt@),
        },
{
    match (file, db_key, api_key, prompt) {
        (Err(err), _, _, _) => Err(err),
        (Ok(_), Err(err), _, _) => Err(err),
        (Ok(_), Ok(_), Err(err), _) => Err(err),
        (Ok(_), Ok(_), Ok(_), Err(err)) => Err(err),
        (Ok(file), Ok(db_key), Ok(api_key), Ok(prompt)) => Ok(
            Config::resolve(file, db_key, api_key, prompt.as_str()),
        ),
    }
}

/// The secret to use: the environment's value first, the credential file's
/// second; an empty value counts as none.
pub open spec fn secret_of(env: Option<String>, credential: Option<String>) -> Option<Seq<char>> {
    if env is Some && env->0@.len() > 0 {
        Some(env->0@)
    } else if credential is Some && credential->0@.len() > 0 {
        Some(credential->0@)
    } else {
        None
    }
}

/// The secret held by the environment variable `var` (whose value is `env`), or
/// else by its credential file (whose contents are `credential`).
pub fn require_secret(
    var: &'static str,
    env: Option<String>,
    credential: Option<String>,
) -> (secret: Result<String, ConfigError>)
    ensures
        match secret {
            Ok(value) => secret_of(env, credential) == Some(value@),
            Err(err) => secret_of(env, credential) is None && err == ConfigError::MissingSecret(
                var,
            ),
        },
{
    if let Some(value) = env {
        if !value.as_str().is_empty() {
            return Ok(value);
        }
    }
    if let Some(value) = credential {
        if !value.as_str().is_empty() {
            return Ok(value);
        }
    }
    Err(ConfigError::MissingSecret(var))
}

/// Whether a path is absolute on the platform that the library is built for, as
/// `Path::is_absolute` answers it.
pub uninterp spec fn path_is_absolute(path: Seq<char>) -> bool;

/// A path without its final component on the platform that the library is built
/// for, as `Path::parent` gives it.
pub uninterp spec fn path_parent(path: Seq<char>) -> Option<Seq<char>>;

/// A path adjoined to a directory on the platform that the library is built for,
/// as `Path::join` gives it.
pub uninterp spec fn path_join(dir: Seq<char>, path: Seq<char>) -> Seq<char>;

/// `std::path::Path::is_absolute`: answered by the path's text alone.
#[verifier::external_body]
fn is_absolute(path: &str) -> (absolute: bool)
    ensures
        absolute == path_is_absolute(path@),
{
    std::path::Path::new(path).is_absolute()
}

/// `std::path::Path::parent`: the path without its final component, if it has
/// one, told by the path's text alone. It is cut off at a separator, so what is
/// left of a text is a text.
#[verifier::external_body]
fn parent(path: &str) -> (dir: Option<String>)
    ensures
        (match dir {
            Some(d) => Some(d@),
            None => None,
        }) == path_parent(path@),
{
    std::path::Path::new(path).parent().map(|dir| dir.to_string_lossy().into_owned())
}

/// `std::path::Path::join`: the two texts alone tell the path they make.
#[verifier::external_body]
fn join(dir: &str, path: &str) -> (joined: String)
    ensures
        joined@ == path_join(dir@, path@),
{
    std::path::Path::new(dir).join(path).to_string_lossy().into_owned()
}

/// The directory that a path is relative to: the config file's, unless the path
/// is absolute or the config file stands in the current directory.
pub fn base_directory(absolute: bool, config_dir: Option<String>) -> (dir: Option<String>)
    ensures
        dir == (if !absolute && config_dir is Some && config_dir->0@.len() > 0 {
            config_dir
        } else {
            None
        }),
{
    if absolute {
        return None;
    }
    match config_dir {
        Some(dir) => {
            if dir.as_str().is_empty() {
                None
            } else {
                Some(dir)
            }
        },
        None => None,
    }
}

/// The path that `target` stands for in the config file at `config_path`.
pub open spec fn resolved_path(config_path: Seq<char>, target: Seq<char>) -> Seq<char> {
    if path_is_absolute(target) {
        target
    } else {
        match path_parent(config_path) {
            Some(dir) => if dir.len() > 0 {
                path_join(dir, target)
            } else {
                target
            },
            None => target,
        }
    }
}

/// Resolve `target` relative to the config file's directory, unless it is
/// already absolute.
pub fn resolve_relative(config_path: &str, target: &str) -> (path: String)
    ensures
        path@ == resolved_path(config_path@, target@),
{
    match base_directory(is_absolute(target), parent(config_path)) {
        Some(dir) => join(dir.as_str(), target),
        None => target.to_owned(),
    }
}

/// An absolute path stands for itself wherever the config file is; any other is
/// looked for in the directory of the config file, which its name alone stands
/// for where it has none.
pub proof fn law_relative_paths_start_at_the_config_file(
    config_path: Seq<char>,
    other_path: Seq<char>,
    target: Seq<char>,
    dir: Seq<char>,
)
    ensures
        path_is_absolute(target) ==> resolved_path(config_path, target) == target,
        !path_is_absolute(target) && path_parent(config_path) == Some(dir) && dir.len() > 0
            ==> resolved_path(config_path, target) == path_join(dir, target),
        path_parent(config_path) is None ==> resolved_path(config_path, target) == target,
        path_parent(config_path) is Some && path_parent(config_path)->0.len() == 0
            ==> resolved_path(config_path, target) == target,
        path_parent(config_path) == path_parent(other_path) ==> resolved_path(config_path, target)
            == resolved_path(other_path, target),
{
}

/// The environment comes before the credential file, and an empty value of
/// either counts as none: a secret is missing only if both are absent or empty,
/// and otherwise is the one of them that is used, whole.
pub proof fn law_environment_comes_first(env: Option<String>, credential: Option<String>)
    ensures
        env is Some && env->0@.len() > 0 ==> secret_of(env, credential) == Some(env->0@),
        (env is None || env->0@.len() == 0) && credential is Some && credential->0@.len() > 0
            ==> secret_of(env, credential) == Some(credential->0@),
        (env is None || env->0@.len() == 0) && (credential is None || credential->0@.len() == 0)
            ==> secret_of(env, credential) is None,
{
}

/// Every setting of `[identity]` and `[llm]` that the file gives is kept as it is
/// given, and what it leaves out takes its documented default; the two secrets
/// go where they belong.
pub proof fn law_llm_settings_are_kept(
    config: Config,
    file: FileConfig,
    db_key: String,
    api_key: String,
    prompt: Seq<char>,
)
    requires
        config.follows(file, db_key, api_key, prompt),
    ensures
        config.identity.db_path@ == file.identity.db_path@,
        config.identity.registry_url == file.identity.registry_url,
        config.identity.db_key@ == db_key@,
        config.llm.api_key@ == api_key@,
        config.llm.base_url@ == file.llm.base_url@,
        config.llm.model@ == file.llm.model@,
        file.llm.max_output_tokens is Some ==> config.llm.max_output_tokens
            == file.llm.max_output_tokens->0,
        file.llm.max_output_tokens is None ==> config.llm.max_output_tokens == 512,
        file.llm.temperature_bits is Some ==> config.llm.temperature_bits
            == file.llm.temperature_bits->0,
        file.llm.temperature_bits is None ==> config.llm.temperature_bits == 0x3f33_3333,
        file.llm.request_timeout_secs is Some ==> config.llm.request_timeout@
            == file.llm.request_timeout_secs->0 * 1_000_000_000,
        file.llm.request_timeout_secs is None ==> config.llm.request_timeout@ == 60_000_000_000,
        file.llm.workers is Some ==> config.llm.workers == file.llm.workers->0,
        file.llm.workers is None ==> config.llm.workers == 4,
{
}

/// Every setting of `[limits]` that the file gives is kept as it is given; what
/// the section leaves out, or the file without it, takes its documented default.
pub proof fn law_limits_are_kept(
    config: Config,
    file: FileConfig,
    db_key: String,
    api_key: String,
    prompt: Seq<char>,
)
    requires
        config.follows(file, db_key, api_key, prompt),
    ensures
        file.limits is Some ==> {
            let section = file.limits->0;
            let limits = config.limits;
            &&& limits.per_convo_max_messages == section.per_convo_max_messages
            &&& limits.per_convo_window@ == section.per_convo_window_secs * 1_000_000_000
            &&& limits.daily_max_messages == section.global_daily_max_messages
            &&& limits.daily_max_tokens == section.global_daily_max_tokens
            &&& section.max_active_conversations is Some ==> limits.max_active_conversations
                == section.max_active_conversations->0
            &&& section.max_active_conversations is None ==> limits.max_active_conversations
                == 1_024
            &&& section.max_known_conversations is Some ==> limits.max_known_conversations
                == section.max_known_conversations->0
            &&& section.max_known_conversations is None ==> limits.max_known_conversations
                == 65_536
        },
        file.limits is None ==> {
            let limits = config.limits;
            &&& limits.per_convo_max_messages == 10
            &&& limits.per_convo_window@ == 300_000_000_000
            &&& limits.daily_max_messages == 2_000
            &&& limits.daily_max_tokens == 500_000
            &&& limits.max_active_conversations == 1_024
            &&& limits.max_known_conversations == 65_536
        },
{
}

/// Every setting of `[behavior]` that the file gives is kept as it is given; what
/// the section leaves out, or the file without it, takes its documented default.
/// The system prompt is the whole prompt file, but for whitespace at its ends.
pub proof fn law_behavior_is_kept(
    config: Config,
    file: FileConfig,
    db_key: String,
    api_key: String,
    front: Seq<char>,
    prompt: Seq<char>,
    back: Seq<char>,
)
    requires
        config.follows(file, db_key, api_key, front + prompt + back),
        crate::text::is_blank(front),
        crate::text::is_blank(back),
        crate::text::is_trim(prompt),
    ensures
        config.behavior.system_prompt@ == prompt,
        file.behavior is Some && file.behavior->0.greeting is Some
            ==> config.behavior.greeting@ == file.behavior->0.greeting->0@,
        file.behavior is None || file.behavior->0.greeting is None ==> config.behavior.greeting@
            == "Hi, I'm an AI assistant. Ask me anything."@,
        file.behavior is Some && file.behavior->0.history_turns is Some
            ==> config.behavior.history_turns == file.behavior->0.history_turns->0,
        file.behavior is None || file.behavior->0.history_turns is None
            ==> config.behavior.history_turns == 8,
        file.behavior is Some && file.behavior->0.ignore_groups is Some
            ==> config.behavior.ignore_groups == file.behavior->0.ignore_groups->0,
        file.behavior is None || file.behavior->0.ignore_groups is None
            ==> config.behavior.ignore_groups,
{
    crate::text::law_trimming_takes_off_the_ends_only(front, prompt, back);
}

/// The operator is told what could not be had, where, and why, in whole.
pub proof fn law_config_errors_have_their_words(path: String, reason: String, var: &'static str)
    ensures
        (ConfigError::Read { path, reason }).text() == "reading config file "@ + path@ + ": "@
            + reason@,
        (ConfigError::Parse { path, reason }).text() == "parsing config file "@ + path@ + ": "@
            + reason@,
        (ConfigError::SystemPrompt { path, reason }).text() == "reading system prompt "@ + path@
            + ": "@ + reason@,
        ConfigError::MissingSecret(var).text() == "missing required environment variable "@ + var@
            + " (it holds a secret; set it in the environment, never in the config file)"@,
{
}

} // verus!

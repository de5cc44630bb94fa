use dialogos::cli::{config_path_from_args, ArgsError, Command};
use dialogos::config::{
    base_directory, require_secret, resolve_relative, settle_config, Config, ConfigError,
    FileBehavior, FileConfig, FileIdentity, FileLimits, FileLlm, Identity, DB_KEY_ENV, LLM_API_KEY_ENV,
};
use dialogos::time::Duration;

fn text(table: &toml::Table, key: &str) -> Option<String> {
    table.get(key).and_then(|v| v.as_str()).map(str::to_string)
}

/// Read a config file whose keys are all known.
fn read(file: &str) -> FileConfig {
    let table: toml::Table = toml::from_str(file).unwrap();
    let identity = table["identity"].as_table().unwrap();
    let llm = table["llm"].as_table().unwrap();
    FileConfig {
        identity: FileIdentity {
            db_path: text(identity, "db_path").unwrap(),
            registry_url: text(identity, "registry_url"),
        },
        llm: FileLlm {
            base_url: text(llm, "base_url").unwrap(),
            model: text(llm, "model").unwrap(),
            system_prompt_path: text(llm, "system_prompt_path").unwrap(),
            max_output_tokens: llm
                .get("max_output_tokens")
                .map(|v| v.as_integer().unwrap() as u32),
            temperature_bits: llm
                .get("temperature")
                .map(|v| (v.as_float().unwrap() as f32).to_bits()),
            request_timeout_secs: llm
                .get("request_timeout_secs")
                .map(|v| v.as_integer().unwrap() as u64),
            workers: llm.get("workers").map(|v| v.as_integer().unwrap() as usize),
        },
        limits: None,
        behavior: None,
    }
}

#[test]
fn parses_a_minimal_file_with_defaulted_sections() {
    let toml = r#"
            [identity]
            db_path = "./dialogos.db"

            [llm]
            base_url = "https://openrouter.ai/api/v1"
            model = "some/model:free"
            system_prompt_path = "./system-prompt.txt"
        "#;
    let config = Config::resolve(
        read(toml),
        "db key".to_string(),
        "api key".to_string(),
        "\n  be terse \n",
    );
    assert_eq!(config.llm.max_output_tokens, 512);
    assert_eq!(config.llm.workers, 4);
    assert_eq!(config.limits.per_convo_max_messages, 10);
    assert_eq!(config.limits.max_active_conversations, 1_024);
    assert_eq!(config.limits.max_known_conversations, 65_536);
    assert!(config.behavior.ignore_groups);
    assert_eq!(config.identity.registry_url, None);

    assert_eq!(f32::from_bits(config.llm.temperature_bits), 0.7);
    assert_eq!(config.llm.request_timeout, Duration::from_secs(60));
    assert_eq!(config.llm.base_url, "https://openrouter.ai/api/v1");
    assert_eq!(config.llm.model, "some/model:free");
    assert_eq!(config.llm.api_key, "api key");
    assert_eq!(config.limits.per_convo_window, Duration::from_secs(300));
    assert_eq!(config.limits.daily_max_messages, 2_000);
    assert_eq!(config.limits.daily_max_tokens, 500_000);
    assert_eq!(
        config.behavior.greeting,
        "Hi, I'm an AI assistant. Ask me anything."
    );
    assert_eq!(config.behavior.history_turns, 8);
    assert_eq!(config.behavior.system_prompt, "be terse");
    assert_eq!(config.identity.db_path, "./dialogos.db");
    assert_eq!(config.identity.db_key, "db key");
}

#[test]
fn what_the_file_sets_is_kept() {
    let toml = r#"
            [identity]
            db_path = "x"
            registry_url = "https://registry"

            [llm]
            base_url = "u"
            model = "m"
            system_prompt_path = "p"
            max_output_tokens = 7
            temperature = 0.25
            request_timeout_secs = 9
            workers = 2
        "#;
    let mut file = read(toml);
    file.limits = Some(FileLimits {
        per_convo_max_messages: 1,
        per_convo_window_secs: 2,
        global_daily_max_messages: 3,
        global_daily_max_tokens: 4,
        max_active_conversations: Some(5),
        max_known_conversations: None,
    });
    file.behavior = Some(FileBehavior {
        greeting: Some(String::new()),
        history_turns: None,
        ignore_groups: Some(false),
    });
    let config = Config::resolve(file, String::new(), String::new(), "");
    assert_eq!(
        config.identity.registry_url.as_deref(),
        Some("https://registry")
    );
    assert_eq!(config.llm.max_output_tokens, 7);
    assert_eq!(f32::from_bits(config.llm.temperature_bits), 0.25);
    assert_eq!(config.llm.request_timeout, Duration::from_secs(9));
    assert_eq!(config.llm.workers, 2);
    assert_eq!(config.limits.per_convo_max_messages, 1);
    assert_eq!(config.limits.per_convo_window, Duration::from_secs(2));
    assert_eq!(config.limits.daily_max_messages, 3);
    assert_eq!(config.limits.daily_max_tokens, 4);
    assert_eq!(config.limits.max_active_conversations, 5);
    assert_eq!(config.limits.max_known_conversations, 65_536);
    assert_eq!(config.behavior.greeting, "");
    assert_eq!(config.behavior.history_turns, 8);
    assert!(!config.behavior.ignore_groups);
}

#[test]
fn resolves_prompt_path_relative_to_config_dir() {
    let resolved = resolve_relative("/etc/dialogos/config.toml", "system-prompt.txt");
    assert_eq!(resolved, "/etc/dialogos/system-prompt.txt");

    let absolute = resolve_relative("/etc/dialogos/config.toml", "/opt/prompt.txt");
    assert_eq!(absolute, "/opt/prompt.txt");
}

#[test]
fn a_config_file_in_the_current_directory_adds_nothing() {
    assert_eq!(
        resolve_relative("dialogos.toml", "system-prompt.txt"),
        "system-prompt.txt"
    );
    assert_eq!(resolve_relative("/", "system-prompt.txt"), "system-prompt.txt");
    assert_eq!(
        resolve_relative("conf/dialogos.toml", "./p.txt"),
        "conf/./p.txt"
    );
    assert_eq!(base_directory(true, Some("d".to_string())), None);
    assert_eq!(base_directory(false, Some(String::new())), None);
    assert_eq!(base_directory(false, None), None);
    assert_eq!(
        base_directory(false, Some("d".to_string())),
        Some("d".to_string())
    );
}

#[test]
fn the_environment_comes_before_the_credentials() {
    let some = |s: &str| Some(s.to_string());
    assert_eq!(
        require_secret(DB_KEY_ENV, some("env"), some("file")).unwrap(),
        "env"
    );
    assert_eq!(
        require_secret(DB_KEY_ENV, None, some("file")).unwrap(),
        "file"
    );
    assert_eq!(
        require_secret(DB_KEY_ENV, some(""), some("file")).unwrap(),
        "file"
    );
    assert!(matches!(
        require_secret(LLM_API_KEY_ENV, None, None),
        Err(ConfigError::MissingSecret("LLM_API_KEY"))
    ));
    assert!(matches!(
        require_secret(DB_KEY_ENV, some(""), some("")),
        Err(ConfigError::MissingSecret("DIALOGOS_DB_KEY"))
    ));
}

#[test]
fn errors_read_as_documented() {
    let path = "a.toml".to_string();
    let reason = "no such file".to_string();
    assert_eq!(
        ConfigError::Read {
            path: path.clone(),
            reason: reason.clone()
        }
        .message(),
        "reading config file a.toml: no such file"
    );
    assert_eq!(
        ConfigError::Parse {
            path: path.clone(),
            reason: reason.clone()
        }
        .message(),
        "parsing config file a.toml: no such file"
    );
    assert_eq!(
        ConfigError::SystemPrompt { path, reason }.message(),
        "reading system prompt a.toml: no such file"
    );
    assert_eq!(
        ConfigError::MissingSecret(LLM_API_KEY_ENV).message(),
        "missing required environment variable LLM_API_KEY (it holds a secret; set it in the environment, never in the config file)"
    );
}

#[test]
fn the_budget_is_kept_next_to_the_store() {
    let identity = Identity {
        db_path: "/var/lib/dialogos/store.db".to_string(),
        db_key: String::new(),
        registry_url: None,
    };
    assert_eq!(
        identity.budget_path(),
        "/var/lib/dialogos/store.db.budget.json"
    );
}

#[test]
fn arguments_name_the_config_file() {
    let parse = |args: &[&str]| {
        let args: Vec<String> = args.iter().map(|a| a.to_string()).collect();
        config_path_from_args(&args)
    };
    let run = |path: &str| Ok(Command::Run(path.to_string()));
    assert_eq!(parse(&[]), run("dialogos.toml"));
    assert_eq!(parse(&["--config", "a"]), run("a"));
    assert_eq!(parse(&["-c", "a", "--config", "b"]), run("b"));
    assert_eq!(parse(&["-c", "--help"]), run("--help"));
    assert_eq!(parse(&["-c", "a", "-h"]), Ok(Command::Help));
    assert_eq!(parse(&["--help", "nonsense"]), Ok(Command::Help));
    assert_eq!(parse(&["-c"]), Err(ArgsError::MissingPath));
    assert_eq!(
        parse(&["nonsense", "--help"]),
        Err(ArgsError::Unexpected("nonsense".to_string()))
    );
    assert_eq!(
        ArgsError::MissingPath.message(),
        "--config requires a path argument"
    );
    assert_eq!(
        ArgsError::Unexpected("x".to_string()).message(),
        "unexpected argument: x"
    );
}

#[test]
fn the_first_failure_decides() {
    let file = || {
        Ok(read(
            "[identity]\ndb_path = 'd'\n[llm]\nbase_url = 'u'\nmodel = 'm'\nsystem_prompt_path = 'p'",
        ))
    };
    let key = |text: &str| Ok(text.to_string());
    let missing = |var: &'static str| Err(ConfigError::MissingSecret(var));
    let no_file = || {
        Err(ConfigError::Read {
            path: "c".to_string(),
            reason: "r".to_string(),
        })
    };
    let no_prompt = || {
        Err(ConfigError::SystemPrompt {
            path: "p".to_string(),
            reason: "r".to_string(),
        })
    };
    assert!(matches!(
        settle_config(no_file(), missing("A"), missing("B"), no_prompt()),
        Err(ConfigError::Read { .. })
    ));
    assert!(matches!(
        settle_config(file(), missing("A"), missing("B"), no_prompt()),
        Err(ConfigError::MissingSecret("A"))
    ));
    assert!(matches!(
        settle_config(file(), key("k"), missing("B"), no_prompt()),
        Err(ConfigError::MissingSecret("B"))
    ));
    assert!(matches!(
        settle_config(file(), key("k"), key("l"), no_prompt()),
        Err(ConfigError::SystemPrompt { .. })
    ));
    let config = settle_config(file(), key("k"), key("l"), key(" be terse\n")).unwrap();
    assert_eq!(config.identity.db_key, "k");
    assert_eq!(config.llm.api_key, "l");
    assert_eq!(config.behavior.system_prompt, "be terse");
}

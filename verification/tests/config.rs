use launcher::config::{bool_env, cdlc_depot_id, parse_cdlc_list, Config, ConfigEnv, ConfigError, SteamAuth};

fn s(v: &str) -> Option<String> {
    Some(v.to_string())
}

fn empty_env() -> ConfigEnv {
    ConfigEnv {
        skip_install: None,
        mods_preset: None,
        anonymous_login: None,
        steam_user: None,
        steam_password: None,
        arma_binary: None,
        arma_cdlc: None,
        mods_local: None,
    }
}

#[test]
fn bool_env_reads_true_in_any_case() {
    assert!(bool_env(&s("true"), false));
    assert!(bool_env(&s("TRUE"), false));
    assert!(bool_env(&s("TrUe"), false));
    assert!(!bool_env(&s("yes"), true));
    assert!(!bool_env(&s("1"), true));
    assert!(!bool_env(&s(""), true));
    assert!(!bool_env(&s(" true"), true));
    assert!(bool_env(&None, true));
    assert!(!bool_env(&None, false));
}

#[test]
fn skip_install_without_preset_needs_no_credentials() {
    let mut env = empty_env();
    env.skip_install = s("true");
    let cfg = Config::from_env(&env).ok().expect("no credentials are needed");
    assert!(cfg.steam_auth.is_none());
    assert!(cfg.skip_install);
    assert!(cfg.mods_preset.is_none());
}

#[test]
fn skip_install_with_empty_preset_needs_no_credentials() {
    let mut env = empty_env();
    env.skip_install = s("True");
    env.mods_preset = s("");
    let cfg = Config::from_env(&env).ok().expect("an empty preset is no preset");
    assert!(cfg.steam_auth.is_none());
    assert!(cfg.mods_preset.is_none());
}

#[test]
fn install_without_user_is_refused() {
    let env = empty_env();
    match Config::from_env(&env) {
        Err(ConfigError::MissingEnv { key }) => assert_eq!(key, "STEAM_USER"),
        Ok(_) => panic!("credentials are required"),
    }
}

#[test]
fn install_without_password_is_refused() {
    let mut env = empty_env();
    env.steam_user = s("admin");
    match Config::from_env(&env) {
        Err(ConfigError::MissingEnv { key }) => assert_eq!(key, "STEAM_PASSWORD"),
        Ok(_) => panic!("a password is required"),
    }
}

#[test]
fn preset_needs_steam_even_when_skipping_install() {
    let mut env = empty_env();
    env.skip_install = s("true");
    env.mods_preset = s("preset.html");
    match Config::from_env(&env) {
        Err(ConfigError::MissingEnv { key }) => assert_eq!(key, "STEAM_USER"),
        Ok(_) => panic!("a preset needs a Steam session"),
    }
}

#[test]
fn anonymous_login_needs_no_credentials() {
    let mut env = empty_env();
    env.anonymous_login = s("true");
    let cfg = Config::from_env(&env).ok().unwrap();
    assert!(matches!(cfg.steam_auth, Some(SteamAuth::Anonymous)));
}

#[test]
fn credentials_are_taken_from_the_environment() {
    let mut env = empty_env();
    env.steam_user = s("admin");
    env.steam_password = s("SECRET-REDACTED");
    env.arma_cdlc = s(" GM ; vn;;Csla ;");
    env.arma_binary = s("arma3serverprofiling_x64");
    env.mods_local = s("false");
    env.mods_preset = s("https://example.org/preset.html");
    let cfg = Config::from_env(&env).ok().unwrap();
    match &cfg.steam_auth {
        Some(SteamAuth::Credentials { user, password }) => {
            assert_eq!(user, "admin");
            assert_eq!(password, "SECRET-REDACTED");
        }
        _ => panic!("credentials expected"),
    }
    assert_eq!(cfg.arma_cdlc, vec!["gm".to_string(), "vn".to_string(), "csla".to_string()]);
    assert!(cfg.wants_profiling());
    assert!(!cfg.mods_local);
    assert!(!cfg.skip_install);
    assert_eq!(cfg.mods_preset.as_deref(), Some("https://example.org/preset.html"));
    assert_eq!(cfg.cdlc_depot_ids(), vec![233792, 233794, 233793]);
}

#[test]
fn defaults_of_an_empty_environment() {
    let mut env = empty_env();
    env.anonymous_login = s("TRUE");
    let cfg = Config::from_env(&env).ok().unwrap();
    assert_eq!(cfg.arma_binary, "./arma3server_x64");
    assert!(cfg.arma_cdlc.is_empty());
    assert!(cfg.mods_local);
    assert!(!cfg.wants_profiling());
    assert!(cfg.cdlc_depot_ids().is_empty());
}

#[test]
fn unknown_cdlc_names_are_skipped() {
    let mut env = empty_env();
    env.skip_install = s("true");
    env.arma_cdlc = s("gm;bogus;csla;GM");
    let cfg = Config::from_env(&env).ok().unwrap();
    assert_eq!(cfg.cdlc_depot_ids(), vec![233792, 233793, 233792]);
}

#[test]
fn every_known_cdlc_has_its_depot() {
    assert_eq!(cdlc_depot_id("csla"), Some(233793));
    assert_eq!(cdlc_depot_id("gm"), Some(233792));
    assert_eq!(cdlc_depot_id("vn"), Some(233794));
    assert_eq!(cdlc_depot_id("ws"), Some(233795));
    assert_eq!(cdlc_depot_id("spe"), Some(233788));
    assert_eq!(cdlc_depot_id("rf"), Some(233799));
    assert_eq!(cdlc_depot_id("ef"), Some(233798));
    assert_eq!(cdlc_depot_id("GM"), None);
    assert_eq!(cdlc_depot_id(""), None);
}

#[test]
fn cdlc_lists_agree_with_split_trim_lowercase() {
    let samples = [
        "", ";", "a", " A ;b", "\u{a0}Ws\u{2003};\tEF\n", "ÄB;;c;", "İ", " ; ; ", "x;y;z",
    ];
    for raw in samples {
        let expected: Vec<String> = raw
            .split(';')
            .map(|p| p.trim().to_lowercase())
            .filter(|p| !p.is_empty())
            .collect();
        assert_eq!(parse_cdlc_list(raw), expected, "on {:?}", raw);
    }
}

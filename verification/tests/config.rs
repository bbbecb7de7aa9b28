use agent_gh::config::{config_home, Config, ConfigFile};

const BASE: &str = "/home/agent/.config/agent-gh";

fn file(private_key_path: &str) -> ConfigFile {
    ConfigFile {
        app_id: 1_234_567,
        installation_id: 98_765_432,
        private_key_path: private_key_path.to_owned(),
        run_as_user: Vec::new(),
    }
}

#[test]
fn resolves_relative_key_path_against_config_directory() {
    let config = Config::parse(file("keys/app.pem"), BASE).expect("configuration is valid");
    assert_eq!(config.app_id, 1_234_567);
    assert_eq!(config.installation_id, 98_765_432);
    assert_eq!(
        config.private_key_path,
        "/home/agent/.config/agent-gh/keys/app.pem"
    );
}

#[test]
fn keeps_absolute_key_path() {
    let config = Config::parse(file("/tmp/app.pem"), BASE).expect("configuration is valid");
    assert_eq!(config.private_key_path, "/tmp/app.pem");
}

#[test]
fn rejects_empty_key_path() {
    let message = match Config::parse(file(""), BASE) {
        Ok(_) => panic!("configuration should be rejected"),
        Err(message) => message,
    };
    assert!(message.contains("private_key_path"), "{message}");
}

#[test]
fn names_the_file_in_errors() {
    let path = "/home/agent/.config/agent-gh/config.toml";
    match Config::load(path, Err("missing field `installation_id`".to_owned())) {
        Ok(_) => panic!("configuration should be rejected"),
        Err(message) => assert_eq!(
            message,
            "parsing /home/agent/.config/agent-gh/config.toml: missing field `installation_id`"
        ),
    }
    match Config::load(path, Ok(file(""))) {
        Ok(_) => panic!("configuration should be rejected"),
        Err(message) => assert_eq!(
            message,
            "parsing /home/agent/.config/agent-gh/config.toml: private_key_path must not be empty"
        ),
    }
    let config = Config::load(path, Ok(file("app.pem"))).expect("configuration is valid");
    assert_eq!(config.private_key_path, "/home/agent/.config/agent-gh/app.pem");
    let config = Config::load("config.toml", Ok(file("app.pem"))).expect("configuration is valid");
    assert_eq!(config.private_key_path, "app.pem");
}

#[test]
fn defaults_config_home_to_dot_config_in_home() {
    for xdg_config_home in [None, Some(""), Some("relative/config")] {
        let dir = config_home(xdg_config_home, Some("/home/agent")).expect("home is known");
        assert_eq!(dir, "/home/agent/.config", "{xdg_config_home:?}");
    }
}

#[test]
fn uses_absolute_xdg_config_home() {
    let dir = config_home(Some("/tmp/xdg-config"), Some("/home/agent")).expect("XDG is used");
    assert_eq!(dir, "/tmp/xdg-config");
}

#[test]
fn reports_missing_home_directory() {
    let result = config_home(None, None);
    assert!(result.is_err(), "{result:?}");
    assert_eq!(result, Err("the user has no home directory".to_owned()));
}

#[test]
fn splits_run_as_user_entries_into_words() {
    let file = ConfigFile {
        run_as_user: vec!["pr  create".to_owned(), " pr\tnew ".to_owned(), String::new()],
        ..file("app.pem")
    };
    let config = Config::parse(file, BASE).expect("configuration is valid");
    assert_eq!(
        config.run_as_user,
        vec![vec!["pr".to_owned(), "create".to_owned()], vec!["pr".to_owned(), "new".to_owned()], vec![]]
    );
}

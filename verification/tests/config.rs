use horde::config::{get_db_path, get_domains, get_storage, AppConfig, Config};

fn sample() -> Config {
    Config {
        global: AppConfig {
            db: String::from("horde.db"),
            domains: vec![String::from("horde.local"), String::from("example.org")],
            storage: String::from("/var/lib/horde/"),
        },
    }
}

#[test]
fn config_getters_hand_back_the_settings() {
    let config = sample();
    assert_eq!(get_db_path(&config), "horde.db");
    assert_eq!(get_storage(&config), "/var/lib/horde/");
    let domains = get_domains(&config);
    assert_eq!(domains.len(), 2);
    assert_eq!(domains[0], "horde.local");
    assert_eq!(domains[1], "example.org");
}

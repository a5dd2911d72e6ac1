use login_demo::startup::{default_database_url, default_listen_addr, sqlite_file_path};

#[test]
fn sqlite_url_names_its_file() {
    assert_eq!(sqlite_file_path("sqlite:data/login_demo.db?mode=rwc"), Some("data/login_demo.db".to_string()));
    assert_eq!(sqlite_file_path("sqlite:plain.db"), Some("plain.db".to_string()));
    assert_eq!(sqlite_file_path("sqlite:"), Some(String::new()));
    assert_eq!(sqlite_file_path("postgres://x/y"), None);
    assert_eq!(sqlite_file_path("sqlit"), None);
}

#[test]
fn default_settings() {
    assert_eq!(default_listen_addr(), "0.0.0.0:3000");
    assert_eq!(sqlite_file_path(default_database_url()), Some("data/login_demo.db".to_string()));
}

use sakuin::cli::{
    check_score, display_title, effective_server, effective_token, progress_suffix,
    require_token, CommandError, Config,
};

#[test]
fn saved_server_wins_and_command_line_token_wins() {
    assert_eq!(
        effective_server(Some("https://a".to_string()), "https://b".to_string()),
        "https://a"
    );
    assert_eq!(effective_server(None, "https://b".to_string()), "https://b");
    assert_eq!(
        effective_token(Some("cli".to_string()), Some("saved".to_string())),
        Some("cli".to_string())
    );
    assert_eq!(effective_token(None, Some("saved".to_string())), Some("saved".to_string()));
    assert_eq!(effective_token(None, None), None);
}

#[test]
fn config_update_keeps_what_is_not_given() {
    let mut config = Config::new();
    config.update(Some("https://sakuin.test".to_string()), None);
    assert_eq!(config.server.as_deref(), Some("https://sakuin.test"));
    assert_eq!(config.token, None);
    config.update(None, Some("token".to_string()));
    assert_eq!(config.server.as_deref(), Some("https://sakuin.test"));
    assert_eq!(config.token.as_deref(), Some("token"));
}

#[test]
fn token_is_required_for_tracker_commands() {
    assert_eq!(require_token(Some("t".to_string())).unwrap(), "t");
    let err = require_token(None).unwrap_err();
    assert!(matches!(err, CommandError::TokenRequired));
    assert_eq!(err.message(), "API token required. Run: sakuin config --token <token>");
}

#[test]
fn scores_must_lie_between_one_and_ten() {
    assert!(check_score(1).is_ok());
    assert!(check_score(10).is_ok());
    assert_eq!(check_score(0).unwrap_err().message(), "Score must be 1-10");
    assert!(check_score(11).is_err());
    assert!(check_score(-5).is_err());
}

#[test]
fn titles_and_progress_for_listings() {
    assert_eq!(display_title(Some("E".to_string()), Some("R".to_string())), "E");
    assert_eq!(display_title(None, Some("R".to_string())), "R");
    assert_eq!(display_title(None, None), "");
    assert_eq!(progress_suffix(&Some("12".to_string())), " [12]");
    assert_eq!(progress_suffix(&None), "");
}

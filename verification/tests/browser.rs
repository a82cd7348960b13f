use kvs::browser::{
    handle_key, next_state, pane_lines, parent_listing_path, s3_try_from_config, s3_try_from_env,
    App, Config, ConfigError, EnvVar, KeyInput, S3Config, S3EnvVars, State, UiEvent,
};

fn some(s: &str) -> Option<String> {
    Some(s.to_owned())
}

fn full_env() -> S3EnvVars {
    S3EnvVars {
        endpoint: some("https://s3.example"),
        access_key_id: some("id"),
        secret_access_key: some("secret"),
        bucket: some("bucket"),
        region: some("eu"),
    }
}

fn settings() -> S3Config {
    S3Config {
        endpoint: "https://s3.example".to_owned(),
        access_key_id: "id".to_owned(),
        secret_access_key: "k".to_owned(),
        bucket: "data".to_owned(),
        region: "auto".to_owned(),
    }
}

#[test]
fn env_settings_are_taken_as_found() {
    let c = s3_try_from_env(full_env()).unwrap();
    assert_eq!(c.endpoint, "https://s3.example");
    assert_eq!(c.access_key_id, "id");
    assert_eq!(c.secret_access_key, "secret");
    assert_eq!(c.bucket, "bucket");
    assert_eq!(c.region, "eu");
}

#[test]
fn env_region_defaults_to_auto() {
    let mut vars = full_env();
    vars.region = None;
    assert_eq!(s3_try_from_env(vars).unwrap().region, "auto");
}

#[test]
fn env_reports_first_missing_variable() {
    let mut vars = full_env();
    vars.bucket = None;
    vars.access_key_id = None;
    assert_eq!(s3_try_from_env(vars).unwrap_err(), ConfigError::MissingVar(EnvVar::AccessKeyId));

    let mut vars = full_env();
    vars.endpoint = None;
    vars.bucket = None;
    assert_eq!(s3_try_from_env(vars).unwrap_err(), ConfigError::MissingVar(EnvVar::Endpoint));

    let mut vars = full_env();
    vars.secret_access_key = None;
    assert_eq!(s3_try_from_env(vars).unwrap_err(), ConfigError::MissingVar(EnvVar::SecretAccessKey));

    let mut vars = full_env();
    vars.bucket = None;
    assert_eq!(s3_try_from_env(vars).unwrap_err(), ConfigError::MissingVar(EnvVar::Bucket));
}

#[test]
fn config_file_settings() {
    let c = s3_try_from_config(Config {
        endpoint: "e".to_owned(),
        id: "i".to_owned(),
        key: "k".to_owned(),
        bucket: "b".to_owned(),
        region: "r".to_owned(),
    });
    assert_eq!((c.endpoint.as_str(), c.access_key_id.as_str(), c.secret_access_key.as_str()), ("e", "i", "k"));
    assert_eq!((c.bucket.as_str(), c.region.as_str()), ("b", "r"));
}

#[test]
fn current_path_is_prefix_bucket_and_path() {
    let app = App::from_listing(&settings(), "dir/sub/".to_owned(), vec![], vec![]);
    assert_eq!(app.current_path(), "s3://data/dir/sub/");
}

#[test]
fn contents_and_cursors() {
    let app = App::from_listing(
        &settings(),
        "dir/".to_owned(),
        vec!["a".to_owned(), "b/".to_owned()],
        vec!["dir/".to_owned(), "other/".to_owned()],
    );
    assert_eq!(app.current_content(), (vec!["a", "b/"], 0));
    assert_eq!(app.parent_content(), (vec!["dir/", "other/"], 0));
}

#[test]
fn empty_parent_listing_shows_bucket() {
    let app = App::from_listing(&settings(), "".to_owned(), vec!["x".to_owned()], vec![]);
    assert_eq!(app.parent_content(), (vec!["data/"], 0));
}

#[test]
fn pane_lines_mark_the_cursor() {
    let content = vec!["a", "b", "c"];
    assert_eq!(pane_lines(&content, 1), vec![("a", false), ("b", true), ("c", false)]);
    assert_eq!(pane_lines(&content, 7), vec![("a", false), ("b", false), ("c", false)]);
    assert!(pane_lines(&vec![], 0).is_empty());
}

#[test]
fn q_exits_and_other_keys_run() {
    assert_eq!(handle_key(KeyInput::Char('q')), State::Exit);
    assert_eq!(handle_key(KeyInput::Char('Q')), State::Running);
    assert_eq!(handle_key(KeyInput::Other), State::Running);
}

#[test]
fn events_lead_to_states() {
    assert_eq!(next_state(UiEvent::Key(KeyInput::Char('q'))), State::Exit);
    assert_eq!(next_state(UiEvent::Key(KeyInput::Char('j'))), State::Running);
    assert_eq!(next_state(UiEvent::Mouse), State::Running);
    assert_eq!(next_state(UiEvent::Paste), State::Running);
    assert_eq!(next_state(UiEvent::Resize), State::Running);
}

#[test]
fn parent_listing_paths() {
    assert_eq!(parent_listing_path(""), None);
    assert_eq!(parent_listing_path("a"), Some("/".to_owned()));
    assert_eq!(parent_listing_path("a/b"), Some("a/".to_owned()));
    assert_eq!(parent_listing_path("a/b/"), Some("a/".to_owned()));
    assert_eq!(parent_listing_path("/"), None);
}

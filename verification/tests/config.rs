use welly_rs::config::{settings_from_login_form, ConnectionSettings, LoginFormError};

#[test]
fn default_connection_has_no_login_name() {
    let settings = ConnectionSettings::default();

    assert_eq!(settings.host, "bbs.newsmth.net");
    assert_eq!(settings.port, 22);
    assert_eq!(settings.username, None);
    assert_eq!(settings.password, None);
    assert!(settings.identity_files.is_empty());
}

#[test]
fn reads_login_settings_from_matching_newsmth_entry() {
    let mut settings = ConnectionSettings::default();

    settings.apply_ssh_config(
        r#"
Host github.com
    User git

Host bbs.newsmth.net
    User bbs-user
    IdentityFile ~/.ssh/id_ed25519
    IdentitiesOnly yes
"#,
    );

    assert_eq!(settings.host, "bbs.newsmth.net");
    assert_eq!(settings.username.as_deref(), Some("bbs-user"));
    assert_eq!(settings.identity_files.len(), 1);
}

#[test]
fn ignores_hostname_so_deprecated_aliases_do_not_replace_default_host() {
    let mut settings = ConnectionSettings::default();

    settings.apply_ssh_config(
        r#"
Host bbs.newsmth.net
    HostName deprecated.example
    User bbs-user
"#,
    );

    assert_eq!(settings.host, "bbs.newsmth.net");
    assert_eq!(settings.username.as_deref(), Some("bbs-user"));
}

#[test]
fn leaves_username_empty_without_matching_ssh_config_entry() {
    let mut settings = ConnectionSettings::default();

    settings.apply_ssh_config(
        r#"
Host github.com
    User git
"#,
    );

    assert_eq!(settings.username, None);
    assert!(settings.identity_files.is_empty());
}

#[test]
fn port_keywords_comments_and_wildcards_are_honoured() {
    let mut settings = ConnectionSettings::default();

    settings.apply_ssh_config(
        "host bbs.* other # comment\r\n  PORT   +2222 \r\n  user\tme # the login\r\n  IdentityFile   ~/.ssh/a\n  identityfile /keys/b\nHost later\n  User nobody\n",
    );

    assert_eq!(settings.port, 2222);
    assert_eq!(settings.username.as_deref(), Some("me"));
    assert_eq!(settings.identity_files, vec!["~/.ssh/a".to_owned(), "/keys/b".to_owned()]);
}

#[test]
fn only_the_first_matching_block_is_read() {
    let mut settings = ConnectionSettings::default();

    settings.apply_ssh_config("Host *\n  User first\nHost bbs.newsmth.net\n  User second\n");

    assert_eq!(settings.username.as_deref(), Some("first"));
}

#[test]
fn ports_that_do_not_parse_are_ignored() {
    for bad in ["Port 70000", "Port -1", "Port 22x", "Port +", "Port"] {
        let mut settings = ConnectionSettings::default();
        settings.apply_ssh_config(&format!("Host bbs.newsmth.net\n  {bad}\n"));
        assert_eq!(settings.port, 22, "{bad}");
    }
    let mut settings = ConnectionSettings::default();
    settings.apply_ssh_config("Host bbs.newsmth.net\n  Port 65535\n");
    assert_eq!(settings.port, 65535);
}

#[test]
fn host_and_password_are_never_taken_from_the_config() {
    let mut settings = ConnectionSettings::default();
    settings.password = Some("secret".to_owned());

    settings.apply_ssh_config("Host bbs.newsmth.net\n  HostName other\n  Password nope\n");

    assert_eq!(settings.host, "bbs.newsmth.net");
    assert_eq!(settings.password.as_deref(), Some("secret"));
}

#[test]
fn login_form_fields_are_trimmed_and_empty_ones_dropped() {
    let keys = vec!["~/.ssh/id".to_owned()];
    let settings =
        settings_from_login_form("  bbs.newsmth.net ", "2222", "  me ", "", &keys).unwrap();
    assert_eq!(settings.host, "bbs.newsmth.net");
    assert_eq!(settings.port, 2222);
    assert_eq!(settings.username.as_deref(), Some("me"));
    assert_eq!(settings.password, None);
    assert_eq!(settings.identity_files, keys);

    let settings = settings_from_login_form("h", "22", "   ", " pw ", &keys).unwrap();
    assert_eq!(settings.username, None);
    assert_eq!(settings.password.as_deref(), Some(" pw "));

    assert_eq!(
        settings_from_login_form("h", " 22", "me", "", &keys),
        Err(LoginFormError::InvalidPort)
    );
    assert_eq!(
        settings_from_login_form("h", "99999", "me", "", &keys),
        Err(LoginFormError::InvalidPort)
    );
}

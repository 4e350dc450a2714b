use welly_rs::links::{open_url_command, HostOs, OpenUrlCommand};

#[test]
fn app_open_url_command_uses_windows_url_protocol_handler() {
    assert_eq!(
        open_url_command(HostOs::Windows, "https://example.com/path?a=1&b=2"),
        OpenUrlCommand {
            program: "rundll32.exe",
            args: vec![
                "url.dll,FileProtocolHandler".to_owned(),
                "https://example.com/path?a=1&b=2".to_owned(),
            ],
        }
    );
}

#[test]
fn app_open_url_command_uses_macos_open() {
    assert_eq!(
        open_url_command(HostOs::MacOs, "https://example.com/path"),
        OpenUrlCommand {
            program: "open",
            args: vec!["https://example.com/path".to_owned()],
        }
    );
}

#[test]
fn app_open_url_command_uses_xdg_open_on_unix_desktops() {
    assert_eq!(
        open_url_command(HostOs::Unix, "https://example.com/path"),
        OpenUrlCommand {
            program: "xdg-open",
            args: vec!["https://example.com/path".to_owned()],
        }
    );
}

#[test]
fn main_open_url_command_uses_windows_url_protocol_handler() {
    assert_eq!(
        open_url_command(HostOs::Windows, "https://example.com/path?a=1&b=2"),
        OpenUrlCommand {
            program: "rundll32.exe",
            args: vec![
                "url.dll,FileProtocolHandler".to_owned(),
                "https://example.com/path?a=1&b=2".to_owned(),
            ],
        }
    );
}

#[test]
fn main_open_url_command_uses_macos_open() {
    assert_eq!(
        open_url_command(HostOs::MacOs, "https://example.com/path"),
        OpenUrlCommand {
            program: "open",
            args: vec!["https://example.com/path".to_owned()],
        }
    );
}

#[test]
fn main_open_url_command_uses_xdg_open_on_unix_desktops() {
    assert_eq!(
        open_url_command(HostOs::Unix, "https://example.com/path"),
        OpenUrlCommand {
            program: "xdg-open",
            args: vec!["https://example.com/path".to_owned()],
        }
    );
}

#[test]
fn other_systems_fall_back_to_open() {
    assert_eq!(open_url_command(HostOs::Other, "u").program, "open");
}

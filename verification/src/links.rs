//! Opening links: the command that hands a URL to the desktop.

use vstd::prelude::*;

use crate::text::str_chars;

verus! {

broadcast use vstd::string::group_string_axioms;

/// The desktop the program runs on, as far as opening links goes.
#[derive(Clone, Copy, Debug, PartialEq, Eq, Structural)]
pub enum HostOs {
    Windows,
    MacOs,
    /// Linux and the other Unix desktops.
    Unix,
    /// Anything else.
    Other,
}

/// A program to run and its arguments.
#[derive(Debug, PartialEq, Eq)]
pub struct OpenUrlCommand {
    pub program: &'static str,
    pub args: Vec<String>,
}

/// The command that opens `url` in the desktop's browser: the URL protocol
/// handler through `rundll32.exe` on Windows, `xdg-open` on other Unix
/// desktops, and `open` on macOS and elsewhere.
pub fn open_url_command(os: HostOs, url: &str) -> (c: OpenUrlCommand)
    ensures
        c.program == match os {
            HostOs::Windows => "rundll32.exe",
            HostOs::Unix => "xdg-open",
            _ => "open",
        },
        os == HostOs::Windows ==> c.args@.len() == 2 && c.args@[0]@
            == "url.dll,FileProtocolHandler"@ && c.args@[1]@ == url@,
        os != HostOs::Windows ==> c.args@.len() == 1 && c.args@[0]@ == url@,
{
    let mut args: Vec<String> = Vec::new();
    match os {
        HostOs::Windows => {
            args.push("url.dll,FileProtocolHandler".to_owned());
            args.push(url.to_owned());
            OpenUrlCommand { program: "rundll32.exe", args }
        },
        HostOs::MacOs => {
            args.push(url.to_owned());
            OpenUrlCommand { program: "open", args }
        },
        HostOs::Unix => {
            args.push(url.to_owned());
            OpenUrlCommand { program: "xdg-open", args }
        },
        HostOs::Other => {
            args.push(url.to_owned());
            OpenUrlCommand { program: "open", args }
        },
    }
}

} // verus!

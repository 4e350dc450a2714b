//! The SSH session as the window sees it: when the login panel shows, and
//! keeping an idle session open, as Welly does: after a minute without
//! anything sent, a few NUL bytes go out.

use vstd::prelude::*;

verus! {

/// How long the session may stay quiet, in nanoseconds: 59 seconds.
pub const ANTI_IDLE_THRESHOLD_NANOS: u128 = 59_000_000_000;

/// The bytes sent to keep the session open: six NULs.
pub fn anti_idle_payload() -> (v: Vec<u8>)
    ensures
        v@ == seq![0u8, 0u8, 0u8, 0u8, 0u8, 0u8],
{
    let v: Vec<u8> = vec![0u8, 0u8, 0u8, 0u8, 0u8, 0u8];
    v
}

/// Whether the keep-alive bytes are due after `idle_nanos` nanoseconds
/// without sending: from 59 seconds on.
pub fn anti_idle_due(idle_nanos: u128) -> (due: bool)
    ensures
        due == (idle_nanos >= ANTI_IDLE_THRESHOLD_NANOS),
{
    idle_nanos >= ANTI_IDLE_THRESHOLD_NANOS
}

/// Whether the window shows the login panel: while not connected and not
/// connecting, when there is no user name to connect with yet or the last
/// attempt failed.
pub fn login_panel_shown(connected: bool, connecting: bool, username_empty: bool, failed: bool) -> (shown: bool)
    ensures
        shown == (!connected && !connecting && (username_empty || failed)),
{
    !connected && !connecting && (username_empty || failed)
}

} // verus!

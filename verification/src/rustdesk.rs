//! Settings and state of a connection through the legacy RustDesk stack.

use vstd::prelude::*;
use crate::text::{chars_of, has_prefix, push_chars, starts_with, string_from_chars};

verus! {

/// What a connection needs to reach a remote desktop.
#[derive(Debug, Clone)]
pub struct RustDeskConfig {
    /// Id of the remote desktop.
    pub desk_id: String,
    pub password: Option<String>,
    /// `host:port` of the ID server.
    pub id_server: String,
    pub relay_server: Option<String>,
    /// Always go through the relay.
    pub force_relay: bool,
}

impl Default for RustDeskConfig {
    /// No desk or password, the public RustDesk ID server, no relay.
    fn default() -> (c: Self)
        ensures
            c.desk_id@ == Seq::<char>::empty(),
            c.password is None,
            c.id_server@ == "router.rustdesk.com:21116"@,
            c.relay_server is None,
            !c.force_relay,
    {
        RustDeskConfig {
            desk_id: String::new(),
            password: None,
            id_server: String::from_str("router.rustdesk.com:21116"),
            relay_server: None,
            force_relay: false,
        }
    }
}

/// Where a connection stands.
#[derive(Debug, Clone, Copy, PartialEq, Eq, Structural)]
pub enum ConnectionState {
    Disconnected,
    Connecting,
    Connected,
    Failed,
}

/// The password a connection authenticates with: the configured one, or
/// the empty string.
pub fn connection_password(config: &RustDeskConfig) -> (p: String)
    ensures
        match config.password {
            Some(s) => p@ == s@,
            None => p@ == Seq::<char>::empty(),
        },
{
    match &config.password {
        Some(s) => s.clone(),
        None => String::new(),
    }
}

/// A desk id of the demo sessions, which skip the network: it starts with
/// `DEMO` or `TEST`.
pub fn is_demo_id(desk: &str) -> (b: bool)
    ensures
        b == (has_prefix(desk@, "DEMO"@) || has_prefix(desk@, "TEST"@)),
{
    let d = chars_of(desk);
    starts_with(d.as_slice(), chars_of("DEMO").as_slice()) || starts_with(
        d.as_slice(),
        chars_of("TEST").as_slice(),
    )
}

/// The awaited steps of a connection, in the order they are taken.
#[derive(Debug, Clone, Copy, PartialEq, Eq, Structural)]
pub enum ConnectStep {
    /// Reaching the ID server.
    IdServer,
    /// Asking the ID server for the peer's address.
    RequestPeer,
    /// Binding the local UDP socket.
    BindLocal,
    /// Reading the local socket's address.
    LocalAddr,
    /// Punching a hole to the peer.
    Punch,
    /// The secure handshake with the peer.
    Handshake,
}

/// What the message of a failed step starts with.
pub open spec fn step_prefix(step: ConnectStep) -> Seq<char> {
    match step {
        ConnectStep::IdServer => "连接 ID 服务器失败: "@,
        ConnectStep::RequestPeer => "未找到远程桌面: "@,
        ConnectStep::BindLocal => "绑定本地端口失败: "@,
        ConnectStep::LocalAddr => "获取本地地址失败: "@,
        ConnectStep::Punch => Seq::<char>::empty(),
        ConnectStep::Handshake => "握手失败: "@,
    }
}

/// The message a connection stops with when `step` failed with `e`.
pub open spec fn step_error(step: ConnectStep, e: Seq<char>) -> Seq<char> {
    step_prefix(step) + e
}

/// What a connection does after `step` came back with `outcome`: the state
/// it is in next, and the message it stops with, if it stops.
///
/// A step that succeeds lets the connection go on (`Connecting`), and the
/// handshake, the last step, leaves it `Connected`. A failed hole punch is
/// passed over: the connection goes on to the handshake. Any other failure
/// stops the connection with the step's message; it is marked `Failed`,
/// except after a failed read of the local address, where the state is left
/// at `Connecting`.
pub fn connect_step(step: ConnectStep, outcome: Result<(), String>) -> (r: (ConnectionState, Option<String>))
    ensures
        outcome is Ok ==> r == (if step == ConnectStep::Handshake {
            ConnectionState::Connected
        } else {
            ConnectionState::Connecting
        }, None::<String>),
        step == ConnectStep::Punch ==> r.0 == ConnectionState::Connecting && r.1 is None,
        step != ConnectStep::Punch ==> (outcome matches Err(e) ==> (r.1 matches Some(m) && m@ == step_error(step, e@))),
        step != ConnectStep::Punch && step != ConnectStep::LocalAddr ==> (outcome is Err ==> r.0
            == ConnectionState::Failed),
        step == ConnectStep::LocalAddr ==> r.0 == ConnectionState::Connecting,
        (r.1 is Some) <==> (outcome is Err && step != ConnectStep::Punch),
{
    match outcome {
        Ok(()) => {
            match step {
                ConnectStep::Handshake => (ConnectionState::Connected, None),
                _ => (ConnectionState::Connecting, None),
            }
        },
        Err(e) => {
            let prefix = match step {
                ConnectStep::IdServer => chars_of("连接 ID 服务器失败: "),
                ConnectStep::RequestPeer => chars_of("未找到远程桌面: "),
                ConnectStep::BindLocal => chars_of("绑定本地端口失败: "),
                ConnectStep::LocalAddr => chars_of("获取本地地址失败: "),
                ConnectStep::Punch => {
                    return (ConnectionState::Connecting, None);
                },
                ConnectStep::Handshake => chars_of("握手失败: "),
            };
            let mut m = string_from_chars(prefix.as_slice());
            push_chars(&mut m, chars_of(e.as_str()).as_slice());
            let state = match step {
                ConnectStep::LocalAddr => ConnectionState::Connecting,
                _ => ConnectionState::Failed,
            };
            (state, Some(m))
        },
    }
}

} // verus!

//! The decisions around an SSH connection: the address dialled, which
//! authentication is tried, what a command's channel messages come to, how
//! long to wait between attempts at a session, and when an idle session is
//! tested before it is reused.
use vstd::prelude::*;

use crate::cli::dashboard::drawing::append_chars;
use crate::error::KnotError;
use crate::knot::credentials::{AuthMethod, KnotCredentials};
use crate::text::{decimal_string, decimal_text, string_of};

verus! {

/// The address a session dials: `host:port`.
pub open spec fn address_spec(c: KnotCredentials) -> Seq<char> {
    c.host@ + ":"@ + decimal_text(c.port as nat)
}

pub fn connect_address(c: &KnotCredentials) -> (r: String)
    ensures
        r@ == address_spec(*c),
{
    let mut out: Vec<char> = Vec::new();
    append_chars(&mut out, c.host.as_str());
    append_chars(&mut out, ":");
    append_chars(&mut out, decimal_string(c.port as u64).as_str());
    string_of(out.as_slice())
}

/// How a session authenticates.
#[derive(Debug, Clone, Copy, PartialEq, Eq, Structural)]
pub enum AuthKind {
    Password,
    /// A private key, with an OpenSSH certificate when one is given.
    PrivateKey { with_certificate: bool },
}

/// The authentication a session tries; without one it cannot connect.
pub fn auth_kind(auth: &AuthMethod) -> (r: Result<AuthKind, KnotError>)
    ensures
        match *auth {
            AuthMethod::Password(_) => r == Ok::<AuthKind, KnotError>(AuthKind::Password),
            AuthMethod::PrivateKey { cert_path, .. } => r == Ok::<AuthKind, KnotError>(
                AuthKind::PrivateKey { with_certificate: cert_path is Some },
            ),
            AuthMethod::NoAuth => r == Err::<AuthKind, KnotError>(KnotError::NoAuthentication),
        },
{
    match auth {
        AuthMethod::Password(_) => Ok(AuthKind::Password),
        AuthMethod::PrivateKey { cert_path, .. } => Ok(
            AuthKind::PrivateKey { with_certificate: cert_path.is_some() },
        ),
        AuthMethod::NoAuth => Err(KnotError::NoAuthentication),
    }
}

/// A message of a command's channel.
pub enum ChannelMsg {
    Data(Vec<u8>),
    ExtendedData(Vec<u8>),
    ExitStatus(u32),
    Eof,
    Close,
    Other,
}

/// What a command's channel has given so far.
pub struct CallOutput {
    pub code: Option<u32>,
    pub bytes: Vec<u8>,
    pub closed: bool,
}

/// The output after one more message: data of either stream is collected,
/// the exit status kept, and the channel's close ends the command.
pub open spec fn call_step(code: Option<u32>, bytes: Seq<u8>, msg: ChannelMsg) -> (Option<u32>, Seq<u8>, bool) {
    match msg {
        ChannelMsg::Data(d) => (code, bytes + d@, false),
        ChannelMsg::ExtendedData(d) => (code, bytes + d@, false),
        ChannelMsg::ExitStatus(s) => (Some(s), bytes, false),
        ChannelMsg::Close => (code, bytes, true),
        _ => (code, bytes, false),
    }
}

impl CallOutput {
    pub fn new() -> (r: Self)
        ensures
            r.code is None,
            r.bytes@.len() == 0,
            !r.closed,
    {
        CallOutput { code: None, bytes: Vec::new(), closed: false }
    }

    /// Takes one message of the channel.
    pub fn take(&mut self, msg: ChannelMsg)
        requires
            !old(self).closed,
        ensures
            (final(self).code, final(self).bytes@, final(self).closed) == call_step(
                old(self).code,
                old(self).bytes@,
                msg,
            ),
    {
        match msg {
            ChannelMsg::Data(d) => {
                let mut d = d;
                self.bytes.append(&mut d);
            },
            ChannelMsg::ExtendedData(d) => {
                let mut d = d;
                self.bytes.append(&mut d);
            },
            ChannelMsg::ExitStatus(s) => {
                self.code = Some(s);
            },
            ChannelMsg::Close => {
                self.closed = true;
            },
            _ => {},
        }
    }

    /// What the command `command` came to: its exit status and its output
    /// (none when it wrote nothing); a channel without an exit status is an
    /// error that names the command.
    pub fn finish(self, command: &str) -> (r: Result<(u32, Option<Vec<u8>>), KnotError>)
        ensures
            match self.code {
                Some(c) => r matches Ok((code, out)) && code == c && (if self.bytes@.len() == 0 {
                    out is None
                } else {
                    out matches Some(b) && b@ == self.bytes@
                }),
                None => r matches Err(KnotError::CommandWithoutExitStatus { command: t }) && t@
                    == command@,
            },
    {
        match self.code {
            Some(c) => if self.bytes.len() == 0 {
                Ok((c, None))
            } else {
                Ok((c, Some(self.bytes)))
            },
            None => Err(KnotError::CommandWithoutExitStatus { command: command.to_string() }),
        }
    }
}

/// The wait before attempt `i + 1` at a session: fifty milliseconds more for
/// each failed attempt (the attempts for which that many milliseconds fit
/// in a `u64`).
pub fn retry_delay_ms(i: u64) -> (r: u64)
    requires
        50 * (i + 1) <= u64::MAX,
    ensures
        r == 50 * (i + 1),
{
    50 * (i + 1)
}

/// A session idle for more than thirty seconds is tested before reuse.
pub fn needs_liveness_check(idle_ms: u64) -> (r: bool)
    ensures
        r == (idle_ms > 30000),
{
    idle_ms > 30000
}

} // verus!

//! How an ssh session reaches its server through a tunnel, and how it logs in.
use crate::resolver::{Host, HostView};
use crate::uuids::{format_uuid, uuid_text};
use vstd::prelude::*;

verus! {

/// The size of the buffer between the session and the tunnel.
pub const DUPLEX_BYTES: usize = 65536;

/// The remote end that a tunnel is asked for.
#[derive(Debug)]
pub struct RemoteAddr {
    pub host: Host,
    pub port: u16,
    pub proxy_protocol: bool,
}

/// The remote end of tunnel `tunnel`: its id stands in for the host, and the server finds out the
/// rest.
pub fn tunnel_remote(tunnel: u128) -> (r: RemoteAddr)
    ensures
        r.host@ == HostView::Domain(uuid_text(tunnel)),
        r.port == 0,
        !r.proxy_protocol,
{
    RemoteAddr { host: Host::Domain(format_uuid(tunnel)), port: 0, proxy_protocol: false }
}

/// What has to be known before a key can sign.
#[derive(Debug, Clone, Copy, PartialEq, Eq, Structural)]
pub enum HashStep {
    /// The hashes that the server supports.
    AskServer,
    /// Nothing.
    SignNow,
}

/// Decides whether the server is asked which hashes it supports: it is for an RSA key alone.
pub fn hash_step(is_rsa: bool) -> (r: HashStep)
    ensures
        r == (if is_rsa {
            HashStep::AskServer
        } else {
            HashStep::SignNow
        }),
{
    if is_rsa {
        HashStep::AskServer
    } else {
        HashStep::SignNow
    }
}

/// The hash to sign with: for an RSA key the best that the server says it supports, if it says so,
/// and none for another key.
pub fn signature_hash<T>(is_rsa: bool, supported: Option<Option<T>>) -> (r: Option<T>)
    ensures
        is_rsa ==> r == (match supported {
            Some(best) => best,
            None => None,
        }),
        !is_rsa ==> r is None,
{
    if is_rsa {
        match supported {
            Some(best) => best,
            None => None,
        }
    } else {
        None
    }
}

/// Why a session could not start.
#[derive(Debug, PartialEq, Eq, Structural)]
pub enum SshError {
    /// The server did not accept the key.
    AuthenticationFailed,
}

impl SshError {
    /// The text of the error, for a user.
    pub fn message(&self) -> (r: &'static str)
        ensures
            r@ == "ssh authentication failed"@,
    {
        match self {
            SshError::AuthenticationFailed => "ssh authentication failed",
        }
    }
}

/// Judges a login.
pub fn login_result(accepted: bool) -> (r: Result<(), SshError>)
    ensures
        accepted ==> r is Ok,
        !accepted ==> r == Err::<(), SshError>(SshError::AuthenticationFailed),
{
    if accepted {
        Ok(())
    } else {
        Err(SshError::AuthenticationFailed)
    }
}

} // verus!

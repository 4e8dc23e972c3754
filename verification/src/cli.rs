//! Where and how the command line program logs.
use crate::text::{contains, has_substring, law_substring_is_a_part};
use vstd::prelude::*;

verus! {

/// The directive that keeps the http2 codec out of the log.
pub const H2_DIRECTIVE: &'static str = "h2::codec=off";

/// Whether a log filter says nothing of http2.
pub open spec fn silent_on_h2(filter: Seq<char>) -> bool {
    !has_substring(filter, "h2::"@) && !has_substring(filter, "h2="@)
}

/// Decides whether [`H2_DIRECTIVE`] is added to a log filter: it is where the filter itself says
/// nothing of http2.
pub fn needs_h2_directive(filter: &str) -> (r: bool)
    ensures
        r == silent_on_h2(filter@),
{
    !(contains(filter, "h2::") || contains(filter, "h2="))
}

/// A filter that speaks of http2 anywhere, by a path or by a level, is left as it is, and any other gets
/// the directive.
pub proof fn law_filter_speaks_of_h2(a: Seq<char>, b: Seq<char>, filter: Seq<char>)
    ensures
        !silent_on_h2(a + "h2::"@ + b),
        !silent_on_h2(a + "h2="@ + b),
        !silent_on_h2(filter) ==> (exists|x: Seq<char>, y: Seq<char>|
            filter == #[trigger] (x + "h2::"@ + y)) || (exists|x: Seq<char>, y: Seq<char>|
            filter == #[trigger] (x + "h2="@ + y)),
{
    law_substring_is_a_part(a + "h2::"@ + b, "h2::"@);
    law_substring_is_a_part(a + "h2="@ + b, "h2="@);
    law_substring_is_a_part(filter, "h2::"@);
    law_substring_is_a_part(filter, "h2="@);
}

/// What listens at the local end of a tunnel.
#[derive(Debug, Clone, Copy, PartialEq, Eq, Structural)]
pub enum LocalProtocol {
    /// Standard input and output, to a fixed remote end.
    Stdio,
    /// Standard input and output, to a remote end that is resolved by its tunnel id.
    TunnelStdio,
    /// Anything else.
    Other,
}

/// Whether a local end uses standard input and output.
pub open spec fn is_stdio(p: LocalProtocol) -> bool {
    p == LocalProtocol::Stdio || p == LocalProtocol::TunnelStdio
}

/// Whether some local end uses standard input and output.
pub open spec fn any_stdio(protocols: Seq<LocalProtocol>) -> bool {
    exists|i: int| 0 <= i < protocols.len() && is_stdio(#[trigger] protocols[i])
}

/// What the program was asked to do.
#[derive(Debug)]
pub enum Command {
    /// Open these tunnels.
    Client(Vec<LocalProtocol>),
    /// Serve tunnels.
    Server,
    /// Run a shell through a tunnel.
    Ssh,
}

/// Where the log goes.
#[derive(Debug, Clone, Copy, PartialEq, Eq, Structural)]
pub enum LogTarget {
    Stdout,
    Stderr,
}

/// Whether a command keeps standard output for something else than the log.
pub open spec fn takes_stdout(command: Command) -> bool {
    match command {
        Command::Client(protocols) => any_stdio(protocols@),
        Command::Server => false,
        Command::Ssh => true,
    }
}

/// Standard output is taken by a shell, and by a client of which any tunnel uses it, wherever that tunnel
/// stands among the others; not by a client without such a tunnel, and not by a server.
pub proof fn law_who_takes_stdout(command: Command, i: int)
    ensures
        command is Ssh ==> takes_stdout(command),
        command is Server ==> !takes_stdout(command),
        command matches Command::Client(protocols) ==> {
            &&& 0 <= i < protocols@.len() && (protocols@[i] is Stdio || protocols@[i]
                is TunnelStdio) ==> takes_stdout(command)
            &&& (forall|k: int| 0 <= k < protocols@.len() ==> #[trigger] protocols@[k] is Other)
                ==> !takes_stdout(command)
        },
{
    if let Command::Client(protocols) = command {
        if 0 <= i < protocols@.len() && (protocols@[i] is Stdio || protocols@[i] is TunnelStdio) {
            assert(is_stdio(protocols@[i]));
        }
    }
}

/// Decides where the log goes: to standard error wherever standard output is taken.
pub fn log_target(command: &Command) -> (r: LogTarget)
    ensures
        r == (if takes_stdout(*command) {
            LogTarget::Stderr
        } else {
            LogTarget::Stdout
        }),
{
    match command {
        Command::Client(protocols) => {
            let mut i: usize = 0;
            while i < protocols.len()
                invariant
                    *command == Command::Client(*protocols),
                    i <= protocols@.len(),
                    forall|k: int| 0 <= k < i ==> !is_stdio(#[trigger] protocols@[k]),
                decreases protocols@.len() - i,
            {
                let p = protocols[i];
                if p == LocalProtocol::Stdio || p == LocalProtocol::TunnelStdio {
                    assert(is_stdio(protocols@[i as int]));
                    assert(any_stdio(protocols@));
                    return LogTarget::Stderr;
                }
                i += 1;
            }
            LogTarget::Stdout
        },
        Command::Server => LogTarget::Stdout,
        Command::Ssh => LogTarget::Stderr,
    }
}

} // verus!

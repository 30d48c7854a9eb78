//! Decisions of the connection acceptor: reading its command line, the
//! reconnect backoff, and what happens to a handed-off connection after
//! each send attempt.
use vstd::prelude::*;

use crate::content_service::{parse_usize, spec_parse_usize};
use crate::text::str_eq;

verus! {

/// Queue size used when `--queue-size` is absent or not a number.
pub const DEFAULT_QUEUE_SIZE: usize = 128;

/// First delay, in milliseconds, before reconnecting to the host socket.
pub const INITIAL_BACKOFF_MS: u64 = 25;

/// Longest delay, in milliseconds, between reconnect attempts.
pub const MAX_BACKOFF_MS: u64 = 1000;

/// The acceptor's settings, read from its command line.
pub struct AcceptorArgs {
    pub fd_socket: String,
    pub acceptor_socket: String,
    pub queue_size: usize,
}

/// What the command line asks for.
pub enum AcceptorCommand {
    /// Run with these settings.
    Run(AcceptorArgs),
    /// Print the usage line and stop successfully.
    Help,
}

/// A required option that the command line lacks.
#[derive(Debug, Clone, Copy, PartialEq, Eq, Structural)]
pub enum AcceptorArgsError {
    MissingFdSocket,
    MissingAcceptorSocket,
}

impl AcceptorArgsError {
    /// The error as text.
    pub fn to_display_string(&self) -> (r: String)
        ensures
            r@ == spec_args_error_message(*self),
    {
        match self {
            AcceptorArgsError::MissingFdSocket => String::from_str("--fd-socket is required"),
            AcceptorArgsError::MissingAcceptorSocket => String::from_str(
                "--acceptor-socket is required",
            ),
        }
    }
}

/// The text of each command-line error.
pub open spec fn spec_args_error_message(e: AcceptorArgsError) -> Seq<char> {
    match e {
        AcceptorArgsError::MissingFdSocket => "--fd-socket is required"@,
        AcceptorArgsError::MissingAcceptorSocket => "--acceptor-socket is required"@,
    }
}

/// The usage line printed for `--help`.
pub fn usage_line() -> (r: String)
    ensures
        r@ == "Usage: ddc-acceptor --fd-socket <path> --acceptor-socket <path> [--queue-size <n>]"@,
{
    String::from_str("Usage: ddc-acceptor --fd-socket <path> --acceptor-socket <path> [--queue-size <n>]")
}

/// What a left-to-right reading of the options has found so far.
pub struct ArgScan {
    pub fd_socket: Option<Seq<char>>,
    pub acceptor_socket: Option<Seq<char>>,
    pub queue_size: Option<Seq<char>>,
    pub help: bool,
}

/// Nothing found yet.
pub open spec fn empty_scan() -> ArgScan {
    ArgScan { fd_socket: None, acceptor_socket: None, queue_size: None, help: false }
}

/// The argument at `i`, if there is one.
pub open spec fn arg_at(args: Seq<Seq<char>>, i: int) -> Option<Seq<char>> {
    if 0 <= i < args.len() {
        Some(args[i])
    } else {
        None
    }
}

/// Reading the options from position `i` on: an option that takes a value
/// takes the next argument (none when it is the last one; a later repeat
/// wins); `--help` or `-h` stops the reading; anything else is skipped.
pub open spec fn scan_args(args: Seq<Seq<char>>, i: int, st: ArgScan) -> ArgScan
    decreases args.len() - i,
{
    if i < 0 || i >= args.len() {
        st
    } else if args[i] == "--help"@ || args[i] == "-h"@ {
        ArgScan { help: true, ..st }
    } else if args[i] == "--fd-socket"@ || args[i] == "--acceptor-socket"@ || args[i]
        == "--queue-size"@ {
        let value = arg_at(args, i + 1);
        let next = if args[i] == "--fd-socket"@ {
            ArgScan { fd_socket: value, ..st }
        } else if args[i] == "--acceptor-socket"@ {
            ArgScan { acceptor_socket: value, ..st }
        } else {
            ArgScan { queue_size: value, ..st }
        };
        if i + 1 >= args.len() {
            next
        } else {
            scan_args(args, i + 2, next)
        }
    } else {
        scan_args(args, i + 1, st)
    }
}

/// The queue size an option value gives.
pub open spec fn spec_queue_size(v: Option<Seq<char>>) -> int {
    match v {
        Some(t) => match spec_parse_usize(t) {
            Some(n) => n,
            None => DEFAULT_QUEUE_SIZE as int,
        },
        None => DEFAULT_QUEUE_SIZE as int,
    }
}

/// The arguments as character sequences.
pub open spec fn arg_views(args: Seq<String>) -> Seq<Seq<char>> {
    args.map_values(|s: String| s@)
}

/// Reads the acceptor's options (the arguments after the program's name).
/// `--help` or `-h` asks for the usage line; otherwise `--fd-socket` and
/// `--acceptor-socket` are required and `--queue-size` defaults to 128.
pub fn parse_args(args: &[String]) -> (r: Result<AcceptorCommand, AcceptorArgsError>)
    ensures
        ({
            let st = scan_args(arg_views(args@), 0, empty_scan());
            if st.help {
                r matches Ok(AcceptorCommand::Help)
            } else {
                match (st.fd_socket, st.acceptor_socket) {
                    (None, _) => r == Err::<AcceptorCommand, AcceptorArgsError>(
                        AcceptorArgsError::MissingFdSocket,
                    ),
                    (Some(_), None) => r == Err::<AcceptorCommand, AcceptorArgsError>(
                        AcceptorArgsError::MissingAcceptorSocket,
                    ),
                    (Some(fd), Some(acc)) => r matches Ok(AcceptorCommand::Run(a)) && a.fd_socket@
                        == fd && a.acceptor_socket@ == acc && a.queue_size == spec_queue_size(
                        st.queue_size,
                    ),
                }
            }
        }),
{
    let ghost views = arg_views(args@);
    let mut fd_socket: Option<&String> = None;
    let mut acceptor_socket: Option<&String> = None;
    let mut queue_size: Option<&String> = None;
    let mut i: usize = 0;
    let mut help = false;
    while i < args.len() && !help
        invariant
            i <= args.len(),
            views == arg_views(args@),
            help ==> scan_args(views, 0, empty_scan()).help,
            !help ==> scan_args(views, 0, empty_scan()) == scan_args(
                views,
                i as int,
                ArgScan {
                    fd_socket: match fd_socket {
                        Some(s) => Some(s@),
                        None => None,
                    },
                    acceptor_socket: match acceptor_socket {
                        Some(s) => Some(s@),
                        None => None,
                    },
                    queue_size: match queue_size {
                        Some(s) => Some(s@),
                        None => None,
                    },
                    help: false,
                },
            ),
        decreases args.len() - i + if help {
            0int
        } else {
            1int
        },
    {
        let arg = &args[i];
        assert(views[i as int] == arg@);
        if str_eq(arg.as_str(), "--help") || str_eq(arg.as_str(), "-h") {
            help = true;
        } else {
        let is_fd = str_eq(arg.as_str(), "--fd-socket");
        let is_acc = str_eq(arg.as_str(), "--acceptor-socket");
        let is_qs = str_eq(arg.as_str(), "--queue-size");
        if is_fd || is_acc || is_qs {
            let value: Option<&String> = if i + 1 < args.len() {
                assert(views[i + 1] == args@[i + 1]@);
                Some(&args[i + 1])
            } else {
                None
            };
            if is_fd {
                fd_socket = value;
            } else if is_acc {
                acceptor_socket = value;
            } else {
                queue_size = value;
            }
            if i + 1 >= args.len() {
                i = args.len();
            } else {
                i = i + 2;
            }
        } else {
            i = i + 1;
        }
        }
    }
    if help {
        return Ok(AcceptorCommand::Help);
    }
    let fd = match fd_socket {
        Some(s) => s.clone(),
        None => {
            return Err(AcceptorArgsError::MissingFdSocket);
        },
    };
    let acc = match acceptor_socket {
        Some(s) => s.clone(),
        None => {
            return Err(AcceptorArgsError::MissingAcceptorSocket);
        },
    };
    let qs: usize = match queue_size {
        Some(s) => match parse_usize(s.as_str()) {
            Some(n) => n,
            None => DEFAULT_QUEUE_SIZE,
        },
        None => DEFAULT_QUEUE_SIZE,
    };
    Ok(AcceptorCommand::Run(AcceptorArgs { fd_socket: fd, acceptor_socket: acc, queue_size: qs }))
}

/// The delay before the next reconnect attempt: twice the last one, but
/// never more than a second.
pub fn next_backoff_ms(ms: u64) -> (r: u64)
    ensures
        r == if 2 * ms <= MAX_BACKOFF_MS {
            2 * ms
        } else {
            MAX_BACKOFF_MS as int
        },
{
    if ms > MAX_BACKOFF_MS / 2 {
        MAX_BACKOFF_MS
    } else {
        ms * 2
    }
}

/// What came of handing one accepted connection to the host.
#[derive(Debug, Clone, Copy, PartialEq, Eq, Structural)]
pub enum SendEvent {
    /// Passing the descriptor failed.
    SendFailed,
    /// The host acknowledged it.
    Acked,
    /// Reading the acknowledgement failed.
    AckReadFailed,
    /// No acknowledgement came in time.
    AckTimedOut,
}

/// What the sender does next.
#[derive(Debug, Clone, Copy, PartialEq, Eq, Structural)]
pub enum SendAction {
    /// Reconnect and send the same connection again.
    ReconnectAndRetry,
    /// Reconnect; the connection is dropped.
    ReconnectAndDrop,
    /// Go on with the next queued connection.
    Continue,
}

/// The sender's next action and the queue depth after one send attempt
/// with `depth` connections queued: a connection that reached the host
/// (acknowledged, or not refused within the wait) leaves the queue.
pub fn after_send_attempt(depth: usize, event: SendEvent) -> (r: (SendAction, usize))
    ensures
        r.0 == match event {
            SendEvent::SendFailed => SendAction::ReconnectAndRetry,
            SendEvent::AckReadFailed => SendAction::ReconnectAndDrop,
            _ => SendAction::Continue,
        },
        r.1 == match event {
            SendEvent::Acked | SendEvent::AckTimedOut => if depth > 0 {
                depth - 1
            } else {
                0
            },
            _ => depth as int,
        },
{
    match event {
        SendEvent::SendFailed => (SendAction::ReconnectAndRetry, depth),
        SendEvent::AckReadFailed => (SendAction::ReconnectAndDrop, depth),
        SendEvent::Acked | SendEvent::AckTimedOut => (SendAction::Continue, depth.saturating_sub(1)),
    }
}

} // verus!

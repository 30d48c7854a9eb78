//! Small pieces of the cell host: the cell binary the server starts, the ids
//! of devtools browser connections, and options and errors passed to cells.
use vstd::prelude::*;

use crate::hover::{decimal, usize_to_decimal};
use crate::text::{byte_len, from_chars, push_str_chars, str_byte_len, to_chars};

verus! {

/// The cell binary the HTTP cell is started from. Cells are loaded through
/// the hub, so this is the binary's name alone.
pub fn find_cell_path() -> (r: String)
    ensures
        r@ == "ddc-cell-http"@,
{
    from_chars(to_chars("ddc-cell-http").as_slice())
}

/// The value the process-wide devtools browser id counter starts at: ids
/// start at 1.
pub fn devtools_browser_id_counter() -> (r: u64)
    ensures
        r == 1,
{
    1
}

/// The counter after `n` ids have been handed out, starting from `start`.
pub open spec fn counter_after(start: u64, n: nat) -> u64
    decreases n,
{
    if n == 0 {
        start
    } else {
        let c = counter_after(start, (n - 1) as nat);
        if c == u64::MAX {
            0
        } else {
            (c + 1) as u64
        }
    }
}

proof fn lemma_counter_from_one(n: nat)
    requires
        n < u64::MAX,
    ensures
        counter_after(1, n) == n + 1,
    decreases n,
{
    if n > 0 {
        lemma_counter_from_one((n - 1) as nat);
    }
}

/// The ids handed out from a counter that starts at 1: the `i`-th call
/// (counting from 0) gets `counter_after(1, i)`. Of fewer than 2^64 calls,
/// every id is at least 1, and a later call gets a larger id than an
/// earlier one, so no id is handed out twice.
pub proof fn law_browser_ids_start_at_one_and_increase(i: nat, j: nat)
    requires
        i < j < u64::MAX,
    ensures
        1 <= counter_after(1, i),
        counter_after(1, i) < counter_after(1, j),
{
    lemma_counter_from_one(i);
    lemma_counter_from_one(j);
}

/// Hands out the next devtools browser id: the counter's value, after which
/// the counter moves on by one (wrapping around at the top, as an atomic
/// counter does).
pub fn next_devtools_browser_id(counter: &mut u64) -> (r: u64)
    ensures
        r == *old(counter),
        r == counter_after(*old(counter), 0),
        *final(counter) == counter_after(*old(counter), 1),
        *final(counter) == (if *old(counter) == u64::MAX {
            0
        } else {
            *old(counter) + 1
        }),
{
    let id = *counter;
    assert(counter_after(id, 0) == id);
    *counter = if id == u64::MAX {
        0
    } else {
        id + 1
    };
    id
}

/// Options of a link check: per-request timeout and delay between requests.
pub struct CheckOptions {
    pub timeout_secs: u64,
    pub rate_limit_ms: u64,
}

/// A Markdown document that did not parse, with the parser's message.
pub struct MarkdownParseError {
    pub message: String,
}

impl MarkdownParseError {
    /// The error as text: its message.
    pub fn to_display_string(&self) -> (r: String)
        ensures
            r@ == self.message@,
    {
        self.message.clone()
    }
}

/// What a devtools event carries that its log summary shows.
pub enum DevtoolsEventInfo {
    /// The page should reload.
    Reload,
    /// A stylesheet changed.
    CssChanged { path: String },
    /// DOM patches for a route, and how many.
    Patches { route: String, count: usize },
    /// A build error on a route.
    Error { route: String, message: String },
    /// The error on a route went away.
    ErrorResolved { route: String },
}

/// The log summary of a devtools event. An error's message is cut to its
/// first 50 characters, followed by `…` when the message is longer than 50
/// bytes.
pub open spec fn spec_event_summary(event: DevtoolsEventInfo) -> Seq<char> {
    match event {
        DevtoolsEventInfo::Reload => "Reload"@,
        DevtoolsEventInfo::CssChanged { path } => "CssChanged("@ + path@ + ")"@,
        DevtoolsEventInfo::Patches { route, count } => "Patches(route="@ + route@ + ", count="@
            + decimal(count as nat) + ")"@,
        DevtoolsEventInfo::Error { route, message } => "Error(route="@ + route@ + ", msg="@
            + message@.take(if message@.len() < 50 {
            message@.len() as int
        } else {
            50
        }) + (if byte_len(message@) > 50 {
            "…"@
        } else {
            Seq::empty()
        }) + ")"@,
        DevtoolsEventInfo::ErrorResolved { route } => "ErrorResolved(route="@ + route@ + ")"@,
    }
}

/// A short summary of a devtools event, for logging.
pub fn event_summary(event: &DevtoolsEventInfo) -> (r: String)
    requires
        event matches DevtoolsEventInfo::Error { message, .. } ==> byte_len(message@) <= usize::MAX,
    ensures
        r@ == spec_event_summary(*event),
{
    let mut out: Vec<char> = Vec::new();
    match event {
        DevtoolsEventInfo::Reload => {
            push_str_chars(&mut out, "Reload");
        },
        DevtoolsEventInfo::CssChanged { path } => {
            push_str_chars(&mut out, "CssChanged(");
            push_str_chars(&mut out, path.as_str());
            push_str_chars(&mut out, ")");
        },
        DevtoolsEventInfo::Patches { route, count } => {
            push_str_chars(&mut out, "Patches(route=");
            push_str_chars(&mut out, route.as_str());
            push_str_chars(&mut out, ", count=");
            let n = usize_to_decimal(*count);
            push_str_chars(&mut out, n.as_str());
            push_str_chars(&mut out, ")");
        },
        DevtoolsEventInfo::Error { route, message } => {
            push_str_chars(&mut out, "Error(route=");
            push_str_chars(&mut out, route.as_str());
            push_str_chars(&mut out, ", msg=");
            let chars = to_chars(message.as_str());
            let take: usize = if chars.len() < 50 {
                chars.len()
            } else {
                50
            };
            let mut i: usize = 0;
            let ghost start = out@;
            while i < take
                invariant
                    i <= take <= chars@.len(),
                    out@ == start + chars@.take(i as int),
                decreases take - i,
            {
                out.push(chars[i]);
                assert(chars@.take(i + 1) == chars@.take(i as int).push(chars@[i as int]));
                i = i + 1;
            }
            if str_byte_len(message.as_str()) > 50 {
                push_str_chars(&mut out, "…");
            } else {
                assert(out@ + Seq::<char>::empty() == out@);
            }
            push_str_chars(&mut out, ")");
        },
        DevtoolsEventInfo::ErrorResolved { route } => {
            push_str_chars(&mut out, "ErrorResolved(route=");
            push_str_chars(&mut out, route.as_str());
            push_str_chars(&mut out, ")");
        },
    }
    from_chars(out.as_slice())
}

} // verus!

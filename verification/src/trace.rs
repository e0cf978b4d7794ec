//! The parse trace: the pairs of state and character that the parser has
//! consumed, kept for diagnostics.

use crate::machine::ParseState;
use vstd::prelude::*;

verus! {

/// The last `limit` entries of `trace`; all of it where it has fewer, or
/// where `limit` is 0.
pub open spec fn window<T>(trace: Seq<T>, limit: nat) -> Seq<T> {
    if limit == 0 || trace.len() < limit {
        trace
    } else {
        trace.skip(trace.len() - limit)
    }
}

/// Copies the last `limit` entries of `trace`; all of them where `limit` is 0.
pub fn trace_window(trace: &Vec<(ParseState, char)>, limit: usize) -> (out: Vec<(ParseState, char)>)
    ensures
        out@ == window(trace@, limit as nat),
{
    let start: usize = if limit == 0 || trace.len() < limit {
        0
    } else {
        trace.len() - limit
    };
    let mut out: Vec<(ParseState, char)> = Vec::new();
    let mut i: usize = start;
    while i < trace.len()
        invariant
            start <= i <= trace.len(),
            out@ == trace@.subrange(start as int, i as int),
        decreases trace.len() - i,
    {
        out.push(trace[i]);
        i = i + 1;
    }
    out
}

} // verus!

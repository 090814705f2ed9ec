//! What the process chooser shows of each process, and which answer of the
//! process search it shows.
use crate::bridge::Process;
use crate::text::{decimal_text, push_signed_decimal, push_text};
use vstd::prelude::*;

verus! {

/// The most processes one search asks the engine for.
pub const PROCESS_PAGE_SIZE: u32 = 256;

/// The second line of a process in the chooser: its id, then its path
/// when it has one.
pub open spec fn subtitle_text(pid: i32, path: Seq<char>) -> Seq<char> {
    seq!['P', 'I', 'D', ' '] + decimal_text(pid as int) + if path.len() == 0 {
        Seq::<char>::empty()
    } else {
        seq![' ', ' ', '·', ' ', ' '] + path
    }
}

/// The second line that the chooser shows for `process`; see
/// `subtitle_text`.
pub fn process_subtitle(process: &Process) -> (subtitle: String)
    ensures
        subtitle@ == subtitle_text(process.pid, process.path@),
{
    let mut subtitle = String::new();
    push_text(&mut subtitle, "PID ");
    push_signed_decimal(&mut subtitle, process.pid as i64);
    proof {
        reveal_strlit("PID ");
    }
    if !process.path.as_str().is_empty() {
        push_text(&mut subtitle, "  ·  ");
        push_text(&mut subtitle, process.path.as_str());
        proof {
            reveal_strlit("  ·  ");
        }
    }
    assert(subtitle@ =~= subtitle_text(process.pid, process.path@));
    subtitle
}

/// The number that the next search gets after the search numbered
/// `generation`, wrapping around.
pub open spec fn next_search(generation: u64) -> u64 {
    if generation == u64::MAX {
        0
    } else {
        (generation + 1) as u64
    }
}

/// The searches of the process chooser: each search gets a new number, and
/// only the answer to the newest search is shown.
pub struct ProcessSearch {
    generation: u64,
}

impl ProcessSearch {
    /// The number of the newest search.
    pub closed spec fn newest(&self) -> u64 {
        self.generation
    }

    /// No search has started yet.
    pub fn new() -> (search: Self)
        ensures
            search.newest() == 0,
    {
        ProcessSearch { generation: 0 }
    }

    /// Starts a search and returns its number.
    pub fn begin(&mut self) -> (request: u64)
        ensures
            request == next_search(old(self).newest()),
            final(self).newest() == request,
    {
        self.generation = self.generation.wrapping_add(1);
        self.generation
    }

    /// Whether the answer to search `request` is to be shown: only when no
    /// newer search has started.
    pub fn is_current(&self, request: u64) -> (current: bool)
        ensures
            current == (request == self.newest()),
    {
        request == self.generation
    }
}

/// Once another search starts, the answer to the one before is no longer
/// shown.
pub proof fn lemma_newer_search_supersedes(generation: u64)
    ensures
        next_search(next_search(generation)) != next_search(generation),
{
}

} // verus!

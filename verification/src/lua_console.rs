//! The Lua console's command history, with its bounds and the keys that
//! walk it, and the transcript of the console's output.
use crate::text::{chars_of, push_text, string_of, trim_bounds, trimmed};
use vstd::prelude::*;
use vstd::utf8::encode_utf8;

verus! {

broadcast use vstd::string::group_string_axioms;

/// The most commands the history keeps.
pub const HISTORY_LIMIT: usize = 100;

/// The most bytes of commands the history keeps, in UTF-8.
pub const HISTORY_BYTES_LIMIT: usize = 1048576;

/// The most characters the transcript keeps.
pub const TRANSCRIPT_LIMIT: usize = 262144;

/// The length of `text` in UTF-8 bytes, which is what `str::len` gives.
pub open spec fn byte_len(text: Seq<char>) -> nat {
    encode_utf8(text).len()
}

/// The UTF-8 bytes of all of `entries`.
pub open spec fn history_bytes(entries: Seq<Seq<char>>) -> nat
    decreases entries.len(),
{
    if entries.len() == 0 {
        0
    } else {
        byte_len(entries[0]) + history_bytes(entries.drop_first())
    }
}

/// Whether `entries` is within the history's bounds.
pub open spec fn within_limits(entries: Seq<Seq<char>>) -> bool {
    entries.len() <= HISTORY_LIMIT && history_bytes(entries) <= HISTORY_BYTES_LIMIT
}

/// `entries` without its oldest commands, as many as it takes to fit the
/// bounds.
pub open spec fn trimmed_to_limits(entries: Seq<Seq<char>>) -> Seq<Seq<char>>
    decreases entries.len(),
{
    if entries.len() > 0 && !within_limits(entries) {
        trimmed_to_limits(entries.drop_first())
    } else {
        entries
    }
}

/// The history after the console ran `source`: a command that fits the
/// byte bound and differs from the last one is added, then the oldest
/// commands go until the history fits its bounds again.
pub open spec fn remembered(entries: Seq<Seq<char>>, source: Seq<char>) -> Seq<Seq<char>> {
    if byte_len(source) <= HISTORY_BYTES_LIMIT && (entries.len() == 0 || entries.last() != source) {
        trimmed_to_limits(entries.push(source))
    } else {
        entries
    }
}

/// A key that walks the history.
#[derive(Clone, Copy, Debug, PartialEq, Eq)]
pub enum HistoryKey {
    /// The command before the one shown.
    Up,
    /// The command after the one shown, or an empty input after the last.
    Down,
    /// Back to an empty input.
    Escape,
}

/// Where the history cursor stands after `key` when it stood at `cursor`,
/// and the text the input gets, if it changes.
pub open spec fn recalled(entries: Seq<Seq<char>>, cursor: nat, key: HistoryKey) -> (nat, Option<
    Seq<char>,
>) {
    match key {
        HistoryKey::Up => if cursor > 0 {
            ((cursor - 1) as nat, Some(entries[cursor - 1]))
        } else {
            (cursor, None)
        },
        HistoryKey::Down => if cursor + 1 < entries.len() {
            (cursor + 1, Some(entries[cursor + 1 as int]))
        } else {
            (entries.len(), Some(Seq::empty()))
        },
        HistoryKey::Escape => (entries.len(), Some(Seq::empty())),
    }
}

/// The commands that the console ran, oldest first, within the bounds of
/// `HISTORY_LIMIT` commands and `HISTORY_BYTES_LIMIT` bytes.
pub struct CommandHistory {
    entries: Vec<String>,
}

impl View for CommandHistory {
    type V = Seq<Seq<char>>;

    closed spec fn view(&self) -> Seq<Seq<char>> {
        self.entries@.map_values(|entry: String| entry@)
    }
}

/// The bytes of a history grow by those of a command added at its end.
proof fn lemma_history_bytes_push(entries: Seq<Seq<char>>, source: Seq<char>)
    ensures
        history_bytes(entries.push(source)) == history_bytes(entries) + byte_len(source),
    decreases entries.len(),
{
    let pushed = entries.push(source);
    assert(history_bytes(pushed) == byte_len(pushed[0]) + history_bytes(pushed.drop_first()));
    if entries.len() > 0 {
        assert(pushed[0] == entries[0]);
        assert(pushed.drop_first() =~= entries.drop_first().push(source));
        lemma_history_bytes_push(entries.drop_first(), source);
        assert(history_bytes(entries) == byte_len(entries[0]) + history_bytes(entries.drop_first()));
    } else {
        assert(pushed[0] == source);
        assert(pushed.drop_first() =~= Seq::<Seq<char>>::empty());
        assert(history_bytes(Seq::<Seq<char>>::empty()) == 0);
        assert(history_bytes(entries) == 0);
    }
}

/// Each character takes one to four bytes in UTF-8.
proof fn lemma_byte_len_bounds(text: Seq<char>)
    ensures
        text.len() <= byte_len(text) <= 4 * text.len(),
    decreases text.len(),
{
    if text.len() > 0 {
        lemma_byte_len_bounds(text.drop_first());
        let first = vstd::utf8::encode_scalar(text[0] as u32);
        assert(1 <= first.len() <= 4);
        assert(encode_utf8(text) == first + encode_utf8(text.drop_first()));
    } else {
        assert(encode_utf8(text) == Seq::<u8>::empty());
    }
}

impl CommandHistory {
    /// The history stays within its bounds.
    pub closed spec fn wf(&self) -> bool {
        within_limits(self@)
    }

    /// An empty history.
    pub fn new() -> (history: Self)
        ensures
            history.wf(),
            history@ == Seq::<Seq<char>>::empty(),
    {
        let history = CommandHistory { entries: Vec::new() };
        assert(history@ =~= Seq::<Seq<char>>::empty());
        history
    }

    /// The number of commands in the history.
    pub fn len(&self) -> (count: usize)
        ensures
            count == self@.len(),
    {
        self.entries.len()
    }

    /// Remembers that the console is about to run `source`, unless it is
    /// blank, and says whether it is to run; see `remembered`.
    pub fn remember(&mut self, source: &str) -> (run: bool)
        requires
            old(self).wf(),
        ensures
            final(self).wf(),
            run == (trimmed(source@).len() > 0),
            final(self)@ == if run {
                remembered(old(self)@, source@)
            } else {
                old(self)@
            },
    {
        let chars = chars_of(source);
        let (lo, hi) = trim_bounds(&chars);
        if lo == hi {
            return false;
        }
        proof {
            lemma_byte_len_bounds(source@);
        }
        if chars.len() > HISTORY_BYTES_LIMIT {
            return true;
        }
        let bytes = source.len();
        if bytes > HISTORY_BYTES_LIMIT {
            return true;
        }
        let text = string_of(source);
        let count = self.entries.len();
        if count > 0 && self.entries[count - 1] == text {
            proof {
                assert(self@.last() == self.entries@[count - 1]@);
            }
            return true;
        }
        proof {
            assert(count == 0 || self@.last() == self.entries@[count - 1]@);
        }
        let ghost before = self@;
        let mut total = self.total_bytes();
        self.entries.push(text);
        total = total + bytes;
        proof {
            assert(self@ =~= before.push(source@));
            lemma_history_bytes_push(before, source@);
        }
        let ghost pushed = self@;
        while self.entries.len() > HISTORY_LIMIT || total > HISTORY_BYTES_LIMIT
            invariant
                total == history_bytes(self@),
                total <= 2 * HISTORY_BYTES_LIMIT,
                self@.len() <= HISTORY_LIMIT + 1,
                trimmed_to_limits(self@) == trimmed_to_limits(pushed),
            decreases self.entries@.len(),
        {
            proof {
                if self@.len() == 0 {
                    assert(history_bytes(self@) == 0);
                }
            }
            let first = self.entries[0].as_str().len();
            let ghost current = self@;
            self.entries.remove(0);
            proof {
                assert(self@ =~= current.drop_first());
                assert(first == byte_len(current[0]));
            }
            total = total - first;
        }
        proof {
            assert(trimmed_to_limits(self@) == self@);
        }
        true
    }

    /// The UTF-8 bytes of all the commands.
    fn total_bytes(&self) -> (total: usize)
        requires
            self.wf(),
        ensures
            total == history_bytes(self@),
    {
        let mut total: usize = 0;
        let mut i: usize = 0;
        proof {
            assert(self@.skip(0) =~= self@);
        }
        while i < self.entries.len()
            invariant
                i <= self.entries@.len(),
                history_bytes(self@) <= HISTORY_BYTES_LIMIT,
                total + history_bytes(self@.skip(i as int)) == history_bytes(self@),
            decreases self.entries@.len() - i,
        {
            let ghost rest = self@.skip(i as int);
            proof {
                assert(rest.drop_first() =~= self@.skip(i + 1));
                assert(rest[0] == self.entries@[i as int]@);
            }
            total = total + self.entries[i].as_str().len();
            i += 1;
        }
        proof {
            assert(self@.skip(i as int) =~= Seq::<Seq<char>>::empty());
        }
        total
    }

    /// Walks the history from `cursor` with `key`; see `recalled`.
    pub fn recall(&self, cursor: usize, key: HistoryKey) -> (step: (usize, Option<String>))
        requires
            cursor <= self@.len(),
        ensures
            step.0 == recalled(self@, cursor as nat, key).0,
            match step.1 {
                Some(text) => recalled(self@, cursor as nat, key).1 == Some(text@),
                None => recalled(self@, cursor as nat, key).1 is None,
            },
    {
        let count = self.entries.len();
        match key {
            HistoryKey::Up => {
                if cursor > 0 {
                    proof {
                        assert(self@[cursor - 1] == self.entries@[cursor - 1]@);
                    }
                    (cursor - 1, Some(self.entries[cursor - 1].clone()))
                } else {
                    (cursor, None)
                }
            },
            HistoryKey::Down => {
                if count > 0 && cursor < count - 1 {
                    proof {
                        assert(self@[cursor + 1] == self.entries@[cursor + 1]@);
                    }
                    (cursor + 1, Some(self.entries[cursor + 1].clone()))
                } else {
                    (count, Some(String::new()))
                }
            },
            HistoryKey::Escape => (count, Some(String::new())),
        }
    }
}

/// The transcript after `message` was appended on a line of its own, with
/// the oldest characters dropped beyond `TRANSCRIPT_LIMIT`; an empty
/// message changes nothing.
pub open spec fn transcript_after(transcript: Seq<char>, message: Seq<char>) -> Seq<char> {
    if message.len() == 0 {
        transcript
    } else {
        let joined = if transcript.len() == 0 {
            message
        } else {
            transcript.push('\n') + message
        };
        if joined.len() > TRANSCRIPT_LIMIT {
            joined.skip(joined.len() - TRANSCRIPT_LIMIT)
        } else {
            joined
        }
    }
}

/// Appends `message` to the console transcript; see `transcript_after`.
pub fn append_transcript(transcript: &mut String, message: &str)
    ensures
        final(transcript)@ == transcript_after(old(transcript)@, message@),
{
    let added = chars_of(message);
    if added.len() == 0 {
        return;
    }
    let current = chars_of(transcript.as_str());
    if current.len() > 0 {
        transcript.push('\n');
    }
    push_text(transcript, message);
    let all = chars_of(transcript.as_str());
    proof {
        let joined = if old(transcript)@.len() == 0 {
            message@
        } else {
            old(transcript)@.push('\n') + message@
        };
        assert(all@ =~= joined);
    }
    if all.len() > TRANSCRIPT_LIMIT {
        let mut kept = String::new();
        let first = all.len() - TRANSCRIPT_LIMIT;
        let mut i = first;
        while i < all.len()
            invariant
                first <= i <= all@.len(),
                kept@ == all@.subrange(first as int, i as int),
            decreases all@.len() - i,
        {
            kept.push(all[i]);
            i += 1;
            assert(kept@ =~= all@.subrange(first as int, i as int));
        }
        assert(kept@ =~= all@.skip(first as int));
        *transcript = kept;
    }
}

/// Trimming a history whose newest command fits the byte bound keeps that
/// command last, and leaves a history within the bounds.
proof fn lemma_trim_keeps_newest(entries: Seq<Seq<char>>)
    requires
        entries.len() >= 1,
        byte_len(entries.last()) <= HISTORY_BYTES_LIMIT,
    ensures
        trimmed_to_limits(entries).len() >= 1,
        trimmed_to_limits(entries).last() == entries.last(),
        within_limits(trimmed_to_limits(entries)),
    decreases entries.len(),
{
    if !within_limits(entries) {
        if entries.len() == 1 {
            assert(entries.drop_first() =~= Seq::<Seq<char>>::empty());
            assert(history_bytes(entries.drop_first()) == 0);
            assert(history_bytes(entries) == byte_len(entries[0]) + history_bytes(entries.drop_first()));
        } else {
            assert(entries.drop_first().last() == entries.last());
            lemma_trim_keeps_newest(entries.drop_first());
        }
    }
}

/// A command that is run goes into the history as its newest entry, unless
/// it is longer than the byte bound or repeats the newest entry; either way
/// the history stays within its bounds.
pub proof fn lemma_remembered_keeps_the_newest(entries: Seq<Seq<char>>, source: Seq<char>)
    requires
        within_limits(entries),
    ensures
        within_limits(remembered(entries, source)),
        byte_len(source) <= HISTORY_BYTES_LIMIT ==> remembered(entries, source).len() >= 1
            && remembered(entries, source).last() == source,
{
    if byte_len(source) <= HISTORY_BYTES_LIMIT && (entries.len() == 0 || entries.last() != source) {
        lemma_trim_keeps_newest(entries.push(source));
    }
}

/// After a non-empty message the transcript holds the old transcript, a
/// line break when there was one, and the message, cut at the front to
/// `TRANSCRIPT_LIMIT` characters; it ends with the message whenever the
/// message fits.
pub proof fn lemma_transcript_keeps_the_newest(transcript: Seq<char>, message: Seq<char>)
    requires
        message.len() > 0,
    ensures
        ({
            let joined = if transcript.len() == 0 {
                message.len()
            } else {
                transcript.len() + 1 + message.len()
            };
            transcript_after(transcript, message).len() == if joined > TRANSCRIPT_LIMIT {
                TRANSCRIPT_LIMIT as nat
            } else {
                joined
            }
        }),
        message.len() <= TRANSCRIPT_LIMIT ==> transcript_after(transcript, message).subrange(
            transcript_after(transcript, message).len() - message.len(),
            transcript_after(transcript, message).len() as int,
        ) == message,
{
    let after = transcript_after(transcript, message);
    let joined = if transcript.len() == 0 {
        message
    } else {
        transcript.push('\n') + message
    };
    if message.len() <= TRANSCRIPT_LIMIT {
        assert(joined.subrange(joined.len() - message.len(), joined.len() as int) =~= message);
        if joined.len() > TRANSCRIPT_LIMIT {
            assert(after.subrange(after.len() - message.len(), after.len() as int) =~= joined.subrange(
                joined.len() - message.len(),
                joined.len() as int,
            ));
        }
    }
}

} // verus!

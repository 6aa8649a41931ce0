//! What is kept and shown of a process's output, and what is remembered of where
//! programs are.
use vstd::prelude::*;
use vstd::string::*;

use crate::process::capture;
use crate::process::capture::PipeCapture;
use crate::process::outcome;
use crate::process::outcome::ProcessFault;
use crate::process::resolver;
use crate::process::resolver::KeyView;
use crate::text;

verus! {

/// Of a long stream the start and the end are kept, the start with the larger half of
/// the budget, and nothing between them.
pub proof fn law_both_ends_of_a_stream_are_kept(stream: Seq<u8>, budget: usize)
    requires
        stream.len() > budget,
    ensures
        capture::kept(stream, budget as int) == stream.take((budget + 1) / 2) + stream.skip(
            stream.len() - budget / 2,
        ),
        stream.len() <= usize::MAX ==> capture::lost(stream, budget as int) == stream.len() - budget,
{
    let n = (budget + 1) / 2;
    assert(capture::head_budget(budget as int) == n);
    assert(stream.skip(n).skip(stream.skip(n).len() - budget / 2) =~= stream.skip(
        stream.len() - budget / 2,
    ));
}

/// A short line is shown without the white space around it; of a long one its start,
/// with a sign that it goes on.
pub proof fn law_lines_are_shown_from_their_start(line: Seq<char>)
    ensures
        ({
            let shown = capture::bounded_line(line);
            &&& shown.len() <= 160
            &&& text::trim(line).len() <= 160 ==> shown == text::trim(line)
            &&& text::trim(line).len() > 160 ==> shown.len() == 160 && shown.take(159)
                == text::trim(line).take(159) && shown.last() == '…'
        }),
{
    let trimmed = text::trim(line);
    if trimmed.len() > 160 {
        assert(capture::bounded_line(line).take(159) =~= trimmed.take(159));
    }
}

/// The last line that is visible is the last that is not blank.
pub proof fn law_the_last_visible_line_is_found(lines: Seq<Seq<char>>)
    ensures
        match capture::last_visible(lines) {
            Some(line) => exists|i: int|
                0 <= i < lines.len() && #[trigger] lines[i] == line && text::trim(line).len() > 0
                    && forall|j: int|
                    i < j < lines.len() ==> text::trim(#[trigger] lines[j]).len() == 0,
            None => forall|j: int|
                0 <= j < lines.len() ==> text::trim(#[trigger] lines[j]).len() == 0,
        },
    decreases lines.len(),
{
    if lines.len() > 0 {
        let front = lines.drop_last();
        assert(forall|j: int| 0 <= j < front.len() ==> front[j] == lines[j]);
        if text::trim(lines.last()).len() > 0 {
            assert(lines[lines.len() - 1] == lines.last());
        } else {
            law_the_last_visible_line_is_found(front);
            match capture::last_visible(lines) {
                Some(line) => {
                    let i = choose|i: int|
                        0 <= i < front.len() && #[trigger] front[i] == line && text::trim(
                            line,
                        ).len() > 0 && forall|j: int|
                            i < j < front.len() ==> text::trim(#[trigger] front[j]).len() == 0;
                    assert(lines[i] == line);
                    assert forall|j: int| i < j < lines.len() implies text::trim(
                        #[trigger] lines[j],
                    ).len() == 0 by {
                        if j < front.len() {
                            assert(front[j] == lines[j]);
                        }
                    }
                },
                None => {
                    assert forall|j: int| 0 <= j < lines.len() implies text::trim(
                        #[trigger] lines[j],
                    ).len() == 0 by {
                        if j < front.len() {
                            assert(front[j] == lines[j]);
                        }
                    }
                },
            }
        }
    }
}

/// What is said of a stream begins with what was captured of it, and says how much
/// was not, where anything was not.
pub proof fn law_streams_are_shown_as_captured(capture: PipeCapture)
    ensures
        ({
            let shown = outcome::described(Ok(capture));
            &&& text::lossy(capture.bytes@).is_prefix_of(shown)
            &&& capture.discarded_bytes == 0 ==> shown == text::lossy(capture.bytes@)
            &&& capture.discarded_bytes > 0 ==> shown == text::lossy(capture.bytes@) + ("\n["@
                + text::decimal(capture.discarded_bytes as nat)
                + " bytes omitted by capture limit]"@)
        }),
{
    let bytes = text::lossy(capture.bytes@);
    let shown = outcome::described(Ok(capture));
    assert(bytes =~= shown.subrange(0, bytes.len() as int));
    assert(capture.discarded_bytes == 0 ==> shown =~= bytes);
}

/// An error shows both streams under their own names, behind its own words.
pub proof fn law_errors_show_both_streams(
    words: Seq<char>,
    stdout: Result<PipeCapture, ProcessFault>,
    stderr: Result<PipeCapture, ProcessFault>,
)
    ensures
        ({
            let shown = outcome::with_streams(words, stdout, stderr);
            &&& (words + "\nstdout:\n"@ + outcome::described(stdout)).is_prefix_of(shown)
            &&& ("\nstderr:\n"@ + outcome::described(stderr)).is_suffix_of(shown)
            &&& shown.len() == words.len() + "\nstdout:\n"@.len() + outcome::described(stdout).len()
                + "\nstderr:\n"@.len() + outcome::described(stderr).len()
        }),
{
    let shown = outcome::with_streams(words, stdout, stderr);
    let front = words + "\nstdout:\n"@ + outcome::described(stdout);
    let back = "\nstderr:\n"@ + outcome::described(stderr);
    assert(shown =~= front + back);
    assert(front =~= shown.subrange(0, front.len() as int));
    assert(back =~= shown.subrange(shown.len() - back.len(), shown.len() as int));
}

proof fn lemma_place(entries: Seq<(KeyView, Option<Seq<u8>>)>, key: KeyView)
    ensures
        match resolver::position(entries, key) {
            Some(i) => 0 <= i < entries.len() && entries[i].0 == key,
            None => forall|i: int| 0 <= i < entries.len() ==> (#[trigger] entries[i]).0 != key,
        },
    decreases entries.len(),
{
    if entries.len() > 0 && entries.last().0 != key {
        lemma_place(entries.drop_last(), key);
        assert(forall|i: int|
            0 <= i < entries.len() - 1 ==> entries.drop_last()[i] == entries[i]);
    }
}

proof fn lemma_only_place(entries: Seq<(KeyView, Option<Seq<u8>>)>, i: int)
    requires
        resolver::distinct(entries),
        0 <= i < entries.len(),
    ensures
        resolver::recalled(entries, entries[i].0) == Some(entries[i].1),
{
    lemma_place(entries, entries[i].0);
    let k = resolver::position(entries, entries[i].0);
    if k is Some && k->0 != i {
        if k->0 < i {
            assert(entries[k->0].0 != entries[i].0);
        } else {
            assert(entries[i].0 != entries[k->0].0);
        }
    }
}

/// Remembering one place forgets no other, as long as there is room.
pub proof fn law_remembering_forgets_no_other(
    entries: Seq<(KeyView, Option<Seq<u8>>)>,
    key: KeyView,
    place: Option<Seq<u8>>,
    other: KeyView,
)
    requires
        resolver::distinct(entries),
        entries.len() < resolver::EXECUTABLE_CACHE_CAPACITY,
        other != key,
    ensures
        resolver::recalled(resolver::kept_with(entries, key, place), other) == resolver::recalled(
            entries,
            other,
        ),
{
    lemma_place(entries, key);
    lemma_place(entries, other);
    let rest = resolver::forgotten(entries, key);
    let all = resolver::kept_with(entries, key, place);
    assert(all == rest.push((key, place)));
    lemma_place(all, other);
    assert(resolver::distinct(all)) by {
        assert forall|i: int, j: int| 0 <= i < j < all.len() implies (#[trigger] all[i]).0 != (
        #[trigger] all[j]).0 by {
            let gone = resolver::position(entries, key);
            let a = if gone is Some && i >= gone->0 {
                i + 1
            } else {
                i
            };
            assert(rest[i] == entries[a]);
            if j < rest.len() {
                let b = if gone is Some && j >= gone->0 {
                    j + 1
                } else {
                    j
                };
                assert(rest[j] == entries[b]);
            } else if gone is Some {
                if a < gone->0 {
                    assert(entries[a].0 != entries[gone->0].0);
                } else {
                    assert(entries[gone->0].0 != entries[a].0);
                }
            }
        }
    }
    match resolver::position(entries, other) {
        Some(i) => {
            let gone = resolver::position(entries, key);
            let at = if gone is Some && i > gone->0 {
                i - 1
            } else {
                i
            };
            assert(all[at] == entries[i]);
            lemma_only_place(all, at);
        },
        None => {
            if let Some(i) = resolver::position(all, other) {
                let gone = resolver::position(entries, key);
                let a = if gone is Some && i >= gone->0 {
                    i + 1
                } else {
                    i
                };
                assert(all[i].0 == other);
                assert(rest[i] == entries[a]);
            }
        },
    }
}

} // verus!

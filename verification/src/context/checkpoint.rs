//! Structured checkpoints: their validation, and fitting them into a limit.
use vstd::prelude::*;
use vstd::string::*;
use crate::text;

verus! {

/// The number of headings that a checkpoint must hold.
pub const HEADING_COUNT: usize = 7;

/// The headings of a checkpoint, in the order that they must stand in.
pub open spec fn heading_text(i: int) -> Seq<char> {
    if i == 0 {
        "## Goal"@
    } else if i == 1 {
        "## Constraints"@
    } else if i == 2 {
        "## Progress"@
    } else if i == 3 {
        "## Blocked"@
    } else if i == 4 {
        "## Decisions"@
    } else if i == 5 {
        "## Next steps"@
    } else {
        "## Critical context"@
    }
}

fn heading(i: usize) -> (r: &'static str)
    ensures
        r@ == heading_text(i as int),
{
    if i == 0 {
        "## Goal"
    } else if i == 1 {
        "## Constraints"
    } else if i == 2 {
        "## Progress"
    } else if i == 3 {
        "## Blocked"
    } else if i == 4 {
        "## Decisions"
    } else if i == 5 {
        "## Next steps"
    } else {
        "## Critical context"
    }
}

/// The position of the first heading, from the `i`-th on, that reads `line`.
pub open spec fn heading_from(line: Seq<char>, i: int) -> Option<int>
    decreases HEADING_COUNT - i,
{
    if i >= HEADING_COUNT {
        None
    } else if heading_text(i) == line {
        Some(i)
    } else {
        heading_from(line, i + 1)
    }
}

/// Which heading a line is, white space around it aside.
pub open spec fn heading_of(line: Seq<char>) -> Option<int> {
    heading_from(text::trim(line), 0)
}

fn find_heading(line: &str) -> (r: Option<usize>)
    ensures
        (match r {
            Some(i) => heading_of(line@) == Some(i as int) && i < HEADING_COUNT,
            None => heading_of(line@) is None,
        }),
{
    let trimmed = text::trimmed(line);
    let mut i: usize = 0;
    while i < HEADING_COUNT
        invariant
            i <= HEADING_COUNT,
            trimmed@ == text::trim(line@),
            heading_of(line@) == heading_from(trimmed@, i as int),
        decreases HEADING_COUNT - i,
    {
        if text::same(heading(i), trimmed.as_str()) {
            return Some(i);
        }
        i = i + 1;
    }
    None
}

/// The headings that stand in the lines, each where it stands first.
pub open spec fn headings_in(lines: Seq<Seq<char>>) -> Seq<int>
    decreases lines.len(),
{
    if lines.len() == 0 {
        Seq::empty()
    } else {
        let before = headings_in(lines.drop_last());
        match heading_of(lines.last()) {
            Some(i) => if before.contains(i) {
                before
            } else {
                before.push(i)
            },
            None => before,
        }
    }
}

/// The first heading, from the `i`-th on, that is not among those found.
pub open spec fn missing_from(found: Seq<int>, i: int) -> Option<int>
    decreases HEADING_COUNT - i,
{
    if i >= HEADING_COUNT {
        None
    } else if !found.contains(i) {
        Some(i)
    } else {
        missing_from(found, i + 1)
    }
}

/// The first position, from `k` on, that holds another heading than the `k`-th.
pub open spec fn misplaced_from(found: Seq<int>, k: int) -> Option<int>
    decreases found.len() - k,
{
    if k >= found.len() {
        None
    } else if found[k] != k {
        Some(k)
    } else {
        misplaced_from(found, k + 1)
    }
}

/// What is wrong with a checkpoint, as a message; nothing where it is valid: not
/// blank, within the limit, and with every heading, each first met in order.
pub open spec fn checkpoint_fault(summary: Seq<char>, max_bytes: nat) -> Option<Seq<char>> {
    let found = headings_in(text::lines(summary));
    if text::trim(summary).len() == 0 {
        Some("checkpoint content is empty"@)
    } else if text::byte_len(summary) > max_bytes {
        Some(
            "checkpoint content exceeds the configured limit of "@ + text::decimal(max_bytes)
                + " bytes ("@ + text::decimal(text::byte_len(summary)) + " bytes)"@,
        )
    } else if let Some(i) = missing_from(found, 0) {
        Some("checkpoint content omitted required heading: "@ + heading_text(i))
    } else if let Some(k) = misplaced_from(found, 0) {
        Some(
            "checkpoint heading out of order: expected '"@ + heading_text(k) + "', found '"@
                + heading_text(found[k]) + "'"@,
        )
    } else {
        None
    }
}

fn limit_message(start: &str, max_bytes: usize, actual: usize) -> (r: String)
    ensures
        r@ == start@ + text::decimal(max_bytes as nat) + " bytes ("@ + text::decimal(
            actual as nat,
        ) + " bytes)"@,
{
    let mut m = start.to_owned();
    m.append(text::decimal_of(max_bytes as u64).as_str());
    m.append(" bytes (");
    m.append(text::decimal_of(actual as u64).as_str());
    m.append(" bytes)");
    m
}

/// Validate the final checkpoint body after all runtime metadata has been
/// mounted. The limit is measured in UTF-8 bytes, matching the wire/storage
/// contract; `&str` guarantees that accepted content is valid UTF-8.
pub fn validate_checkpoint_content(summary: &str, max_bytes: usize) -> (r: Result<(), String>)
    ensures
        (match r {
            Ok(_) => checkpoint_fault(summary@, max_bytes as nat) is None,
            Err(message) => checkpoint_fault(summary@, max_bytes as nat) == Some(message@),
        }),
{
    if text::trimmed(summary).as_str().is_empty() {
        return Err("checkpoint content is empty".to_owned());
    }
    let length: usize = text::byte_count(summary);
    if length > max_bytes {
        return Err(
            limit_message("checkpoint content exceeds the configured limit of ", max_bytes, length),
        );
    }
    let lines = text::lines_of(summary);
    let ghost all = text::lines(summary@);
    let mut found: Vec<usize> = Vec::new();
    let mut seen: Vec<bool> = Vec::new();
    let mut s: usize = 0;
    while s < HEADING_COUNT
        invariant
            s <= HEADING_COUNT,
            seen@.len() == s,
            forall|k: int| 0 <= k < s ==> !seen@[k],
        decreases HEADING_COUNT - s,
    {
        seen.push(false);
        s = s + 1;
    }
    let ghost marks = found@.map_values(|k: usize| k as int);
    let mut i: usize = 0;
    assert(marks =~= headings_in(all.take(0)));
    while i < lines.len()
        invariant
            i <= lines@.len(),
            text::texts(lines@) == all,
            seen@.len() == HEADING_COUNT,
            marks == found@.map_values(|k: usize| k as int),
            marks == headings_in(all.take(i as int)),
            forall|k: int| 0 <= k < found@.len() ==> found@[k] < HEADING_COUNT,
            forall|k: int| 0 <= k < HEADING_COUNT ==> #[trigger] seen@[k] == marks.contains(k),
        decreases lines@.len() - i,
    {
        assert(all.take(i + 1).drop_last() =~= all.take(i as int));
        assert(all[i as int] == lines@[i as int]@);
        if let Some(index) = find_heading(lines[i].as_str()) {
            if !seen[index] {
                let ghost before = marks;
                seen.set(index, true);
                found.push(index);
                proof {
                    marks = found@.map_values(|k: usize| k as int);
                    assert(marks =~= before.push(index as int));
                    assert forall|k: int| 0 <= k < HEADING_COUNT implies #[trigger] seen@[k]
                        == marks.contains(k) by {
                        if before.contains(k) {
                            let at = choose|at: int| 0 <= at < before.len() && before[at] == k;
                            assert(marks[at] == k);
                        }
                        if k == index {
                            assert(marks[before.len() as int] == k);
                        }
                    }
                }
            }
        }
        i = i + 1;
    }
    assert(all.take(all.len() as int) =~= all);
    let mut m: usize = 0;
    while m < HEADING_COUNT
        invariant
            m <= HEADING_COUNT,
            seen@.len() == HEADING_COUNT,
            missing_from(marks, 0) == missing_from(marks, m as int),
            marks == headings_in(all),
            all == text::lines(summary@),
            text::trim(summary@).len() != 0,
            text::byte_len(summary@) <= max_bytes,
            forall|k: int| 0 <= k < HEADING_COUNT ==> #[trigger] seen@[k] == marks.contains(k),
        decreases HEADING_COUNT - m,
    {
        if !seen[m] {
            let mut message = "checkpoint content omitted required heading: ".to_owned();
            message.append(heading(m));
            return Err(message);
        }
        m = m + 1;
    }
    let mut k: usize = 0;
    while k < found.len()
        invariant
            k <= found@.len(),
            misplaced_from(marks, 0) == misplaced_from(marks, k as int),
            missing_from(marks, 0) is None,
            marks == found@.map_values(|k: usize| k as int),
            marks == headings_in(all),
            all == text::lines(summary@),
            text::trim(summary@).len() != 0,
            text::byte_len(summary@) <= max_bytes,
        decreases found@.len() - k,
    {
        assert(marks[k as int] == found@[k as int]);
        if found[k] != k {
            let mut message = "checkpoint heading out of order: expected '".to_owned();
            message.append(heading(k));
            message.append("', found '");
            message.append(heading(found[k]));
            message.append("'");
            return Err(message);
        }
        k = k + 1;
    }
    Ok(())
}

/// The bodies under the headings met so far, and how many headings that is.
pub struct Sections {
    pub bodies: Seq<Seq<char>>,
    pub next: int,
}

/// A body with one more line.
pub open spec fn with_line(body: Seq<char>, line: Seq<char>) -> Seq<char> {
    if body.len() == 0 {
        line
    } else {
        body.push('\n') + line
    }
}

/// The sections of a checkpoint: a line that is the next heading opens a section,
/// any other line belongs to the section that is open.
pub open spec fn sections_of(lines: Seq<Seq<char>>) -> Sections
    decreases lines.len(),
{
    if lines.len() == 0 {
        Sections { bodies: Seq::new(HEADING_COUNT as nat, |i: int| Seq::empty()), next: 0 }
    } else {
        let before = sections_of(lines.drop_last());
        let line = lines.last();
        if heading_of(line) == Some(before.next) {
            Sections { bodies: before.bodies, next: before.next + 1 }
        } else if before.next > 0 {
            Sections {
                bodies: before.bodies.update(
                    before.next - 1,
                    with_line(before.bodies[before.next - 1], line),
                ),
                next: before.next,
            }
        } else {
            before
        }
    }
}

/// The bodies that a checkpoint holds under its headings.
pub open spec fn section_bodies(summary: Seq<char>) -> Seq<Seq<char>> {
    sections_of(text::lines(summary)).bodies.map_values(|b: Seq<char>| text::trim(b))
}

fn read_sections(summary: &str) -> (out: Vec<String>)
    ensures
        text::texts(out@) == section_bodies(summary@),
        out@.len() == HEADING_COUNT,
{
    let lines = text::lines_of(summary);
    let ghost all = text::lines(summary@);
    let mut bodies: Vec<String> = Vec::new();
    let mut s: usize = 0;
    while s < HEADING_COUNT
        invariant
            s <= HEADING_COUNT,
            bodies@.len() == s,
            forall|k: int| 0 <= k < s ==> (#[trigger] bodies@[k])@ == Seq::<char>::empty(),
        decreases HEADING_COUNT - s,
    {
        bodies.push(String::new());
        s = s + 1;
    }
    let mut next: usize = 0;
    let mut i: usize = 0;
    assert(text::texts(bodies@) =~= sections_of(all.take(0)).bodies);
    while i < lines.len()
        invariant
            i <= lines@.len(),
            text::texts(lines@) == all,
            next <= HEADING_COUNT,
            bodies@.len() == HEADING_COUNT,
            text::texts(bodies@) == sections_of(all.take(i as int)).bodies,
            next == sections_of(all.take(i as int)).next,
        decreases lines@.len() - i,
    {
        assert(all.take(i + 1).drop_last() =~= all.take(i as int));
        assert(all[i as int] == lines@[i as int]@);
        let line = lines[i].as_str();
        let opens = match find_heading(line) {
            Some(index) => index == next,
            None => false,
        };
        if opens {
            next = next + 1;
        } else if next > 0 {
            let ghost before = bodies@;
            let mut body = bodies[next - 1].clone();
            assert(text::texts(before)[next - 1] == body@);
            if !body.as_str().is_empty() {
                body.push('\n');
            } else {
                assert(body@ + line@ =~= line@);
            }
            body.append(line);
            let ghost given = body@;
            bodies.set(next - 1, body);
            assert(text::texts(bodies@) =~= text::texts(before).update(next - 1, given));
        }
        i = i + 1;
    }
    assert(all.take(all.len() as int) =~= all);
    let mut out: Vec<String> = Vec::new();
    let mut t: usize = 0;
    while t < HEADING_COUNT
        invariant
            t <= HEADING_COUNT,
            bodies@.len() == HEADING_COUNT,
            text::texts(bodies@) == sections_of(all).bodies,
            all == text::lines(summary@),
            text::texts(out@) == section_bodies(summary@).take(t as int),
        decreases HEADING_COUNT - t,
    {
        let ghost done = out@;
        let body = text::trimmed(bodies[t].as_str());
        assert(text::texts(bodies@)[t as int] == bodies@[t as int]@);
        out.push(body);
        assert(text::texts(out@) =~= text::texts(done).push(body@));
        assert(section_bodies(summary@).take(t + 1) =~= section_bodies(summary@).take(
            t as int,
        ).push(body@));
        t = t + 1;
    }
    assert(section_bodies(summary@).take(HEADING_COUNT as int) =~= section_bodies(summary@));
    out
}

/// The first `n` headings, each with its body below it.
pub open spec fn rendered(bodies: Seq<Seq<char>>, n: int) -> Seq<char>
    decreases n,
{
    if n <= 0 {
        Seq::empty()
    } else {
        let before = if n > 1 {
            rendered(bodies, n - 1).push('\n')
        } else {
            Seq::empty()
        };
        (before + heading_text(n - 1)).push('\n') + bodies[n - 1]
    }
}

/// A checkpoint: every heading with its body, and behind them a suffix.
pub open spec fn checkpoint(bodies: Seq<Seq<char>>, suffix: Seq<char>) -> Seq<char> {
    if suffix.len() == 0 {
        rendered(bodies, HEADING_COUNT as int)
    } else {
        rendered(bodies, HEADING_COUNT as int).push('\n') + suffix
    }
}

fn render(bodies: &Vec<String>, suffix: &str) -> (out: String)
    requires
        bodies@.len() == HEADING_COUNT,
    ensures
        out@ == checkpoint(text::texts(bodies@), suffix@),
{
    let mut out = String::new();
    let mut i: usize = 0;
    while i < HEADING_COUNT
        invariant
            i <= HEADING_COUNT,
            bodies@.len() == HEADING_COUNT,
            out@ == rendered(text::texts(bodies@), i as int),
        decreases HEADING_COUNT - i,
    {
        if i > 0 {
            out.push('\n');
        }
        out.append(heading(i));
        out.push('\n');
        out.append(bodies[i].as_str());
        assert(text::texts(bodies@)[i as int] == bodies@[i as int]@);
        i = i + 1;
    }
    if !suffix.is_empty() {
        out.push('\n');
        out.append(suffix);
    }
    out
}

/// The order in which sections get their share of the room.
pub open spec fn priority(p: int) -> int {
    if p == 0 {
        0
    } else if p == 1 {
        2
    } else if p == 2 {
        6
    } else if p == 3 {
        1
    } else if p == 4 {
        3
    } else if p == 5 {
        4
    } else {
        5
    }
}

fn priority_of(p: usize) -> (r: usize)
    ensures
        r == priority(p as int),
        r < HEADING_COUNT,
{
    if p == 0 {
        0
    } else if p == 1 {
        2
    } else if p == 2 {
        6
    } else if p == 3 {
        1
    } else if p == 4 {
        3
    } else if p == 5 {
        4
    } else {
        5
    }
}

/// Shortened bodies, and the room that is left.
pub struct Shares {
    pub bodies: Seq<Seq<char>>,
    pub room: int,
}

/// One section's first share: as much of it as fits into an even part of the room
/// left for the sections not yet served.
pub open spec fn first_share(sections: Seq<Seq<char>>, before: Shares, p: int) -> Shares {
    let i = priority(p);
    let head = text::head_within(sections[i], before.room / (HEADING_COUNT - p));
    Shares {
        bodies: before.bodies.update(i, head),
        room: before.room - text::byte_len(head),
    }
}

/// The shares after the first `p` sections got theirs.
pub open spec fn first_shares(sections: Seq<Seq<char>>, room: int, p: int) -> Shares
    decreases p,
{
    if p <= 0 {
        Shares { bodies: Seq::new(HEADING_COUNT as nat, |i: int| Seq::empty()), room }
    } else {
        first_share(sections, first_shares(sections, room, p - 1), p - 1)
    }
}

/// One section's second share: as much more of it as fits into the room left.
pub open spec fn second_share(sections: Seq<Seq<char>>, before: Shares, p: int) -> Shares {
    let i = priority(p);
    let had = text::byte_len(before.bodies[i]);
    let head = text::head_within(sections[i], had + before.room);
    Shares {
        bodies: before.bodies.update(i, head),
        room: before.room - (text::byte_len(head) - had),
    }
}

/// The shares after the first `p` sections got their second one too.
pub open spec fn second_shares(sections: Seq<Seq<char>>, room: int, p: int) -> Shares
    decreases p,
{
    if p <= 0 {
        first_shares(sections, room, HEADING_COUNT as int)
    } else {
        second_share(sections, second_shares(sections, room, p - 1), p - 1)
    }
}

/// The bodies shortened to `room` bytes together.
pub open spec fn shortened(sections: Seq<Seq<char>>, room: int) -> Seq<Seq<char>> {
    second_shares(sections, room, HEADING_COUNT as int).bodies
}

/// What stands behind the bodies of a shortened checkpoint.
pub open spec fn critical_suffix(operational_suffix: Seq<char>) -> Seq<char> {
    let marker = "[model checkpoint sections truncated to retain operational metadata]"@;
    if operational_suffix.len() == 0 {
        marker
    } else {
        marker + "\n\n"@ + operational_suffix
    }
}

/// A checkpoint without bodies.
pub open spec fn bare_checkpoint(suffix: Seq<char>) -> Seq<char> {
    checkpoint(Seq::new(HEADING_COUNT as nat, |i: int| Seq::empty()), suffix)
}

/// The checkpoint if it is valid, else what is wrong with it.
pub open spec fn checked(content: Seq<char>, max_bytes: nat) -> Result<Seq<char>, Seq<char>> {
    match checkpoint_fault(content, max_bytes) {
        Some(message) => Err(message),
        None => Ok(content),
    }
}

/// What fitting a checkpoint gives.
pub open spec fn fitted(
    summary: Seq<char>,
    operational_suffix: Seq<char>,
    max_bytes: nat,
) -> Result<Seq<char>, Seq<char>> {
    let sections = section_bodies(summary);
    let full = checkpoint(sections, operational_suffix);
    let suffix = critical_suffix(operational_suffix);
    let base = bare_checkpoint(suffix);
    match checkpoint_fault(summary, usize::MAX as nat) {
        Some(message) => Err(message),
        None => if text::byte_len(full) <= max_bytes {
            checked(full, max_bytes)
        } else if text::byte_len(base) > max_bytes {
            Err(
                "checkpoint headings and operational metadata exceed the configured limit of "@
                    + text::decimal(max_bytes) + " bytes ("@ + text::decimal(text::byte_len(base))
                    + " bytes)"@,
            )
        } else {
            checked(
                checkpoint(shortened(sections, max_bytes - text::byte_len(base)), suffix),
                max_bytes,
            )
        },
    }
}

/// What a round of shares keeps: each body is a prefix of its section, no more
/// than the room is given away, and none of it is overdrawn.
pub open spec fn shares_ok(sections: Seq<Seq<char>>, shares: Shares) -> bool {
    &&& shares.bodies.len() == HEADING_COUNT
    &&& shares.room >= 0
    &&& forall|i: int|
        0 <= i < HEADING_COUNT ==> (#[trigger] shares.bodies[i]).is_prefix_of(sections[i])
}

proof fn lemma_first_share(sections: Seq<Seq<char>>, before: Shares, p: int)
    requires
        sections.len() == HEADING_COUNT,
        shares_ok(sections, before),
        0 <= p < HEADING_COUNT,
    ensures
        shares_ok(sections, first_share(sections, before, p)),
        text::byte_len(
            text::head_within(sections[priority(p)], before.room / (HEADING_COUNT - p)),
        ) <= before.room,
{
    let i = priority(p);
    let part = before.room / (HEADING_COUNT - p);
    text::lemma_fitting_head(sections[i], part);
    assert(0 <= part <= before.room) by (nonlinear_arith)
        requires
            part == before.room / (HEADING_COUNT - p),
            before.room >= 0,
            0 <= p < HEADING_COUNT,
            HEADING_COUNT == 7,
    ;
}

proof fn lemma_second_share(sections: Seq<Seq<char>>, before: Shares, p: int)
    requires
        sections.len() == HEADING_COUNT,
        shares_ok(sections, before),
        0 <= p < HEADING_COUNT,
    ensures
        shares_ok(sections, second_share(sections, before, p)),
        text::byte_len(before.bodies[priority(p)]) <= text::byte_len(
            second_share(sections, before, p).bodies[priority(p)],
        ) <= text::byte_len(before.bodies[priority(p)]) + before.room,
{
    let i = priority(p);
    let body = before.bodies[i];
    let section = sections[i];
    let had = text::byte_len(body);
    let room = had + before.room;
    assert(body.is_prefix_of(section));
    let k = body.len() as int;
    assert(section.take(k) =~= body);
    text::lemma_fitting_head(section, room);
    text::lemma_head_covers(section, k, room);
    text::lemma_byte_len_prefix(section, k, text::fitting_head(section, room) as int);
}

proof fn lemma_shares(sections: Seq<Seq<char>>, room: int, p: int)
    requires
        sections.len() == HEADING_COUNT,
        room >= 0,
        0 <= p <= HEADING_COUNT,
    ensures
        shares_ok(sections, first_shares(sections, room, p)),
        shares_ok(sections, second_shares(sections, room, p)),
    decreases HEADING_COUNT, p,
{
    if p > 0 {
        lemma_shares(sections, room, p - 1);
        lemma_first_share(sections, first_shares(sections, room, p - 1), p - 1);
        lemma_second_share(sections, second_shares(sections, room, p - 1), p - 1);
    } else {
        lemma_first_shares(sections, room, HEADING_COUNT as int);
    }
}

proof fn lemma_first_shares(sections: Seq<Seq<char>>, room: int, p: int)
    requires
        sections.len() == HEADING_COUNT,
        room >= 0,
        0 <= p <= HEADING_COUNT,
    ensures
        shares_ok(sections, first_shares(sections, room, p)),
    decreases p,
{
    if p > 0 {
        lemma_first_shares(sections, room, p - 1);
        lemma_first_share(sections, first_shares(sections, room, p - 1), p - 1);
    }
}

/// Shortens the bodies of a checkpoint to `room` bytes together.
fn shorten(sections: &Vec<String>, room: usize) -> (out: Vec<String>)
    requires
        sections@.len() == HEADING_COUNT,
    ensures
        text::texts(out@) == shortened(text::texts(sections@), room as int),
        out@.len() == HEADING_COUNT,
{
    let ghost all = text::texts(sections@);
    let mut out: Vec<String> = Vec::new();
    let mut s: usize = 0;
    while s < HEADING_COUNT
        invariant
            s <= HEADING_COUNT,
            out@.len() == s,
            forall|k: int| 0 <= k < s ==> (#[trigger] out@[k])@ == Seq::<char>::empty(),
        decreases HEADING_COUNT - s,
    {
        out.push(String::new());
        s = s + 1;
    }
    let mut left: usize = room;
    let mut p: usize = 0;
    assert(text::texts(out@) =~= first_shares(all, room as int, 0).bodies);
    while p < HEADING_COUNT
        invariant
            p <= HEADING_COUNT,
            sections@.len() == HEADING_COUNT,
            out@.len() == HEADING_COUNT,
            all == text::texts(sections@),
            text::texts(out@) == first_shares(all, room as int, p as int).bodies,
            left == first_shares(all, room as int, p as int).room,
        decreases HEADING_COUNT - p,
    {
        let i: usize = priority_of(p);
        proof {
            lemma_first_shares(all, room as int, p as int);
            lemma_first_share(all, first_shares(all, room as int, p as int), p as int);
        }
        let ghost before = out@;
        let head = text::head_of(sections[i].as_str(), left / (HEADING_COUNT - p));
        assert(all[i as int] == sections@[i as int]@);
        let ghost given = head@;
        left = left - text::byte_count(head.as_str());
        out.set(i, head);
        assert(text::texts(out@) =~= text::texts(before).update(i as int, given));
        p = p + 1;
    }
    let mut q: usize = 0;
    while q < HEADING_COUNT
        invariant
            q <= HEADING_COUNT,
            sections@.len() == HEADING_COUNT,
            out@.len() == HEADING_COUNT,
            all == text::texts(sections@),
            text::texts(out@) == second_shares(all, room as int, q as int).bodies,
            left == second_shares(all, room as int, q as int).room,
        decreases HEADING_COUNT - q,
    {
        let i: usize = priority_of(q);
        proof {
            lemma_shares(all, room as int, q as int);
            lemma_second_share(all, second_shares(all, room as int, q as int), q as int);
        }
        let ghost before = out@;
        assert(text::texts(before)[i as int] == before[i as int]@);
        assert(all[i as int] == sections@[i as int]@);
        let had: usize = text::byte_count(out[i].as_str());
        let size: usize = text::byte_count(sections[i].as_str());
        proof {
            assert(text::texts(before)[i as int].is_prefix_of(all[i as int]));
            lemma_prefix_bytes(before[i as int]@, all[i as int]);
        }
        let wanted: usize = if size - had < left {
            size
        } else {
            had + left
        };
        proof {
            text::lemma_fitting_head(all[i as int], wanted as int);
            text::lemma_fitting_head(all[i as int], had + left);
        }
        let head = text::head_of(sections[i].as_str(), wanted);
        let ghost given = head@;
        left = left - (text::byte_count(head.as_str()) - had);
        out.set(i, head);
        assert(text::texts(out@) =~= text::texts(before).update(i as int, given));
        q = q + 1;
    }
    out
}

proof fn lemma_prefix_bytes(a: Seq<char>, b: Seq<char>)
    requires
        a.is_prefix_of(b),
    ensures
        text::byte_len(a) <= text::byte_len(b),
{
    assert(b.take(a.len() as int) =~= a);
    assert(b.take(b.len() as int) =~= b);
    text::lemma_byte_len_prefix(b, a.len() as int, b.len() as int);
}

/// Mount deterministic runtime metadata into the final structured checkpoint.
/// When space is tight, only model-authored section bodies are shortened; all
/// required headings and the supplied operational suffix remain intact.
pub fn fit_checkpoint_content(summary: &str, operational_suffix: &str, max_bytes: usize) -> (r:
    Result<String, String>)
    ensures
        (match r {
            Ok(content) => fitted(summary@, operational_suffix@, max_bytes as nat) == Ok::<
                Seq<char>,
                Seq<char>,
            >(content@),
            Err(message) => fitted(summary@, operational_suffix@, max_bytes as nat) == Err::<
                Seq<char>,
                Seq<char>,
            >(message@),
        }),
{
    if let Err(message) = validate_checkpoint_content(summary, usize::MAX) {
        return Err(message);
    }
    let sections = read_sections(summary);
    let full = render(&sections, operational_suffix);
    if text::byte_count(full.as_str()) <= max_bytes {
        return match validate_checkpoint_content(full.as_str(), max_bytes) {
            Ok(_) => Ok(full),
            Err(message) => Err(message),
        };
    }
    let mut suffix =
        "[model checkpoint sections truncated to retain operational metadata]".to_owned();
    if !operational_suffix.is_empty() {
        suffix.append("\n\n");
        suffix.append(operational_suffix);
    }
    let empty: Vec<String> = vec![
        String::new(),
        String::new(),
        String::new(),
        String::new(),
        String::new(),
        String::new(),
        String::new(),
    ];
    assert(text::texts(empty@) =~= Seq::new(HEADING_COUNT as nat, |i: int| Seq::empty()));
    let base = render(&empty, suffix.as_str());
    let needed: usize = text::byte_count(base.as_str());
    if needed > max_bytes {
        return Err(
            limit_message(
                "checkpoint headings and operational metadata exceed the configured limit of ",
                max_bytes,
                needed,
            ),
        );
    }
    let bodies = shorten(&sections, max_bytes - needed);
    let content = render(&bodies, suffix.as_str());
    match validate_checkpoint_content(content.as_str(), max_bytes) {
        Ok(_) => Ok(content),
        Err(message) => Err(message),
    }
}

/// A fitted checkpoint keeps within the limit, holds every heading in order and
/// ends with the operational suffix.
pub proof fn law_fitted_checkpoint_is_valid(
    summary: Seq<char>,
    operational_suffix: Seq<char>,
    max_bytes: nat,
)
    ensures
        fitted(summary, operational_suffix, max_bytes) matches Ok(content) ==> {
            &&& text::byte_len(content) <= max_bytes
            &&& checkpoint_fault(content, max_bytes) is None
            &&& missing_from(headings_in(text::lines(content)), 0) is None
            &&& misplaced_from(headings_in(text::lines(content)), 0) is None
            &&& text::ends_with(content, operational_suffix)
        },
{
    if let Ok(content) = fitted(summary, operational_suffix, max_bytes) {
        let sections = section_bodies(summary);
        let full = checkpoint(sections, operational_suffix);
        let n = content.len() - operational_suffix.len();
        if content == full {
            lemma_ends(rendered(sections, HEADING_COUNT as int), operational_suffix);
        } else {
            let suffix = critical_suffix(operational_suffix);
            let base = bare_checkpoint(suffix);
            let bodies = shortened(sections, max_bytes - text::byte_len(base));
            let front = rendered(bodies, HEADING_COUNT as int).push('\n');
            let marker = "[model checkpoint sections truncated to retain operational metadata]"@;
            reveal_strlit("[model checkpoint sections truncated to retain operational metadata]");
            assert(suffix.len() > 0);
            assert(content == front + suffix);
            if operational_suffix.len() > 0 {
                assert(content =~= (front + marker + "\n\n"@) + operational_suffix);
            }
            assert(content.subrange(n, n + operational_suffix.len()) =~= operational_suffix);
        }
    }
}

proof fn lemma_ends(front: Seq<char>, suffix: Seq<char>)
    ensures
        text::ends_with(
            if suffix.len() == 0 {
                front
            } else {
                front.push('\n') + suffix
            },
            suffix,
        ),
{
    let content = if suffix.len() == 0 {
        front
    } else {
        front.push('\n') + suffix
    };
    let n = content.len() - suffix.len();
    assert(content.subrange(n, n + suffix.len()) =~= suffix);
}

/// Only section bodies are shortened: each body of a shortened checkpoint is the
/// start of the section that it comes from.
pub proof fn law_shortened_bodies_are_prefixes(sections: Seq<Seq<char>>, room: int)
    requires
        sections.len() == HEADING_COUNT,
        room >= 0,
    ensures
        forall|i: int|
            0 <= i < HEADING_COUNT ==> (#[trigger] shortened(sections, room)[i]).is_prefix_of(
                sections[i],
            ),
{
    lemma_shares(sections, room, HEADING_COUNT as int);
}

} // verus!

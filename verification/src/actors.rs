//! The services of the pipeline and the messages they take: the recency
//! buffer, the batch orchestrator and the persistence writer, each as plain
//! state with total operations.

use crate::records::header;
use crate::records::header_text;
use crate::report::none_yet;
use crate::report::report_body;
use crate::report::report_is_header_then_body;
use crate::report::report_text;
use crate::report::tokens;
use crate::report::Batch;
use crate::text::free_of;
use crate::text::joined;
use crate::text::joined_of_concatenation;
use crate::text::joined_splits_back;
use crate::text::pieces;
use crate::text::texts;
use crate::types::Timestamp;
use std::collections::VecDeque;
use vstd::prelude::*;
use vstd::string::StringExecFns;

verus! {

/// The buffer's contents after `report` has been pushed onto `reports`, which
/// are listed most recent first: when exactly `capacity` reports are held the
/// oldest one leaves, then `report` goes to the front.
pub open spec fn pushed(reports: Seq<Seq<char>>, capacity: nat, report: Seq<char>) -> Seq<
    Seq<char>,
> {
    if reports.len() == capacity && reports.len() > 0 {
        seq![report] + reports.drop_last()
    } else {
        seq![report] + reports
    }
}

/// How many reports a read of up to `n` takes from `reports`.
pub open spec fn taken_count(reports: Seq<Seq<char>>, n: nat) -> nat {
    if n <= reports.len() {
        n
    } else {
        reports.len()
    }
}

/// The reports that a read of up to `n` delivers: the most recent ones, in
/// buffer order.
pub open spec fn drained(reports: Seq<Seq<char>>, n: nat) -> Seq<Seq<char>> {
    reports.subrange(0, taken_count(reports, n) as int)
}

/// The reports that stay behind after a read of up to `n`.
pub open spec fn remaining(reports: Seq<Seq<char>>, n: nat) -> Seq<Seq<char>> {
    reports.subrange(taken_count(reports, n) as int, reports.len() as int)
}

/// A report handed to the buffer.
pub struct BufferMessage {
    pub content: String,
}

/// A request for the `n` most recent reports.
pub struct BufferReadMessage {
    pub n: usize,
}

/// A bounded store of recent reports, most recent first, whose reads consume
/// what they deliver.
pub struct BufferActor {
    buffer: VecDeque<String>,
    max_buffer_size: usize,
}

impl BufferActor {
    /// The reports held, most recent first.
    pub closed spec fn reports(&self) -> Seq<Seq<char>> {
        texts(self.buffer@)
    }

    /// The capacity fixed at construction.
    pub closed spec fn capacity(&self) -> nat {
        self.max_buffer_size as nat
    }

    /// An empty buffer that holds up to `max_buffer_size` reports.
    pub fn new(max_buffer_size: usize) -> (actor: Self)
        ensures
            actor.reports() == Seq::<Seq<char>>::empty(),
            actor.capacity() == max_buffer_size,
    {
        let actor = Self { buffer: VecDeque::with_capacity(max_buffer_size), max_buffer_size };
        assert(actor.reports() =~= Seq::<Seq<char>>::empty());
        actor
    }

    /// The number of reports held.
    pub fn len(&self) -> (n: usize)
        ensures
            n == self.reports().len(),
    {
        self.buffer.len()
    }

    /// Stores a report at the front, evicting the oldest one when the buffer
    /// is full.
    pub fn push(&mut self, msg: BufferMessage)
        ensures
            final(self).reports() == pushed(old(self).reports(), old(self).capacity(), msg.content@),
            final(self).capacity() == old(self).capacity(),
    {
        let ghost before = self.buffer@;
        if self.buffer.len() == self.max_buffer_size {
            self.buffer.pop_back();
        }
        let ghost kept = self.buffer@;
        let ghost text = msg.content@;
        self.buffer.push_front(msg.content);
        proof {
            assert(texts(kept) =~= if before.len() == old(self).capacity() && before.len() > 0 {
                texts(before).drop_last()
            } else {
                texts(before)
            });
            assert(texts(self.buffer@) =~= seq![text] + texts(kept));
        }
    }

    /// Removes and returns up to `msg.n` reports, most recent first.
    pub fn drain(&mut self, msg: BufferReadMessage) -> (content: Vec<String>)
        ensures
            texts(content@) == drained(old(self).reports(), msg.n as nat),
            final(self).reports() == remaining(old(self).reports(), msg.n as nat),
            final(self).capacity() == old(self).capacity(),
    {
        let ghost before = self.buffer@;
        let mut content: Vec<String> = Vec::new();
        let mut i: usize = 0;
        while i < msg.n && self.buffer.len() > 0
            invariant
                i <= msg.n,
                i <= before.len(),
                content@.len() == i,
                content@ =~= before.subrange(0, i as int),
                self.buffer@ =~= before.subrange(i as int, before.len() as int),
                self.max_buffer_size == old(self).max_buffer_size,
            decreases msg.n - i,
        {
            match self.buffer.pop_front() {
                Some(line) => {
                    content.push(line);
                },
                None => {},
            }
            i = i + 1;
        }
        proof {
            assert(i == taken_count(texts(before), msg.n as nat));
            assert(texts(content@) =~= drained(texts(before), msg.n as nat));
            assert(texts(self.buffer@) =~= remaining(texts(before), msg.n as nat));
        }
        content
    }
}

/// What one append writes for the report body `body`: the body and a line
/// end, preceded by the header line when the file does not exist yet.
pub open spec fn appended_text(exists: bool, body: Seq<char>) -> Seq<char> {
    if exists {
        body + seq!['\n']
    } else {
        header_text() + seq!['\n'] + body + seq!['\n']
    }
}

/// The file's contents after `body` has been appended, where `file` holds
/// the contents before and is `None` for a file that does not exist.
pub open spec fn file_after(file: Option<Seq<char>>, body: Seq<char>) -> Seq<char> {
    match file {
        Some(contents) => contents + appended_text(true, body),
        None => appended_text(false, body),
    }
}

/// The file after each of `bodies` has been appended in turn.
pub open spec fn file_after_all(file: Option<Seq<char>>, bodies: Seq<Seq<char>>) -> Option<
    Seq<char>,
>
    decreases bodies.len(),
{
    if bodies.len() == 0 {
        file
    } else {
        Some(file_after(file_after_all(file, bodies.drop_last()), bodies.last()))
    }
}

/// `bodies`, each followed by a line end, one after another.
pub open spec fn written(bodies: Seq<Seq<char>>) -> Seq<char>
    decreases bodies.len(),
{
    if bodies.len() == 0 {
        Seq::empty()
    } else {
        written(bodies.drop_last()) + bodies.last() + seq!['\n']
    }
}

/// The bodies of `reports`, each report given by its records.
pub open spec fn report_bodies(reports: Seq<Seq<Seq<char>>>) -> Seq<Seq<char>> {
    Seq::new(reports.len(), |i: int| report_body(reports[i]))
}

/// The records of `reports`, one report after another.
pub open spec fn all_records(reports: Seq<Seq<Seq<char>>>) -> Seq<Seq<char>>
    decreases reports.len(),
{
    if reports.len() == 0 {
        Seq::empty()
    } else {
        all_records(reports.drop_last()) + reports.last()
    }
}

/// The lines of a report's body: its records, or one empty line where it
/// has none.
pub open spec fn body_lines(records: Seq<Seq<char>>) -> Seq<Seq<char>> {
    if records.len() == 0 {
        seq![Seq::empty()]
    } else {
        records
    }
}

/// The lines of the bodies of `reports`, one report after another.
pub open spec fn all_body_lines(reports: Seq<Seq<Seq<char>>>) -> Seq<Seq<char>> {
    all_records(Seq::new(reports.len(), |i: int| body_lines(reports[i])))
}

/// The lines of a file: its pieces between line ends. A file that ends in
/// a line end has an empty last piece.
pub open spec fn file_lines(contents: Seq<char>) -> Seq<Seq<char>> {
    pieces(contents, '\n')
}

/// A request to read the symbol list at `path`.
pub struct DataLoadMessage {
    pub path: String,
}

/// A symbol list to fetch and report on, for the period from `from` to `to`.
pub struct DataProcessMessage {
    pub content: String,
    pub from: Timestamp,
    pub to: Timestamp,
}

/// The batch orchestrator: turns a symbol list into the batch of fetches
/// whose records make up one report.
pub struct DataProcessActor {}

impl DataProcessActor {
    /// Opens the batch for `msg`: one outstanding record per symbol of the
    /// list, in the order of the list.
    pub fn handle(&self, msg: &DataProcessMessage) -> (batch: Batch)
        ensures
            batch.symbols() == tokens(msg.content@),
            batch.lines() == none_yet(tokens(msg.content@).len()),
    {
        Batch::new(msg.content.as_str())
    }
}

/// A symbol list to fetch and report on in one go.
pub struct MonoMessage {
    pub content: String,
    pub from: Timestamp,
    pub to: Timestamp,
}

/// The orchestrator of a pipeline that loads nothing and saves nothing: it
/// only turns a symbol list into a batch.
#[derive(Debug)]
pub struct MonoActor {}

impl MonoActor {
    /// Opens the batch for `msg`: one outstanding record per symbol of the
    /// list, in the order of the list.
    pub fn handle(&self, msg: &MonoMessage) -> (batch: Batch)
        ensures
            batch.symbols() == tokens(msg.content@),
            batch.lines() == none_yet(tokens(msg.content@).len()),
    {
        Batch::new(msg.content.as_str())
    }
}

/// The body of a report to append to the file at `path`.
pub struct DataSaveMessage {
    pub path: String,
    pub content: String,
}

/// The persistence writer: decides what an append writes.
pub struct DataSaveActor {}

impl DataSaveActor {
    /// The text to append for `msg`, given whether the file at its path
    /// exists already.
    pub fn body(&self, exists: bool, msg: &DataSaveMessage) -> (text: String)
        ensures
            text@ == appended_text(exists, msg.content@),
    {
        proof {
            reveal_strlit("\n");
            assert("\n"@ =~= seq!['\n']);
        }
        if exists {
            let mut text = msg.content.clone();
            text.append("\n");
            text
        } else {
            let mut text = header();
            text.append("\n");
            text.append(msg.content.as_str());
            text.append("\n");
            text
        }
    }
}

/// The writer puts the header in front of the first body only: appending
/// two bodies to a fresh path gives the header line, the first body and the
/// second, with nothing between them but line ends.
pub proof fn second_append_writes_no_header(first: Seq<char>, second: Seq<char>)
    ensures
        file_after(Some(file_after(None, first)), second) == header_text() + seq!['\n'] + first
            + seq!['\n'] + second + seq!['\n'],
{
}

/// The first append to a fresh path leaves the file holding exactly the
/// report, header first, and a line end: the writer's header and the
/// report's body make up the report.
pub proof fn first_append_writes_the_report(records: Seq<Seq<char>>)
    requires
        records.len() >= 1,
    ensures
        file_after(None, report_body(records)) == report_text(records) + seq!['\n'],
{
    report_is_header_then_body(records);
}

/// Appending never touches what the file holds already.
pub proof fn append_keeps_contents(contents: Seq<char>, body: Seq<char>)
    ensures
        contents.is_prefix_of(file_after(Some(contents), body)),
        file_after(Some(contents), body).skip(contents.len() as int) == body + seq!['\n'],
{
    assert(file_after(Some(contents), body).skip(contents.len() as int) =~= body + seq!['\n']);
}

/// After any number of appends to a fresh path, one at least, the file is
/// the header line followed by the bodies in the order written.
pub proof fn fresh_file_is_header_then_bodies(bodies: Seq<Seq<char>>)
    requires
        bodies.len() >= 1,
    ensures
        file_after_all(None, bodies) == Some(header_text() + seq!['\n'] + written(bodies)),
    decreases bodies.len(),
{
    let earlier = bodies.drop_last();
    if earlier.len() == 0 {
        assert(written(earlier) =~= Seq::<char>::empty());
        assert(file_after(None, bodies.last()) =~= header_text() + seq!['\n'] + written(bodies));
    } else {
        fresh_file_is_header_then_bodies(earlier);
        assert(file_after(file_after_all(None, earlier), bodies.last()) =~= header_text()
            + seq!['\n'] + written(bodies));
    }
}

/// What holds of every record of every report holds of every record in
/// their concatenation.
proof fn all_records_keep(reports: Seq<Seq<Seq<char>>>, holds: spec_fn(Seq<char>) -> bool)
    requires
        forall|i: int, j: int|
            0 <= i < reports.len() && 0 <= j < reports[i].len() ==> holds(
                #[trigger] reports[i][j],
            ),
    ensures
        forall|k: int|
            0 <= k < all_records(reports).len() ==> holds(#[trigger] all_records(reports)[k]),
    decreases reports.len(),
{
    if reports.len() > 0 {
        let earlier = reports.drop_last();
        assert forall|i: int, j: int|
            0 <= i < earlier.len() && 0 <= j < earlier[i].len() implies holds(
            #[trigger] earlier[i][j],
        ) by {
            assert(earlier[i][j] == reports[i][j]);
        }
        all_records_keep(earlier, holds);
        let front = all_records(earlier);
        let all = all_records(reports);
        assert forall|k: int| 0 <= k < all.len() implies holds(#[trigger] all[k]) by {
            if k < front.len() {
                assert(all[k] == front[k]);
            } else {
                assert(all[k] == reports[reports.len() - 1][k - front.len()]);
            }
        }
    }
}

/// The bodies of reports with at least one record each, written one after
/// another, are the records of all of them, one per line.
proof fn written_bodies_are_lines(reports: Seq<Seq<Seq<char>>>)
    requires
        reports.len() >= 1,
        forall|i: int| 0 <= i < reports.len() ==> (#[trigger] reports[i]).len() >= 1,
    ensures
        all_records(reports).len() >= 1,
        written(report_bodies(reports)) == joined(all_records(reports), seq!['\n']) + seq!['\n'],
    decreases reports.len(),
{
    let sep = seq!['\n'];
    let bodies = report_bodies(reports);
    let earlier = reports.drop_last();
    assert(bodies.drop_last() =~= report_bodies(earlier));
    assert(bodies.last() == report_body(reports.last()));
    assert(reports.last() == reports[reports.len() - 1]);
    if earlier.len() == 0 {
        assert(all_records(earlier) =~= Seq::<Seq<char>>::empty());
        assert(all_records(reports) =~= reports.last());
        assert(written(report_bodies(earlier)) =~= Seq::<char>::empty());
        assert(written(bodies) =~= joined(reports.last(), sep) + sep);
    } else {
        assert forall|i: int| 0 <= i < earlier.len() implies (#[trigger] earlier[i]).len()
            >= 1 by {
            assert(earlier[i] == reports[i]);
        }
        written_bodies_are_lines(earlier);
        joined_of_concatenation(all_records(earlier), reports.last(), sep);
        assert(written(bodies) =~= joined(all_records(reports), sep) + sep);
    }
}

/// The file after appends of reports that have at least one record each.
proof fn lines_of_filled_reports(reports: Seq<Seq<Seq<char>>>)
    requires
        reports.len() >= 1,
        forall|i: int| 0 <= i < reports.len() ==> (#[trigger] reports[i]).len() >= 1,
        forall|i: int, j: int|
            0 <= i < reports.len() && 0 <= j < reports[i].len() ==> free_of(
                #[trigger] reports[i][j],
                '\n',
            ),
    ensures
        file_after_all(None, report_bodies(reports)) is Some,
        file_lines(file_after_all(None, report_bodies(reports)).unwrap()) == (seq![header_text()]
            + all_records(reports)).push(Seq::empty()),
{
    let sep = seq!['\n'];
    let records = all_records(reports);
    let lines = (seq![header_text()] + records).push(Seq::empty());
    fresh_file_is_header_then_bodies(report_bodies(reports));
    written_bodies_are_lines(reports);
    joined_of_concatenation(seq![header_text()], records, sep);
    let file = file_after_all(None, report_bodies(reports)).unwrap();
    assert(joined(seq![header_text()], sep) == header_text());
    assert(lines.drop_last() =~= seq![header_text()] + records);
    assert(joined(lines, sep) == joined(lines.drop_last(), sep) + sep + lines.last());
    assert(file =~= joined(lines, sep));
    reveal_strlit("period start,symbol,price,change %,min,max,30d avg");
    assert(free_of(header_text(), '\n'));
    all_records_keep(reports, |record: Seq<char>| free_of(record, '\n'));
    assert forall|k: int| 0 <= k < lines.len() implies free_of(#[trigger] lines[k], '\n') by {
        if 0 < k < lines.len() - 1 {
            assert(lines[k] == records[k - 1]);
        }
    }
    joined_splits_back(lines, '\n');
}

/// The file holds what the body lines of `reports` hold.
proof fn body_lines_stand_for_reports(reports: Seq<Seq<Seq<char>>>)
    ensures
        report_bodies(Seq::new(reports.len(), |i: int| body_lines(reports[i]))) == report_bodies(
            reports,
        ),
        all_records(Seq::new(reports.len(), |i: int| body_lines(reports[i]))) == all_body_lines(
            reports,
        ),
{
    let filled = Seq::new(reports.len(), |i: int| body_lines(reports[i]));
    assert forall|i: int| 0 <= i < reports.len() implies report_body(#[trigger] filled[i])
        == report_body(reports[i]) by {
        if reports[i].len() == 0 {
            assert(joined(seq![Seq::<char>::empty()], seq!['\n']) == Seq::<char>::empty());
        }
    }
    assert(report_bodies(filled) =~= report_bodies(reports));
}

/// What the file holds, line by line: after the scheduler's appends to a
/// fresh path, one at least, the file is the header line followed by the
/// lines of every report's body in the order written, each ended by a line
/// end. This holds of reports whose records hold no line end.
pub proof fn file_is_header_then_records(reports: Seq<Seq<Seq<char>>>)
    requires
        reports.len() >= 1,
        forall|i: int, j: int|
            0 <= i < reports.len() && 0 <= j < reports[i].len() ==> free_of(
                #[trigger] reports[i][j],
                '\n',
            ),
    ensures
        file_after_all(None, report_bodies(reports)) is Some,
        file_lines(file_after_all(None, report_bodies(reports)).unwrap()) == (seq![header_text()]
            + all_body_lines(reports)).push(Seq::empty()),
{
    let filled = Seq::new(reports.len(), |i: int| body_lines(reports[i]));
    body_lines_stand_for_reports(reports);
    assert forall|i: int, j: int| 0 <= i < filled.len() && 0 <= j < filled[i].len() implies free_of(
        #[trigger] filled[i][j],
        '\n',
    ) by {
        if reports[i].len() > 0 {
            assert(filled[i][j] == reports[i][j]);
        }
    }
    lines_of_filled_reports(filled);
}

/// The header stands once in the file, at its very start: after the
/// scheduler's appends to a fresh path, the first line is the header and no
/// other line is. This holds of reports whose records hold no line end and
/// are not themselves the header text.
pub proof fn header_stands_only_at_the_start(reports: Seq<Seq<Seq<char>>>)
    requires
        reports.len() >= 1,
        forall|i: int, j: int|
            0 <= i < reports.len() && 0 <= j < reports[i].len() ==> free_of(
                #[trigger] reports[i][j],
                '\n',
            ),
        forall|i: int, j: int|
            0 <= i < reports.len() && 0 <= j < reports[i].len() ==> #[trigger] reports[i][j]
                != header_text(),
    ensures
        file_after_all(None, report_bodies(reports)) is Some,
        file_lines(file_after_all(None, report_bodies(reports)).unwrap())[0] == header_text(),
        forall|k: int|
            0 < k < file_lines(file_after_all(None, report_bodies(reports)).unwrap()).len()
                ==> #[trigger] file_lines(file_after_all(None, report_bodies(reports)).unwrap())[k]
                != header_text(),
{
    file_is_header_then_records(reports);
    body_lines_stand_for_reports(reports);
    let filled = Seq::new(reports.len(), |i: int| body_lines(reports[i]));
    let records = all_body_lines(reports);
    let lines = file_lines(file_after_all(None, report_bodies(reports)).unwrap());
    reveal_strlit("period start,symbol,price,change %,min,max,30d avg");
    assert(header_text().len() > 0);
    assert forall|i: int, j: int| 0 <= i < filled.len() && 0 <= j < filled[i].len() implies (
    |record: Seq<char>| record != header_text())(#[trigger] filled[i][j]) by {
        if reports[i].len() > 0 {
            assert(filled[i][j] == reports[i][j]);
        }
    }
    all_records_keep(filled, |record: Seq<char>| record != header_text());
    assert forall|k: int| 0 < k < lines.len() implies #[trigger] lines[k] != header_text() by {
        if k < lines.len() - 1 {
            assert(lines[k] == records[k - 1]);
        } else {
            assert(lines[k] == Seq::<char>::empty());
        }
    }
}

/// The buffer's contents after each of `items` has been pushed in turn onto
/// `reports`.
pub open spec fn pushed_all(reports: Seq<Seq<char>>, capacity: nat, items: Seq<Seq<char>>) -> Seq<
    Seq<char>,
>
    decreases items.len(),
{
    if items.len() == 0 {
        reports
    } else {
        pushed(pushed_all(reports, capacity, items.drop_last()), capacity, items.last())
    }
}

/// The last `count` of `items`, latest first.
pub open spec fn latest_first(items: Seq<Seq<char>>, count: nat) -> Seq<Seq<char>>
    recommends
        count <= items.len(),
{
    Seq::new(count, |i: int| items[items.len() - 1 - i])
}

/// A buffer with room for at least one report never holds more than its
/// capacity: pushing onto contents within the capacity stays within it.
pub proof fn push_stays_within_capacity(
    reports: Seq<Seq<char>>,
    capacity: nat,
    report: Seq<char>,
)
    requires
        capacity >= 1,
        reports.len() <= capacity,
    ensures
        pushed(reports, capacity, report).len() <= capacity,
        pushed(reports, capacity, report)[0] == report,
{
}

/// Pushing any number of reports onto an empty buffer with room for at least
/// one leaves exactly the latest ones, as many as fit, latest first.
pub proof fn pushes_keep_the_latest(capacity: nat, items: Seq<Seq<char>>)
    requires
        capacity >= 1,
    ensures
        pushed_all(Seq::empty(), capacity, items) == latest_first(
            items,
            if items.len() <= capacity {
                items.len()
            } else {
                capacity
            },
        ),
    decreases items.len(),
{
    let kept: nat = if items.len() <= capacity {
        items.len()
    } else {
        capacity
    };
    if items.len() == 0 {
        assert(pushed_all(Seq::empty(), capacity, items) =~= latest_first(items, kept));
    } else {
        let earlier = items.drop_last();
        pushes_keep_the_latest(capacity, earlier);
        let kept_earlier: nat = if earlier.len() <= capacity {
            earlier.len()
        } else {
            capacity
        };
        let held = latest_first(earlier, kept_earlier);
        assert(pushed_all(Seq::empty(), capacity, earlier) == held);
        assert(pushed(held, capacity, items.last()) =~= latest_first(items, kept));
    }
}

/// After one report more than the capacity has been pushed onto an empty
/// buffer, a read of `capacity` reports delivers the last `capacity` pushed,
/// latest first, and leaves the buffer empty; the report pushed first is not
/// among them by position, and not by content either unless a later report
/// repeats it.
pub proof fn overflow_drops_the_first(capacity: nat, items: Seq<Seq<char>>)
    requires
        capacity >= 1,
        items.len() == capacity + 1,
    ensures
        drained(pushed_all(Seq::empty(), capacity, items), capacity) == latest_first(
            items,
            capacity,
        ),
        remaining(pushed_all(Seq::empty(), capacity, items), capacity).len() == 0,
        forall|i: int|
            0 <= i < capacity ==> #[trigger] latest_first(items, capacity)[i] == items[capacity
                - i],
        (forall|j: int| 1 <= j <= capacity ==> #[trigger] items[j] != items[0]) ==> !latest_first(
            items,
            capacity,
        ).contains(items[0]),
{
    pushes_keep_the_latest(capacity, items);
    let held = pushed_all(Seq::empty(), capacity, items);
    assert(drained(held, capacity) =~= latest_first(items, capacity));
    if forall|j: int| 1 <= j <= capacity ==> #[trigger] items[j] != items[0] {
        let out = latest_first(items, capacity);
        assert forall|i: int| 0 <= i < out.len() implies out[i] != items[0] by {
            assert(out[i] == items[capacity - i]);
        }
    }
}

/// Reads consume: two reads in a row deliver consecutive, non-overlapping
/// stretches of the buffer, and together exactly what one read of the summed
/// size would have delivered.
pub proof fn reads_do_not_overlap(reports: Seq<Seq<char>>, first: nat, second: nat)
    ensures
        drained(reports, first) + drained(remaining(reports, first), second) == drained(
            reports,
            first + second,
        ),
        remaining(remaining(reports, first), second) == remaining(reports, first + second),
        forall|i: int|
            0 <= i < drained(remaining(reports, first), second).len() ==> #[trigger] drained(
                remaining(reports, first),
                second,
            )[i] == reports[taken_count(reports, first) + i],
{
    assert(drained(reports, first) + drained(remaining(reports, first), second) =~= drained(
        reports,
        first + second,
    ));
    assert(remaining(remaining(reports, first), second) =~= remaining(reports, first + second));
}

} // verus!

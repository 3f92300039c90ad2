//! One tick's report: the symbols of the list, the batch of fetches that
//! fills in their records in any order, and the report assembled from them
//! in input order.

use crate::records::fetch_failed_record;
use crate::records::fetch_failed_text;
use crate::records::header;
use crate::records::header_text;
use crate::text::free_of;
use crate::text::joined;
use crate::text::joined_of_concatenation;
use crate::text::joined_splits_back;
use crate::text::pieces;
use crate::text::texts;
use vstd::prelude::*;
use vstd::std_specs::iter::IteratorSpec;
use vstd::string::StrSliceExecFns;
use vstd::string::StringExecFns;

verus! {

/// The comma-separated tokens of a symbol list, in order, empty ones
/// included.
pub open spec fn tokens(content: Seq<char>) -> Seq<Seq<char>> {
    pieces(content, ',')
}

/// A report: the header line, then the records in the order given, one per
/// line.
pub open spec fn report_text(records: Seq<Seq<char>>) -> Seq<char> {
    joined(seq![header_text()] + records, seq!['\n'])
}

/// The body of a report: the records alone, one per line, without the
/// header.
pub open spec fn report_body(records: Seq<Seq<char>>) -> Seq<char> {
    joined(records, seq!['\n'])
}

/// The records of a batch of `count` symbols before any has come in: every
/// position is outstanding.
pub open spec fn none_yet(count: nat) -> Seq<Option<Seq<char>>> {
    Seq::new(count, |i: int| None)
}

/// Whether every record has been delivered.
pub open spec fn all_delivered(lines: Seq<Option<Seq<char>>>) -> bool {
    forall|i: int| 0 <= i < lines.len() ==> (#[trigger] lines[i]) is Some
}

/// The delivered records, by position.
pub open spec fn delivered(lines: Seq<Option<Seq<char>>>) -> Seq<Seq<char>> {
    Seq::new(lines.len(), |i: int| lines[i].unwrap())
}

/// The records held after the record `line` has come in for position
/// `index`: it takes that position, whatever came in before; a position
/// outside the batch changes nothing.
pub open spec fn with_record(lines: Seq<Option<Seq<char>>>, index: int, line: Seq<char>) -> Seq<
    Option<Seq<char>>,
> {
    if 0 <= index < lines.len() {
        lines.update(index, Some(line))
    } else {
        lines
    }
}

/// The records held after the `arrivals`, each a position with its record,
/// have come in one after another.
pub open spec fn with_records(
    lines: Seq<Option<Seq<char>>>,
    arrivals: Seq<(int, Seq<char>)>,
) -> Seq<Option<Seq<char>>>
    decreases arrivals.len(),
{
    if arrivals.len() == 0 {
        lines
    } else {
        with_record(
            with_records(lines, arrivals.drop_last()),
            arrivals.last().0,
            arrivals.last().1,
        )
    }
}

/// Splits the symbol list at its commas, keeping the order and every token,
/// empty ones included.
pub fn split_symbols(content: &str) -> (symbols: Vec<String>)
    ensures
        texts(symbols@) == tokens(content@),
{
    let total = content.unicode_len();
    let mut symbols: Vec<String> = Vec::new();
    let mut rest = content.chars();
    let mut start: usize = 0;
    let mut at: usize = 0;
    proof {
        assert(content@.subrange(0, 0) =~= Seq::<char>::empty());
        assert(texts(symbols@).push(content@.subrange(0, 0)) =~= seq![Seq::<char>::empty()]);
    }
    loop
        invariant
            start <= at <= total,
            total == content@.len(),
            rest.remaining() == content@.subrange(at as int, total as int),
            texts(symbols@).push(content@.subrange(start as int, at as int)) == tokens(
                content@.subrange(0, at as int),
            ),
        ensures
            at == total,
        decreases total - at,
    {
        let ghost seen = content@.subrange(0, at as int);
        let ghost current = content@.subrange(start as int, at as int);
        let ghost before = rest.remaining();
        match rest.next() {
            Some(c) => {
                let ghost longer = content@.subrange(0, at + 1);
                proof {
                    assert(before.len() > 0);
                    assert(c == before[0]);
                    assert(c == content@[at as int]);
                    assert(longer.drop_last() =~= seen);
                    assert(longer.last() == c);
                    assert(rest.remaining() =~= content@.subrange(at + 1, total as int));
                }
                if c == ',' {
                    let token = content.substring_char(start, at);
                    symbols.push(String::from_str(token));
                    start = at + 1;
                    proof {
                        assert(content@.subrange(start as int, at + 1) =~= Seq::<char>::empty());
                        assert(texts(symbols@).push(Seq::<char>::empty()) =~= tokens(seen).push(
                            Seq::empty(),
                        ));
                    }
                } else {
                    proof {
                        assert(content@.subrange(start as int, at + 1) =~= current.push(c));
                        assert(texts(symbols@).push(current.push(c)) =~= tokens(
                            seen,
                        ).drop_last().push(tokens(seen).last().push(c)));
                    }
                }
                at = at + 1;
            },
            None => {
                proof {
                    assert(before.len() == 0);
                }
                break ;
            },
        }
    }
    let token = content.substring_char(start, at);
    symbols.push(String::from_str(token));
    proof {
        assert(content@.subrange(0, at as int) =~= content@);
        assert(texts(symbols@) =~= tokens(content@));
    }
    symbols
}

/// Assembles a report from the records of one tick, keeping their order.
pub fn assemble_report(records: &Vec<String>) -> (report: String)
    ensures
        report@ == report_text(texts(records@)),
{
    let mut report = header();
    let mut i: usize = 0;
    proof {
        reveal_strlit("\n");
        assert("\n"@ =~= seq!['\n']);
        assert(seq![header_text()] + texts(records@.subrange(0, 0)) =~= seq![header_text()]);
    }
    while i < records.len()
        invariant
            i <= records.len(),
            "\n"@ == seq!['\n'],
            report@ == report_text(texts(records@.subrange(0, i as int))),
        decreases records.len() - i,
    {
        let ghost lines = seq![header_text()] + texts(records@.subrange(0, i as int));
        let ghost longer = seq![header_text()] + texts(records@.subrange(0, i + 1));
        report.append("\n");
        report.append(records[i].as_str());
        proof {
            assert(longer.drop_last() =~= lines);
            assert(longer.last() == records@[i as int]@);
        }
        i = i + 1;
    }
    proof {
        assert(records@.subrange(0, i as int) =~= records@);
    }
    report
}

/// Assembles the body of a report from the records of one tick, keeping
/// their order.
pub fn assemble_body(records: &Vec<String>) -> (body: String)
    ensures
        body@ == report_body(texts(records@)),
{
    let mut body = String::new();
    let mut i: usize = 0;
    proof {
        reveal_strlit("\n");
        assert("\n"@ =~= seq!['\n']);
        assert(texts(records@.subrange(0, 0)) =~= Seq::<Seq<char>>::empty());
    }
    while i < records.len()
        invariant
            i <= records.len(),
            "\n"@ == seq!['\n'],
            body@ == report_body(texts(records@.subrange(0, i as int))),
        decreases records.len() - i,
    {
        let ghost lines = texts(records@.subrange(0, i as int));
        let ghost longer = texts(records@.subrange(0, i + 1));
        if i > 0 {
            body.append("\n");
        }
        body.append(records[i].as_str());
        proof {
            assert(longer.drop_last() =~= lines);
            assert(longer.last() == records@[i as int]@);
            if i == 0 {
                assert(body@ =~= longer[0]);
            }
        }
        i = i + 1;
    }
    proof {
        assert(records@.subrange(0, i as int) =~= records@);
    }
    body
}

/// One tick's report: the records of the symbols, in input order. The
/// buffer takes its text, header first; the file takes its body.
pub struct Report {
    records: Vec<String>,
}

impl Report {
    /// The records, in input order.
    pub closed spec fn records(&self) -> Seq<Seq<char>> {
        texts(self.records@)
    }

    /// The report of `records`.
    pub fn new(records: Vec<String>) -> (report: Self)
        ensures
            report.records() == texts(records@),
    {
        Report { records }
    }

    /// The whole report: the header line, then the records, one per line.
    pub fn text(&self) -> (text: String)
        ensures
            text@ == report_text(self.records()),
    {
        assemble_report(&self.records)
    }

    /// The report without its header line: what is appended to the file.
    pub fn body(&self) -> (body: String)
        ensures
            body@ == report_body(self.records()),
    {
        assemble_body(&self.records)
    }
}

struct Slot {
    symbol: String,
    line: Option<String>,
}

/// One tick's fan-out: the symbols of the list in input order, each with the
/// place where its record goes once its fetch has finished.
pub struct Batch {
    slots: Vec<Slot>,
}

impl Batch {
    /// The symbols, in input order.
    pub closed spec fn symbols(&self) -> Seq<Seq<char>> {
        Seq::new(self.slots@.len(), |i: int| self.slots@[i].symbol@)
    }

    /// The records, by the position of their symbol.
    pub closed spec fn lines(&self) -> Seq<Option<Seq<char>>> {
        Seq::new(
            self.slots@.len(),
            |i: int|
                match self.slots@[i].line {
                    Some(l) => Some(l@),
                    None => None,
                },
        )
    }

    /// A batch with one outstanding record per token of `content`.
    pub fn new(content: &str) -> (batch: Self)
        ensures
            batch.symbols() == tokens(content@),
            batch.lines() == none_yet(tokens(content@).len()),
    {
        let symbols = split_symbols(content);
        let mut slots: Vec<Slot> = Vec::new();
        let mut i: usize = 0;
        while i < symbols.len()
            invariant
                i <= symbols.len(),
                slots@.len() == i,
                forall|k: int|
                    0 <= k < i ==> (#[trigger] slots@[k]).symbol@ == symbols@[k]@
                        && slots@[k].line is None,
            decreases symbols.len() - i,
        {
            let symbol = symbols[i].clone();
            slots.push(Slot { symbol, line: None });
            i = i + 1;
        }
        let batch = Batch { slots };
        proof {
            assert(batch.symbols() =~= texts(symbols@));
            assert(batch.lines() =~= none_yet(tokens(content@).len()));
        }
        batch
    }

    /// The number of symbols.
    pub fn len(&self) -> (n: usize)
        ensures
            n == self.symbols().len(),
            n == self.lines().len(),
    {
        self.slots.len()
    }

    /// The symbol at position `index`, if there is one.
    pub fn symbol(&self, index: usize) -> (symbol: Option<String>)
        ensures
            match symbol {
                Some(s) => index < self.symbols().len() && s@ == self.symbols()[index as int],
                None => index >= self.symbols().len(),
            },
    {
        if index < self.slots.len() {
            Some(self.slots[index].symbol.clone())
        } else {
            None
        }
    }

    /// Files the record of the symbol at position `index`, and says whether
    /// there is such a position.
    pub fn complete(&mut self, index: usize, line: String) -> (known: bool)
        ensures
            known == (index < old(self).lines().len()),
            final(self).lines() == with_record(old(self).lines(), index as int, line@),
            final(self).symbols() == old(self).symbols(),
    {
        if index < self.slots.len() {
            let symbol = self.slots[index].symbol.clone();
            let ghost text = line@;
            self.slots.set(index, Slot { symbol, line: Some(line) });
            proof {
                assert(self.lines() =~= with_record(old(self).lines(), index as int, text));
                assert(self.symbols() =~= old(self).symbols());
            }
            true
        } else {
            false
        }
    }

    /// Files the fetch-failure placeholder for the symbol at position
    /// `index`, whose fetch ended without a record, and says whether there
    /// is such a position.
    pub fn fail(&mut self, index: usize) -> (known: bool)
        ensures
            known == (index < old(self).lines().len()),
            final(self).lines() == with_record(
                old(self).lines(),
                index as int,
                fetch_failed_text(),
            ),
            final(self).symbols() == old(self).symbols(),
    {
        self.complete(index, fetch_failed_record())
    }

    /// The report, once every record is in: the records in the order of
    /// their symbols in the input, whatever the order in which they came in.
    pub fn report(&self) -> (report: Option<Report>)
        ensures
            report is Some <==> all_delivered(self.lines()),
            report matches Some(r) ==> r.records() == delivered(self.lines()),
    {
        let mut records: Vec<String> = Vec::new();
        let mut i: usize = 0;
        while i < self.slots.len()
            invariant
                i <= self.slots@.len(),
                records@.len() == i,
                forall|k: int|
                    0 <= k < i ==> (#[trigger] self.slots@[k]).line is Some && records@[k]@
                        == self.slots@[k].line.unwrap()@,
            decreases self.slots.len() - i,
        {
            match &self.slots[i].line {
                Some(line) => {
                    records.push(line.clone());
                },
                None => {
                    proof {
                        assert(self.lines()[i as int] is None);
                    }
                    return None;
                },
            }
            i = i + 1;
        }
        proof {
            assert forall|k: int| 0 <= k < self.lines().len() implies (#[trigger] self.lines()[k])
                is Some by {
                assert(self.slots@[k].line is Some);
            }
            assert(texts(records@) =~= delivered(self.lines()));
        }
        Some(Report::new(records))
    }
}

/// A report with at least one record is the header line followed by its
/// body.
pub proof fn report_is_header_then_body(records: Seq<Seq<char>>)
    requires
        records.len() >= 1,
    ensures
        report_text(records) == header_text() + seq!['\n'] + report_body(records),
{
    joined_of_concatenation(seq![header_text()], records, seq!['\n']);
    assert(joined(seq![header_text()], seq!['\n']) == header_text());
}

/// A report is the header and the records, one per line; so where no record
/// holds a line end, a report splits at its line ends into exactly the
/// header followed by the records, in their order.
pub proof fn report_has_one_line_per_record(records: Seq<Seq<char>>)
    requires
        forall|i: int| 0 <= i < records.len() ==> free_of(#[trigger] records[i], '\n'),
    ensures
        pieces(report_text(records), '\n') == seq![header_text()] + records,
{
    let lines = seq![header_text()] + records;
    reveal_strlit("period start,symbol,price,change %,min,max,30d avg");
    assert(free_of(header_text(), '\n'));
    assert forall|i: int| 0 <= i < lines.len() implies free_of(#[trigger] lines[i], '\n') by {
        if i > 0 {
            assert(lines[i] == records[i - 1]);
        }
    }
    joined_splits_back(lines, '\n');
}

/// Records end up in input order whatever the order of arrival: when the
/// record of every position has come in, in any order and however often, the
/// batch holds exactly the record of each position at that position.
pub proof fn arrival_order_is_irrelevant(records: Seq<Seq<char>>, order: Seq<int>)
    requires
        forall|k: int| 0 <= k < order.len() ==> 0 <= #[trigger] order[k] < records.len(),
        forall|i: int| 0 <= i < records.len() ==> order.contains(i),
    ensures
        all_delivered(
            with_records(
                none_yet(records.len()),
                Seq::new(order.len(), |k: int| (order[k], records[order[k]])),
            ),
        ),
        delivered(
            with_records(
                none_yet(records.len()),
                Seq::new(order.len(), |k: int| (order[k], records[order[k]])),
            ),
        ) == records,
{
    let arrivals = Seq::new(order.len(), |k: int| (order[k], records[order[k]]));
    arrivals_fill_their_positions(records, order, order.len());
    assert(arrivals.subrange(0, order.len() as int) =~= arrivals);
    let held = with_records(none_yet(records.len()), arrivals);
    assert forall|i: int| 0 <= i < held.len() implies (#[trigger] held[i]) == Some(
        records[i],
    ) by {
        assert(order.contains(i));
        let k = choose|k: int| 0 <= k < order.len() && order[k] == i;
        assert(order[k] == i);
    }
    assert(delivered(held) =~= records);
}

/// After the first `upto` arrivals of `order`, every position named among
/// them holds its own record and every other position is as it was.
proof fn arrivals_fill_their_positions(records: Seq<Seq<char>>, order: Seq<int>, upto: nat)
    requires
        upto <= order.len(),
        forall|k: int| 0 <= k < order.len() ==> 0 <= #[trigger] order[k] < records.len(),
    ensures
        ({
            let arrivals = Seq::new(order.len(), |k: int| (order[k], records[order[k]]));
            let held = with_records(none_yet(records.len()), arrivals.subrange(0, upto as int));
            &&& held.len() == records.len()
            &&& forall|k: int| 0 <= k < upto ==> held[#[trigger] order[k]] == Some(records[order[k]])
            &&& forall|i: int|
                0 <= i < held.len() ==> (#[trigger] held[i]) is None || held[i] == Some(records[i])
        }),
    decreases upto,
{
    let arrivals = Seq::new(order.len(), |k: int| (order[k], records[order[k]]));
    if upto > 0 {
        arrivals_fill_their_positions(records, order, (upto - 1) as nat);
        let now = arrivals.subrange(0, upto as int);
        assert(now.drop_last() =~= arrivals.subrange(0, upto - 1));
        assert(now.last() == arrivals[upto - 1]);
        let earlier = with_records(none_yet(records.len()), arrivals.subrange(0, upto - 1));
        let held = with_records(none_yet(records.len()), now);
        assert(held == with_record(earlier, order[upto - 1], records[order[upto - 1]]));
        assert forall|k: int| 0 <= k < upto implies held[#[trigger] order[k]] == Some(
            records[order[k]],
        ) by {
            if k < upto - 1 {
                assert(earlier[order[k]] == Some(records[order[k]]));
            }
        }
    } else {
        assert(arrivals.subrange(0, 0) =~= Seq::empty());
    }
}

} // verus!

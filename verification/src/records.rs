//! The lines of a report: the header, the record of a priced symbol and the
//! placeholders for symbols without prices.

use crate::text::free_of;
use crate::text::joined;
use crate::text::joined_splits_back;
use crate::text::pieces;
use crate::types::Figures;
use crate::types::Timestamp;
use vstd::prelude::*;
use vstd::string::StringExecFns;

verus! {

/// The column titles that open every report and every fresh output file.
pub open spec fn header_text() -> Seq<char> {
    "period start,symbol,price,change %,min,max,30d avg"@
}

/// The record written for a symbol whose prices could not be fetched.
pub open spec fn fetch_failed_text() -> Seq<char> {
    "Could not fetch closing data"@
}

/// The record written for a symbol whose price series came back empty.
pub open spec fn empty_series_text() -> Seq<char> {
    "Retrieved Series is is empty"@
}

/// The placeholder, if any, for a fetch that delivered `closes` prices, `None`
/// standing for a failed fetch: a failed fetch and an empty series each have
/// their own text, a non-empty series has none.
pub open spec fn degraded_text(closes: Option<usize>) -> Option<Seq<char>> {
    match closes {
        None => Some(fetch_failed_text()),
        Some(n) => if n == 0 {
            Some(empty_series_text())
        } else {
            None
        },
    }
}

/// The fields of a record, in column order: period start, symbol, last
/// price, percent change, minimum, maximum and moving average, amounts with
/// a dollar sign and the change with a percent sign.
pub open spec fn record_fields(start: Seq<char>, symbol: Seq<char>, figures: Figures) -> Seq<
    Seq<char>,
> {
    seq![
        start,
        symbol,
        seq!['$'] + figures.last_price@,
        figures.percent_change@ + seq!['%'],
        seq!['$'] + figures.min@,
        seq!['$'] + figures.max@,
        seq!['$'] + figures.average@,
    ]
}

/// One record: its fields, comma separated.
pub open spec fn record_text(start: Seq<char>, symbol: Seq<char>, figures: Figures) -> Seq<char> {
    joined(record_fields(start, symbol, figures), seq![','])
}

/// The header line.
pub fn header() -> (line: String)
    ensures
        line@ == header_text(),
{
    String::from_str("period start,symbol,price,change %,min,max,30d avg")
}

/// The placeholder record of a symbol whose prices could not be fetched.
pub fn fetch_failed_record() -> (line: String)
    ensures
        line@ == fetch_failed_text(),
{
    String::from_str("Could not fetch closing data")
}

/// The placeholder record that stands in for a symbol without prices, where
/// `closes` is the length of the fetched series, or `None` when the fetch
/// failed. A non-empty series gets no placeholder.
pub fn degraded_record(closes: Option<usize>) -> (line: Option<String>)
    ensures
        match line {
            Some(l) => degraded_text(closes) == Some(l@),
            None => degraded_text(closes) is None,
        },
{
    match closes {
        None => Some(fetch_failed_record()),
        Some(n) => if n == 0 {
            Some(String::from_str("Retrieved Series is is empty"))
        } else {
            None
        },
    }
}

/// Formats one record from the rendered period start, the symbol and the
/// rendered figures.
pub fn record_line(start: &str, symbol: &str, figures: &Figures) -> (line: String)
    ensures
        line@ == record_text(start@, symbol@, *figures),
{
    proof {
        record_text_written_out(start@, symbol@, *figures);
        reveal_strlit(",");
        reveal_strlit(",$");
        reveal_strlit("%,$");
        assert(","@ =~= seq![',']);
        assert(",$"@ =~= seq![',', '$']);
        assert("%,$"@ =~= seq!['%', ',', '$']);
    }
    let mut line = String::from_str(start);
    line.append(",");
    line.append(symbol);
    line.append(",$");
    line.append(figures.last_price.as_str());
    line.append(",");
    line.append(figures.percent_change.as_str());
    line.append("%,$");
    line.append(figures.min.as_str());
    line.append(",$");
    line.append(figures.max.as_str());
    line.append(",$");
    line.append(figures.average.as_str());
    line
}

/// Formats the record of `symbol` for the period that starts at `from`.
pub fn symbol_record(symbol: &str, from: &Timestamp, figures: &Figures) -> (line: String)
    ensures
        line@ == record_text(from.rendering(), symbol@, *figures),
{
    let start = from.to_rfc3339();
    record_line(start.as_str(), symbol, figures)
}

/// The fields of a record written out with their commas.
proof fn record_text_written_out(start: Seq<char>, symbol: Seq<char>, figures: Figures)
    ensures
        record_text(start, symbol, figures) == start + seq![','] + symbol + seq![',', '$']
            + figures.last_price@ + seq![','] + figures.percent_change@ + seq!['%', ',', '$']
            + figures.min@ + seq![',', '$'] + figures.max@ + seq![',', '$'] + figures.average@,
{
    let fields = record_fields(start, symbol, figures);
    let sep = seq![','];
    reveal_with_fuel(joined, 8);
    let f6 = fields.drop_last();
    let f5 = f6.drop_last();
    let f4 = f5.drop_last();
    let f3 = f4.drop_last();
    let f2 = f3.drop_last();
    let f1 = f2.drop_last();
    assert(joined(f1, sep) == start);
    assert(joined(f2, sep) == start + sep + symbol);
    assert(joined(f3, sep) == joined(f2, sep) + sep + fields[2]);
    assert(joined(f4, sep) == joined(f3, sep) + sep + fields[3]);
    assert(joined(f5, sep) == joined(f4, sep) + sep + fields[4]);
    assert(joined(f6, sep) == joined(f5, sep) + sep + fields[5]);
    assert(joined(fields, sep) == joined(f6, sep) + sep + fields[6]);
    assert(joined(fields, sep) =~= start + seq![','] + symbol + seq![',', '$']
        + figures.last_price@ + seq![','] + figures.percent_change@ + seq!['%', ',', '$']
        + figures.min@ + seq![',', '$'] + figures.max@ + seq![',', '$'] + figures.average@);
}

/// Where neither the period start, the symbol nor a figure holds a comma, a
/// record splits at its commas into exactly its seven fields.
pub proof fn record_has_seven_fields(start: Seq<char>, symbol: Seq<char>, figures: Figures)
    requires
        free_of(start, ','),
        free_of(symbol, ','),
        free_of(figures.last_price@, ','),
        free_of(figures.percent_change@, ','),
        free_of(figures.min@, ','),
        free_of(figures.max@, ','),
        free_of(figures.average@, ','),
    ensures
        pieces(record_text(start, symbol, figures), ',') == record_fields(start, symbol, figures),
        record_fields(start, symbol, figures).len() == 7,
{
    let fields = record_fields(start, symbol, figures);
    assert forall|i: int| 0 <= i < fields.len() implies free_of(#[trigger] fields[i], ',') by {
        let field = fields[i];
        assert forall|j: int| 0 <= j < field.len() implies #[trigger] field[j] != ',' by {
            if i == 2 && j > 0 {
                assert(field[j] == figures.last_price@[j - 1]);
            } else if i == 3 && j < figures.percent_change@.len() {
                assert(field[j] == figures.percent_change@[j]);
            } else if i == 4 && j > 0 {
                assert(field[j] == figures.min@[j - 1]);
            } else if i == 5 && j > 0 {
                assert(field[j] == figures.max@[j - 1]);
            } else if i == 6 && j > 0 {
                assert(field[j] == figures.average@[j - 1]);
            }
        }
    }
    joined_splits_back(fields, ',');
}

} // verus!

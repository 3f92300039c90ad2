//! The values that flow through the pipeline: instants, options, rendered
//! figures, and the signals as far as positions and ranks decide them.

use vstd::prelude::*;
use vstd::string::StrSliceExecFns;
use vstd::string::StringExecFns;

verus! {

/// The RFC 3339 text of the UTC instant `secs` seconds and `nanos` nanoseconds
/// after the Unix epoch, where the calendar can represent that instant.
pub uninterp spec fn rfc3339_text(secs: i64, nanos: u32) -> Option<Seq<char>>;

/// Renders an instant with `chrono::DateTime::from_timestamp` followed by
/// `chrono::DateTime::to_rfc3339`.
///
/// Trusted: the outcome is a function of the two numbers alone, and instants
/// from the epoch to the end of year 9999 with a sub-second part below one
/// second are always representable.
#[verifier::external_body]
fn rfc3339(secs: i64, nanos: u32) -> (text: Option<String>)
    ensures
        match text {
            Some(t) => rfc3339_text(secs, nanos) == Some(t@),
            None => rfc3339_text(secs, nanos) is None,
        },
        0 <= secs <= 253_402_300_799 && nanos < 1_000_000_000 ==> text is Some,
{
    match chrono::DateTime::from_timestamp(secs, nanos) {
        Some(at) => Some(at.to_rfc3339()),
        None => None,
    }
}

/// The UTC instant that the date-and-time text `text` denotes, as seconds and
/// nanoseconds since the Unix epoch, where the text can be read as one.
pub uninterp spec fn parsed_instant(text: Seq<char>) -> Option<(i64, u32)>;

/// Reads a date and time with chrono's `FromStr` for `DateTime<Utc>`, then
/// takes the instant apart with `DateTime::timestamp` and
/// `DateTime::timestamp_subsec_nanos`.
///
/// Trusted: the outcome is a function of the text alone.
#[verifier::external_body]
fn parse_instant(text: &str) -> (instant: Option<(i64, u32)>)
    ensures
        instant == parsed_instant(text@),
{
    match text.parse::<chrono::DateTime<chrono::Utc>>() {
        Ok(at) => Some((at.timestamp(), at.timestamp_subsec_nanos())),
        Err(_) => None,
    }
}

/// A UTC instant together with its RFC 3339 rendering.
pub struct Timestamp {
    secs: i64,
    nanos: u32,
    text: String,
}

impl Timestamp {
    #[verifier::type_invariant]
    spec fn rendered(self) -> bool {
        rfc3339_text(self.secs, self.nanos) == Some(self.text@)
    }

    /// The instant's RFC 3339 text.
    pub closed spec fn rendering(&self) -> Seq<char> {
        self.text@
    }

    /// Whole seconds since the Unix epoch.
    pub closed spec fn seconds(&self) -> i64 {
        self.secs
    }

    /// The sub-second part, in nanoseconds.
    pub closed spec fn subsec_nanos(&self) -> u32 {
        self.nanos
    }

    /// The instant `secs` seconds and `nanos` nanoseconds after the Unix
    /// epoch, or `None` where the calendar cannot represent it.
    pub fn new(secs: i64, nanos: u32) -> (at: Option<Self>)
        ensures
            at is Some <==> rfc3339_text(secs, nanos) is Some,
            0 <= secs <= 253_402_300_799 && nanos < 1_000_000_000 ==> at is Some,
            at matches Some(t) ==> t.seconds() == secs && t.subsec_nanos() == nanos
                && rfc3339_text(secs, nanos) == Some(t.rendering()),
    {
        match rfc3339(secs, nanos) {
            Some(text) => Some(Timestamp { secs, nanos, text }),
            None => None,
        }
    }

    /// The instant written in `text`, or `None` where the text is no date
    /// and time or the calendar cannot represent the instant.
    pub fn parse(text: &str) -> (at: Option<Self>)
        ensures
            match at {
                Some(t) => parsed_instant(text@) == Some((t.seconds(), t.subsec_nanos()))
                    && rfc3339_text(t.seconds(), t.subsec_nanos()) == Some(t.rendering()),
                None => match parsed_instant(text@) {
                    Some((secs, nanos)) => rfc3339_text(secs, nanos) is None,
                    None => true,
                },
            },
    {
        match parse_instant(text) {
            Some((secs, nanos)) => Timestamp::new(secs, nanos),
            None => None,
        }
    }

    /// Whole seconds since the Unix epoch.
    pub fn timestamp(&self) -> (secs: i64)
        ensures
            secs == self.seconds(),
    {
        self.secs
    }

    /// The sub-second part, in nanoseconds.
    pub fn timestamp_subsec_nanos(&self) -> (nanos: u32)
        ensures
            nanos == self.subsec_nanos(),
    {
        self.nanos
    }

    /// The instant in RFC 3339 form.
    pub fn to_rfc3339(&self) -> (text: String)
        ensures
            text@ == self.rendering(),
            rfc3339_text(self.seconds(), self.subsec_nanos()) == Some(text@),
    {
        proof {
            use_type_invariant(self);
        }
        self.text.clone()
    }
}

impl Clone for Timestamp {
    fn clone(&self) -> (copy: Self)
        ensures
            copy.seconds() == self.seconds(),
            copy.subsec_nanos() == self.subsec_nanos(),
            copy.rendering() == self.rendering(),
    {
        proof {
            use_type_invariant(self);
        }
        Timestamp { secs: self.secs, nanos: self.nanos, text: self.text.clone() }
    }
}

/// `text` with every occurrence of `from` replaced by `to`, found from left
/// to right and never overlapping. An empty `from` occurs nowhere.
pub open spec fn replaced(text: Seq<char>, from: Seq<char>, to: Seq<char>) -> Seq<char>
    decreases text.len(),
{
    if from.len() == 0 || text.len() < from.len() {
        text
    } else if text.subrange(0, from.len() as int) == from {
        to + replaced(text.skip(from.len() as int), from, to)
    } else {
        text.take(1) + replaced(text.skip(1), from, to)
    }
}

/// The name of the output file for the symbol list at `source`: the same
/// name with `.csv` wherever it has `.txt`.
pub open spec fn save_path_text(source: Seq<char>) -> Seq<char> {
    replaced(source, seq!['.', 't', 'x', 't'], seq!['.', 'c', 's', 'v'])
}

/// The options of a run: where the symbol list is, and the start of the
/// period to report on as date-and-time text.
pub struct Opts {
    pub source: String,
    pub from: String,
}

impl Opts {
    /// The start of the period, or `None` where `from` cannot be read.
    pub fn period_start(&self) -> (at: Option<Timestamp>)
        ensures
            match at {
                Some(t) => parsed_instant(self.from@) == Some((t.seconds(), t.subsec_nanos()))
                    && rfc3339_text(t.seconds(), t.subsec_nanos()) == Some(t.rendering()),
                None => match parsed_instant(self.from@) {
                    Some((secs, nanos)) => rfc3339_text(secs, nanos) is None,
                    None => true,
                },
            },
    {
        Timestamp::parse(self.from.as_str())
    }

    /// The path of the output file.
    pub fn save_path(&self) -> (path: String)
        ensures
            path@ == save_path_text(self.source@),
    {
        let source = self.source.as_str();
        let total = source.unicode_len();
        let ghost pattern = seq!['.', 't', 'x', 't'];
        let ghost csv = seq!['.', 'c', 's', 'v'];
        let mut path = String::new();
        let mut start: usize = 0;
        let mut at: usize = 0;
        proof {
            reveal_strlit(".csv");
            assert(".csv"@ =~= csv);
            assert(source@.subrange(0, 0) =~= Seq::<char>::empty());
            assert(source@.skip(0) =~= source@);
        }
        while at < total
            invariant
                start <= at <= total,
                total == source@.len(),
                source@ == self.source@,
                pattern == seq!['.', 't', 'x', 't'],
                csv == seq!['.', 'c', 's', 'v'],
                ".csv"@ == csv,
                path@ + source@.subrange(start as int, at as int) + replaced(
                    source@.skip(at as int),
                    pattern,
                    csv,
                ) == replaced(source@, pattern, csv),
            decreases total - at,
        {
            let ghost rest = source@.skip(at as int);
            let ghost pending = source@.subrange(start as int, at as int);
            let found = total - at >= 4 && source.get_char(at) == '.' && source.get_char(at + 1)
                == 't' && source.get_char(at + 2) == 'x' && source.get_char(at + 3) == 't';
            if found {
                proof {
                    assert(rest.subrange(0, 4) =~= pattern);
                    assert(rest.skip(4) =~= source@.skip(at + 4));
                    assert(source@.subrange(at + 4, at + 4) =~= Seq::<char>::empty());
                    assert((path@ + pending + csv) + Seq::<char>::empty() + replaced(
                        source@.skip(at + 4),
                        pattern,
                        csv,
                    ) =~= path@ + pending + (csv + replaced(rest.skip(4), pattern, csv)));
                }
                path.append(source.substring_char(start, at));
                path.append(".csv");
                at = at + 4;
                start = at;
            } else {
                proof {
                    if rest.len() >= 4 {
                        assert(rest.subrange(0, 4) != pattern) by {
                            if rest.subrange(0, 4) == pattern {
                                assert(rest.subrange(0, 4)[0] == '.');
                                assert(rest.subrange(0, 4)[1] == 't');
                                assert(rest.subrange(0, 4)[2] == 'x');
                                assert(rest.subrange(0, 4)[3] == 't');
                            }
                        }
                        assert(rest.skip(1) =~= source@.skip(at + 1));
                        assert(path@ + source@.subrange(start as int, at + 1) + replaced(
                            source@.skip(at + 1),
                            pattern,
                            csv,
                        ) =~= path@ + pending + (rest.take(1) + replaced(
                            rest.skip(1),
                            pattern,
                            csv,
                        )));
                    } else {
                        let shorter = source@.skip(at + 1);
                        assert(replaced(rest, pattern, csv) == rest);
                        assert(replaced(shorter, pattern, csv) == shorter);
                        assert(path@ + source@.subrange(start as int, at + 1) + shorter =~= path@
                            + pending + rest);
                    }
                }
                at = at + 1;
            }
        }
        proof {
            assert(source@.skip(at as int) =~= Seq::<char>::empty());
            assert(path@ + source@.subrange(start as int, at as int) + Seq::<char>::empty()
                =~= path@ + source@.subrange(start as int, total as int));
        }
        path.append(source.substring_char(start, total));
        path
    }
}

/// The moving-average signal: the mean of every run of `window_size`
/// consecutive prices.
#[derive(Debug)]
pub struct WindowedSMA {
    pub window_size: usize,
}

/// How many averages a window of `window_size` yields over `len` prices:
/// none at all for an empty series or a window of one or less, else one per
/// run of `window_size` consecutive prices, which is zero where the series
/// is shorter than the window.
pub open spec fn window_count(window_size: nat, len: nat) -> Option<nat> {
    if len == 0 || window_size <= 1 {
        None
    } else if len - window_size + 1 > 0 {
        Some((len - window_size + 1) as nat)
    } else {
        Some(0)
    }
}

impl WindowedSMA {
    /// The number of averages over a series of `len` prices, or `None` where
    /// the signal has no result.
    pub fn count(&self, len: usize) -> (count: Option<usize>)
        ensures
            match count {
                Some(c) => window_count(self.window_size as nat, len as nat) == Some(c as nat),
                None => window_count(self.window_size as nat, len as nat) is None,
            },
    {
        if len == 0 || self.window_size <= 1 {
            None
        } else if self.window_size > len {
            Some(0)
        } else {
            Some(len - self.window_size + 1)
        }
    }

    /// The prices that the average at position `index` covers, as the first
    /// position and the one past the last, or `None` where there is no such
    /// average.
    pub fn window(&self, len: usize, index: usize) -> (bounds: Option<(usize, usize)>)
        ensures
            match bounds {
                Some((first, end)) => {
                    &&& window_count(self.window_size as nat, len as nat) matches Some(c)
                    &&& index < c
                    &&& first == index
                    &&& end == index + self.window_size
                    &&& end <= len
                },
                None => match window_count(self.window_size as nat, len as nat) {
                    Some(c) => index >= c,
                    None => true,
                },
            },
    {
        match self.count(len) {
            Some(c) => if index < c {
                Some((index, index + self.window_size))
            } else {
                None
            },
            None => None,
        }
    }

    /// The prices that the latest average covers, or `None` where the signal
    /// yields no average.
    pub fn last_window(&self, len: usize) -> (bounds: Option<(usize, usize)>)
        ensures
            match bounds {
                Some((first, end)) => {
                    &&& window_count(self.window_size as nat, len as nat) matches Some(c)
                    &&& c > 0
                    &&& first == len - self.window_size
                    &&& end == len
                },
                None => window_count(self.window_size as nat, len as nat) is None
                    || window_count(self.window_size as nat, len as nat) == Some(0nat),
            },
    {
        match self.count(len) {
            Some(c) => if c > 0 {
                Some((len - self.window_size, len))
            } else {
                None
            },
            None => None,
        }
    }
}

/// Whether `at` is the position of the least of `ranks`, the first one
/// where several are least.
pub open spec fn is_min_position(ranks: Seq<i64>, at: int) -> bool {
    &&& 0 <= at < ranks.len()
    &&& forall|j: int| 0 <= j < ranks.len() ==> ranks[at] <= #[trigger] ranks[j]
    &&& forall|j: int| 0 <= j < at ==> ranks[at] < #[trigger] ranks[j]
}

/// Whether `at` is the position of the greatest of `ranks`, the first one
/// where several are greatest.
pub open spec fn is_max_position(ranks: Seq<i64>, at: int) -> bool {
    &&& 0 <= at < ranks.len()
    &&& forall|j: int| 0 <= j < ranks.len() ==> ranks[at] >= #[trigger] ranks[j]
    &&& forall|j: int| 0 <= j < at ==> ranks[at] > #[trigger] ranks[j]
}

/// The minimum signal: the lowest price of a series. Prices are compared
/// through their ranks, integers that order as the prices do.
#[derive(Debug)]
pub struct MinPrice {}

impl MinPrice {
    /// The position of the lowest price of a series with the given ranks,
    /// or `None` for an empty series: a position of the series whose rank
    /// no other rank is below.
    pub fn position(&self, ranks: &Vec<i64>) -> (at: Option<usize>)
        ensures
            match at {
                Some(i) => is_min_position(ranks@, i as int),
                None => ranks@.len() == 0,
            },
    {
        if ranks.len() == 0 {
            return None;
        }
        let mut best: usize = 0;
        let mut i: usize = 1;
        while i < ranks.len()
            invariant
                1 <= i <= ranks.len(),
                is_min_position(ranks@.subrange(0, i as int), best as int),
            decreases ranks.len() - i,
        {
            let ghost seen = ranks@.subrange(0, i as int);
            let ghost longer = ranks@.subrange(0, i + 1);
            if ranks[i] < ranks[best] {
                proof {
                    assert forall|j: int| 0 <= j < longer.len() implies longer[i as int]
                        <= #[trigger] longer[j] by {
                        if j < i {
                            assert(seen[best as int] <= seen[j]);
                        }
                    }
                    assert forall|j: int| 0 <= j < i implies longer[i as int]
                        < #[trigger] longer[j] by {
                        assert(seen[best as int] <= seen[j]);
                    }
                }
                best = i;
            } else {
                proof {
                    assert forall|j: int| 0 <= j < longer.len() implies longer[best as int]
                        <= #[trigger] longer[j] by {
                        if j < i {
                            assert(seen[best as int] <= seen[j]);
                        }
                    }
                    assert forall|j: int| 0 <= j < best implies longer[best as int]
                        < #[trigger] longer[j] by {
                        assert(seen[best as int] < seen[j]);
                    }
                }
            }
            i = i + 1;
        }
        proof {
            assert(ranks@.subrange(0, i as int) =~= ranks@);
        }
        Some(best)
    }
}

/// The maximum signal: the highest price of a series. Prices are compared
/// through their ranks, integers that order as the prices do.
#[derive(Debug)]
pub struct MaxPrice {}

impl MaxPrice {
    /// The position of the highest price of a series with the given ranks,
    /// or `None` for an empty series: a position of the series whose rank
    /// no other rank is above.
    pub fn position(&self, ranks: &Vec<i64>) -> (at: Option<usize>)
        ensures
            match at {
                Some(i) => is_max_position(ranks@, i as int),
                None => ranks@.len() == 0,
            },
    {
        if ranks.len() == 0 {
            return None;
        }
        let mut best: usize = 0;
        let mut i: usize = 1;
        while i < ranks.len()
            invariant
                1 <= i <= ranks.len(),
                is_max_position(ranks@.subrange(0, i as int), best as int),
            decreases ranks.len() - i,
        {
            let ghost seen = ranks@.subrange(0, i as int);
            let ghost longer = ranks@.subrange(0, i + 1);
            if ranks[i] > ranks[best] {
                proof {
                    assert forall|j: int| 0 <= j < longer.len() implies longer[i as int]
                        >= #[trigger] longer[j] by {
                        if j < i {
                            assert(seen[best as int] >= seen[j]);
                        }
                    }
                    assert forall|j: int| 0 <= j < i implies longer[i as int]
                        > #[trigger] longer[j] by {
                        assert(seen[best as int] >= seen[j]);
                    }
                }
                best = i;
            } else {
                proof {
                    assert forall|j: int| 0 <= j < longer.len() implies longer[best as int]
                        >= #[trigger] longer[j] by {
                        if j < i {
                            assert(seen[best as int] >= seen[j]);
                        }
                    }
                    assert forall|j: int| 0 <= j < best implies longer[best as int]
                        > #[trigger] longer[j] by {
                        assert(seen[best as int] > seen[j]);
                    }
                }
            }
            i = i + 1;
        }
        proof {
            assert(ranks@.subrange(0, i as int) =~= ranks@);
        }
        Some(best)
    }
}

/// The price-difference signal: how far the last price of a series lies
/// from the first.
#[derive(Debug)]
pub struct PriceDifference {}

impl PriceDifference {
    /// The positions of the two prices that the difference is taken
    /// between, the first of the series and the last, or `None` for an empty
    /// series.
    pub fn endpoints(&self, len: usize) -> (ends: Option<(usize, usize)>)
        ensures
            match ends {
                Some((first, last)) => len > 0 && first == 0 && last == len - 1,
                None => len == 0,
            },
    {
        if len == 0 {
            None
        } else {
            Some((0, len - 1))
        }
    }
}

/// The figures of one record, each already rendered with two decimals.
pub struct Figures {
    pub last_price: String,
    pub percent_change: String,
    pub min: String,
    pub max: String,
    pub average: String,
}

} // verus!

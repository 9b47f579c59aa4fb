//! The `read_errors` tool: the recorded errors, filtered and laid out for the model.
use vstd::prelude::*;
use vstd::string::*;

use crate::clock::{epoch_secs, now_secs, time_since_epoch};
use crate::error_collector::{queried, records_view, ErrorCollector, ErrorRecord, ErrorRecordView};
use crate::json::Json;
use crate::text::{
    contains, contains_text, decimal, law_contained, law_contains, lemma_contains_part, optional,
    push_decimal,
};
use crate::tools::ToolKind;

verus! {

/// Read errors previously recorded in the error collector.
///
/// This tool is useful for quickly surfacing recent diagnostics and runtime errors
/// that were captured by language servers or tools, without re-running the failing action.
///
/// Optional filters:
/// - `path`: substring match against the recorded file path
/// - `source`: substring match against the error source (e.g. `rust_analyzer`, `tool_error`)
/// - `limit`: maximum number of records to return (default: 20)
#[derive(Debug)]
pub struct ReadErrorsToolInput {
    /// Only include errors whose recorded file path contains this substring.
    pub path: Option<String>,
    /// Only include errors whose recorded source contains this substring.
    pub source: Option<String>,
    /// Maximum number of matching errors to return. Defaults to 20.
    pub limit: Option<usize>,
}

/// Whether a record passes the two filters.
pub open spec fn passes(
    path: Option<Seq<char>>,
    source: Option<Seq<char>>,
    record: ErrorRecordView,
) -> bool {
    &&& path matches Some(p) ==> record.file matches Some(f) && contains(f, p)
    &&& source matches Some(s) ==> contains(record.source, s)
}

/// The records that pass the two filters.
pub open spec fn filtered(
    path: Option<Seq<char>>,
    source: Option<Seq<char>>,
    records: Seq<ErrorRecordView>,
) -> Seq<ErrorRecordView> {
    records.filter(|record: ErrorRecordView| passes(path, source, record))
}

/// The first `limit` of the records.
pub open spec fn at_most(records: Seq<ErrorRecordView>, limit: nat) -> Seq<ErrorRecordView> {
    if records.len() > limit {
        records.take(limit as int)
    } else {
        records
    }
}

impl ReadErrorsToolInput {
    /// The number of records asked for.
    pub open spec fn max_records(self) -> nat {
        match self.limit {
            Some(limit) => limit as nat,
            None => 20,
        }
    }

    /// The records to show: the first that pass the filters, up to the limit.
    pub open spec fn selected(self, records: Seq<ErrorRecordView>) -> Seq<ErrorRecordView> {
        at_most(filtered(optional(self.path), optional(self.source), records), self.max_records())
    }
}

/// How long before `now` a time lies, in its largest unit.
pub open spec fn age(now: u64, ts: u64) -> Seq<char> {
    let diff = if now < ts {
        0
    } else {
        (now - ts) as nat
    };
    if diff < 60 {
        decimal(diff) + "s ago"@
    } else if diff < 3600 {
        decimal(diff / 60) + "m ago"@
    } else if diff < 86400 {
        decimal(diff / 3600) + "h ago"@
    } else {
        decimal(diff / 86400) + "d ago"@
    }
}

/// Where an error occurred.
pub open spec fn location(file: Option<Seq<char>>, line: Option<u32>) -> Seq<char> {
    match file {
        Some(f) => match line {
            Some(l) => " in `"@ + f + "`"@ + ":"@ + decimal(l as nat),
            None => " in `"@ + f + "`"@,
        },
        None => Seq::empty(),
    }
}

/// The entry of a record: its number, and how long ago it was seen first and last.
pub open spec fn entry(
    number: nat,
    record: ErrorRecordView,
    ages: (Seq<char>, Seq<char>),
) -> Seq<char> {
    decimal(number) + ". **"@ + record.message + "** (occurred "@ + decimal(record.count as nat)
        + " time(s))"@ + location(record.file, record.line) + "\n   Source: "@ + record.source
        + " | First seen: "@ + ages.0 + " | Last seen: "@ + ages.1 + "\n\n"@
}

/// The entries of the records, in order.
pub open spec fn entries(
    records: Seq<ErrorRecordView>,
    ages: Seq<(Seq<char>, Seq<char>)>,
) -> Seq<char>
    decreases records.len(),
{
    if records.len() == 0 {
        Seq::empty()
    } else {
        entries(records.drop_last(), ages) + entry(
            records.len(),
            records.last(),
            ages[records.len() - 1],
        )
    }
}

/// The report on the records.
pub open spec fn report(
    records: Seq<ErrorRecordView>,
    ages: Seq<(Seq<char>, Seq<char>)>,
) -> Seq<char> {
    if records.len() == 0 {
        "No recorded errors found."@
    } else {
        "Found "@ + decimal(records.len()) + " recorded error(s):\n\n"@ + entries(records, ages)
    }
}

/// How long before the given times the records were seen first and last.
pub open spec fn ages_at(
    records: Seq<ErrorRecordView>,
    nows: Seq<(u64, u64)>,
) -> Seq<(Seq<char>, Seq<char>)> {
    Seq::new(
        records.len(),
        |i: int| (age(nows[i].0, records[i].first_seen), age(nows[i].1, records[i].last_seen)),
    )
}

/// The seconds since the Unix epoch at points in time, in pairs.
pub open spec fn clock_readings(
    times: Seq<(std::time::SystemTime, std::time::SystemTime)>,
) -> Seq<(u64, u64)> {
    times.map_values(
        |t: (std::time::SystemTime, std::time::SystemTime)|
            (epoch_secs(time_since_epoch(t.0)), epoch_secs(time_since_epoch(t.1))),
    )
}

/// What pairs of strings hold.
pub open spec fn pairs_view(pairs: Seq<(String, String)>) -> Seq<(Seq<char>, Seq<char>)> {
    pairs.map_values(|p: (String, String)| (p.0@, p.1@))
}

/// How long before `now` a time lies.
pub fn format_age(now: u64, ts: u64) -> (r: String)
    ensures
        r@ == age(now, ts),
{
    let diff: u64 = if now < ts {
        0
    } else {
        now - ts
    };
    let mut out: String = String::new();
    if diff < 60 {
        push_decimal(&mut out, diff);
        out.append("s ago");
    } else if diff < 3600 {
        push_decimal(&mut out, diff / 60);
        out.append("m ago");
    } else if diff < 86400 {
        push_decimal(&mut out, diff / 3600);
        out.append("h ago");
    } else {
        push_decimal(&mut out, diff / 86400);
        out.append("d ago");
    }
    out
}

/// How long ago a time was.
pub fn format_timestamp(ts: u64) -> (r: String)
    ensures
        exists|time: std::time::SystemTime|
            r@ == age(epoch_secs(#[trigger] time_since_epoch(time)), ts),
{
    let now: u64 = now_secs();
    format_age(now, ts)
}

/// Appends where an error occurred.
fn push_location(out: &mut String, record: &ErrorRecord)
    ensures
        final(out)@ == old(out)@ + location(record@.file, record@.line),
{
    if let Some(file) = &record.file {
        out.append(" in `");
        out.append(file.as_str());
        out.append("`");
        if let Some(line) = record.line {
            out.append(":");
            push_decimal(out, line as u64);
        }
    }
}

/// Appends the entry of a record.
fn push_entry(out: &mut String, number: usize, record: &ErrorRecord, ages: &(String, String))
    ensures
        final(out)@ == old(out)@ + entry(number as nat, record@, (ages.0@, ages.1@)),
{
    let mut text: String = String::new();
    push_decimal(&mut text, number as u64);
    assert(text@ =~= decimal(number as nat));
    text.append(". **");
    text.append(record.message.as_str());
    text.append("** (occurred ");
    push_decimal(&mut text, record.count);
    text.append(" time(s))");
    push_location(&mut text, record);
    text.append("\n   Source: ");
    text.append(record.source.as_str());
    text.append(" | First seen: ");
    text.append(ages.0.as_str());
    text.append(" | Last seen: ");
    text.append(ages.1.as_str());
    text.append("\n\n");
    out.append(text.as_str());
}

/// The report on the records, given how long ago each was seen first and last.
pub fn render_report(records: &Vec<ErrorRecord>, ages: &Vec<(String, String)>) -> (r: String)
    requires
        ages@.len() == records@.len(),
    ensures
        r@ == report(records_view(records@), pairs_view(ages@)),
{
    if records.len() == 0 {
        return "No recorded errors found.".to_owned();
    }
    let mut out: String = "Found ".to_owned();
    push_decimal(&mut out, records.len() as u64);
    out.append(" recorded error(s):\n\n");
    let ghost head = out@;
    let mut i: usize = 0;
    while i < records.len()
        invariant
            i <= records@.len() == ages@.len(),
            out@ == head + entries(records_view(records@).take(i as int), pairs_view(ages@)),
        decreases records@.len() - i,
    {
        push_entry(&mut out, i + 1, &records[i], &ages[i]);
        proof {
            let part = records_view(records@).take(i + 1);
            assert(part.drop_last() =~= records_view(records@).take(i as int));
            assert(part.last() == records@[i as int]@);
        }
        i += 1;
    }
    assert(records_view(records@).take(i as int) =~= records_view(records@));
    out
}

impl ReadErrorsToolInput {
    /// Whether a record passes the filters.
    fn wants(&self, record: &ErrorRecord) -> (r: bool)
        ensures
            r == passes(optional(self.path), optional(self.source), record@),
    {
        let path_passes: bool = match &self.path {
            Some(path) => match &record.file {
                Some(file) => contains_text(file.as_str(), path.as_str()),
                None => false,
            },
            None => true,
        };
        let source_passes: bool = match &self.source {
            Some(source) => contains_text(record.source.as_str(), source.as_str()),
            None => true,
        };
        path_passes && source_passes
    }

    /// The records to show.
    pub fn select(&self, records: Vec<ErrorRecord>) -> (r: Vec<ErrorRecord>)
        ensures
            records_view(r@) == self.selected(records_view(records@)),
    {
        let ghost all = records@;
        let ghost pred = |record: ErrorRecordView|
            passes(optional(self.path), optional(self.source), record);
        let mut kept: Vec<ErrorRecord> = Vec::new();
        proof {
            reveal(Seq::filter);
        }
        for record in it: records
            invariant
                it.seq() == all,
                pred == |record: ErrorRecordView|
                    passes(optional(self.path), optional(self.source), record),
                records_view(kept@) == records_view(all).take(it.index() as int).filter(pred),
        {
            proof {
                reveal(Seq::filter);
                let part = records_view(all).take(it.index() + 1);
                assert(part.drop_last() =~= records_view(all).take(it.index() as int));
                assert(part.last() == record@);
            }
            let ghost before = kept@;
            if self.wants(&record) {
                kept.push(record);
                assert(records_view(kept@) =~= records_view(before).push(record@));
            }
        }
        assert(records_view(all).take(all.len() as int) =~= records_view(all));
        let limit: usize = match self.limit {
            Some(limit) => limit,
            None => 20,
        };
        let ghost before = kept@;
        kept.truncate(limit);
        assert(records_view(kept@) =~= at_most(records_view(before), limit as nat));
        kept
    }
}

/// The report on the recorded errors that the input asks for.
pub fn query_errors(input: &ReadErrorsToolInput, collector: &ErrorCollector) -> (r: String)
    ensures
        exists|times: Seq<(std::time::SystemTime, std::time::SystemTime)>|
            times.len() == input.selected(queried(collector@)).len() && r@ == report(
                input.selected(queried(collector@)),
                ages_at(input.selected(queried(collector@)), #[trigger] clock_readings(times)),
            ),
        forall|i: int|
            0 <= i < input.selected(queried(collector@)).len() ==> ({
                let record = #[trigger] input.selected(queried(collector@))[i];
                exists|first: std::time::SystemTime, last: std::time::SystemTime|
                    contains(
                        r@,
                        " | First seen: "@ + age(
                            epoch_secs(#[trigger] time_since_epoch(first)),
                            record.first_seen,
                        ) + " | Last seen: "@ + age(
                            epoch_secs(#[trigger] time_since_epoch(last)),
                            record.last_seen,
                        ) + "\n\n"@,
                    )
            }),
{
    let records: Vec<ErrorRecord> = input.select(collector.query());
    let mut ages: Vec<(String, String)> = Vec::new();
    let ghost mut times: Seq<(std::time::SystemTime, std::time::SystemTime)> = Seq::empty();
    let mut i: usize = 0;
    while i < records.len()
        invariant
            i <= records@.len(),
            ages@.len() == times.len() == i,
            forall|j: int|
                0 <= j < i ==> (#[trigger] ages@[j]).0@ == age(
                    epoch_secs(time_since_epoch(times[j].0)),
                    records@[j].first_seen,
                ) && ages@[j].1@ == age(
                    epoch_secs(time_since_epoch(times[j].1)),
                    records@[j].last_seen,
                ),
        decreases records@.len() - i,
    {
        let first: String = format_timestamp(records[i].first_seen);
        let last: String = format_timestamp(records[i].last_seen);
        proof {
            let a = choose|time: std::time::SystemTime|
                first@ == age(
                    epoch_secs(#[trigger] time_since_epoch(time)),
                    records@[i as int].first_seen,
                );
            let b = choose|time: std::time::SystemTime|
                last@ == age(
                    epoch_secs(#[trigger] time_since_epoch(time)),
                    records@[i as int].last_seen,
                );
            times = times.push((a, b));
        }
        ages.push((first, last));
        i += 1;
    }
    assert(pairs_view(ages@) =~= ages_at(
        records_view(records@),
        clock_readings(times),
    ));
    proof {
        let shown = records_view(records@);
        let told = ages_at(shown, clock_readings(times));
        assert forall|i: int| 0 <= i < shown.len() implies ({
            let record = #[trigger] shown[i];
            exists|first: std::time::SystemTime, last: std::time::SystemTime|
                contains(
                    report(shown, told),
                    " | First seen: "@ + age(
                        epoch_secs(#[trigger] time_since_epoch(first)),
                        record.first_seen,
                    ) + " | Last seen: "@ + age(
                        epoch_secs(#[trigger] time_since_epoch(last)),
                        record.last_seen,
                    ) + "\n\n"@,
                )
        }) by {
            law_report_tells_ages(shown, told, i);
            let first = times[i].0;
            let last = times[i].1;
            assert(told[i].0 == age(epoch_secs(time_since_epoch(first)), shown[i].first_seen));
            assert(told[i].1 == age(epoch_secs(time_since_epoch(last)), shown[i].last_seen));
        }
    }
    render_report(&records, &ages)
}

/// Tool implementation for `read_errors`.
#[derive(Debug)]
pub struct ReadErrorsTool;

impl ReadErrorsTool {
    pub const NAME: &'static str = "read_errors";

    /// The tool of a project.
    pub fn new<P>(_project: P) -> (r: ReadErrorsTool)
        ensures
            r == ReadErrorsTool,
    {
        ReadErrorsTool
    }

    pub fn kind() -> (r: ToolKind)
        ensures
            r == ToolKind::Read,
    {
        ToolKind::Read
    }

    /// The title of a call, given its input and, for an input with a path, the path as inline code.
    pub fn initial_title(
        &self,
        input: &Result<ReadErrorsToolInput, Json>,
        path_code: &str,
    ) -> (r: String)
        ensures
            r@ == match *input {
                Ok(i) => if i.path is Some {
                    "Check recorded errors for "@ + path_code@
                } else {
                    "Check recorded errors"@
                },
                Err(_) => "Check recorded errors"@,
            },
    {
        if let Ok(i) = input {
            if i.path.is_some() {
                let mut title: String = "Check recorded errors for ".to_owned();
                title.append(path_code);
                return title;
            }
        }
        "Check recorded errors".to_owned()
    }

    /// What a call whose input could not be received gives.
    pub fn receive_failure(error: &str) -> (r: String)
        ensures
            r@ == "Failed to receive tool input: "@ + error@,
    {
        let mut out: String = "Failed to receive tool input: ".to_owned();
        out.append(error);
        out
    }
}

/// Each record that is shown was recorded and passes the filters, no more are shown than asked for,
/// and one that passes is left out only where the limit is reached.
pub proof fn law_selected_records(input: ReadErrorsToolInput, records: Seq<ErrorRecordView>)
    ensures
        input.selected(records).len() <= input.max_records(),
        forall|record: ErrorRecordView| #[trigger]
            input.selected(records).contains(record) ==> records.contains(record) && passes(
                optional(input.path),
                optional(input.source),
                record,
            ),
        input.selected(records).len() < input.max_records() ==> forall|record: ErrorRecordView|
            records.contains(record) && passes(optional(input.path), optional(input.source), record)
                ==> #[trigger] input.selected(records).contains(record),
{
    let path = optional(input.path);
    let source = optional(input.source);
    let all = filtered(path, source, records);
    let some = input.selected(records);
    assert forall|record: ErrorRecordView| #[trigger] some.contains(record) implies records.contains(
        record,
    ) && passes(path, source, record) by {
        let at = choose|at: int| 0 <= at < some.len() && some[at] == record;
        assert(all[at] == record);
        lemma_filtered(path, source, records, record);
    }
    if some.len() < input.max_records() {
        assert forall|record: ErrorRecordView|
            records.contains(record) && passes(path, source, record) implies #[trigger] some.contains(
            record,
        ) by {
            lemma_filtered(path, source, records, record);
        }
    }
}

/// Where every record passes the filters and the limit allows it, all are shown, in order.
pub proof fn law_all_records_are_selected(input: ReadErrorsToolInput, records: Seq<ErrorRecordView>)
    requires
        records.len() <= input.max_records(),
        forall|i: int|
            0 <= i < records.len() ==> passes(
                optional(input.path),
                optional(input.source),
                #[trigger] records[i],
            ),
    ensures
        input.selected(records) == records,
{
    lemma_all_pass(optional(input.path), optional(input.source), records);
}

/// A record passes the filters and is one of the records exactly if it is one of those filtered.
proof fn lemma_filtered(
    path: Option<Seq<char>>,
    source: Option<Seq<char>>,
    records: Seq<ErrorRecordView>,
    record: ErrorRecordView,
)
    ensures
        filtered(path, source, records).contains(record) <==> records.contains(record) && passes(
            path,
            source,
            record,
        ),
    decreases records.len(),
{
    reveal(Seq::filter);
    if records.len() > 0 {
        let init = records.drop_last();
        lemma_filtered(path, source, init, record);
        assert(records == init.push(records.last()));
        assert(records.contains(record) <==> init.contains(record) || records.last() == record) by {
            if init.contains(record) {
                let at = choose|at: int| 0 <= at < init.len() && init[at] == record;
                assert(records[at] == record);
            }
            assert(records[records.len() - 1] == records.last());
        }
        let before = filtered(path, source, init);
        let after = filtered(path, source, records);
        if passes(path, source, records.last()) {
            assert(after == before.push(records.last()));
            if before.contains(record) {
                let at = choose|at: int| 0 <= at < before.len() && before[at] == record;
                assert(after[at] == record);
            }
            assert(after[after.len() - 1] == records.last());
        }
    }
}

/// Where every record passes the filters, none is dropped.
proof fn lemma_all_pass(
    path: Option<Seq<char>>,
    source: Option<Seq<char>>,
    records: Seq<ErrorRecordView>,
)
    requires
        forall|i: int| 0 <= i < records.len() ==> passes(path, source, #[trigger] records[i]),
    ensures
        filtered(path, source, records) == records,
    decreases records.len(),
{
    reveal(Seq::filter);
    if records.len() > 0 {
        let init = records.drop_last();
        assert forall|i: int| 0 <= i < init.len() implies passes(path, source, #[trigger] init[i]) by {
            assert(init[i] == records[i]);
        }
        lemma_all_pass(path, source, init);
        assert(passes(path, source, records[records.len() - 1]));
        assert(records == init.push(records.last()));
    }
}

/// A record passes the filter on the source exactly if its source is some text, the filter's, and
/// some text.
pub proof fn law_source_filter(source: Seq<char>, record: ErrorRecordView)
    ensures
        passes(None, Some(source), record) <==> exists|a: Seq<char>, b: Seq<char>|
            record.source == #[trigger] (a + source + b),
{
    if passes(None, Some(source), record) {
        law_contained(record.source, source);
    }
    if exists|a: Seq<char>, b: Seq<char>| record.source == #[trigger] (a + source + b) {
        let (a, b) = choose|a: Seq<char>, b: Seq<char>|
            record.source == #[trigger] (a + source + b);
        law_contains(a, source, b);
    }
}

/// A record passes the filter on the path exactly if it has a file, and that is some text, the
/// filter's, and some text.
pub proof fn law_path_filter(path: Seq<char>, record: ErrorRecordView)
    ensures
        passes(Some(path), None, record) <==> exists|a: Seq<char>, b: Seq<char>|
            record.file == Some(#[trigger] (a + path + b)),
{
    if passes(Some(path), None, record) {
        law_contained(record.file->0, path);
    }
    if exists|a: Seq<char>, b: Seq<char>| record.file == Some(#[trigger] (a + path + b)) {
        let (a, b) = choose|a: Seq<char>, b: Seq<char>|
            record.file == Some(#[trigger] (a + path + b));
        law_contains(a, path, b);
    }
}

/// A record passes both filters exactly if it passes each, and every record passes where there is
/// no filter.
pub proof fn law_both_filters(path: Seq<char>, source: Seq<char>, record: ErrorRecordView)
    ensures
        passes(Some(path), Some(source), record) <==> passes(Some(path), None, record) && passes(
            None,
            Some(source),
            record,
        ),
        passes(None, None, record),
{
}

/// The records are gone through in order: one more is shown, behind the others, exactly if its
/// source and its file contain what is asked for and fewer are shown than the limit, which is 20
/// where none is given.
pub proof fn law_selection(
    input: ReadErrorsToolInput,
    records: Seq<ErrorRecordView>,
    record: ErrorRecordView,
)
    ensures
        input.selected(Seq::empty()).len() == 0,
        ({
            let before = input.selected(records);
            let limit: int = match input.limit {
                Some(limit) => limit as int,
                None => 20,
            };
            let wanted = (input.path matches Some(path) ==> record.file matches Some(file)
                && contains(file, path@)) && (input.source matches Some(source) ==> contains(
                record.source,
                source@,
            ));
            input.selected(records.push(record)) == if wanted && before.len() < limit {
                before.push(record)
            } else {
                before
            }
        }),
{
    reveal(Seq::filter);
    let all = filtered(optional(input.path), optional(input.source), records);
    assert(records.push(record).drop_last() =~= records);
    if all.len() >= input.max_records() {
        assert(at_most(all.push(record), input.max_records()) =~= at_most(all, input.max_records()));
    }
}

/// A time less than a minute ago is told in seconds, less than an hour ago in whole minutes, less
/// than a day ago in whole hours, and else in whole days; one to come is now.
pub proof fn law_age(ts: u64, units: nat, rest: nat, later: u64)
    requires
        later >= ts,
    ensures
        age(ts, later) == "0"@ + "s ago"@,
        rest < 60 && ts + rest <= u64::MAX ==> age((ts + rest) as u64, ts) == decimal(rest)
            + "s ago"@,
        1 <= units < 60 && rest < 60 && ts + 60 * units + rest <= u64::MAX ==> age(
            (ts + 60 * units + rest) as u64,
            ts,
        ) == decimal(units) + "m ago"@,
        1 <= units < 24 && rest < 3600 && ts + 3600 * units + rest <= u64::MAX ==> age(
            (ts + 3600 * units + rest) as u64,
            ts,
        ) == decimal(units) + "h ago"@,
        1 <= units && rest < 86400 && ts + 86400 * units + rest <= u64::MAX ==> age(
            (ts + 86400 * units + rest) as u64,
            ts,
        ) == decimal(units) + "d ago"@,
{
    reveal_strlit("0");
    reveal_strlit("0123456789abcdef");
    assert(decimal(0) =~= "0"@);
    if rest < 60 {
        assert((60 * units + rest) / 60 == units as int);
    }
    if rest < 3600 {
        assert((3600 * units + rest) / 3600 == units as int);
    }
    if rest < 86400 {
        assert((86400 * units + rest) / 86400 == units as int);
    }
}

/// The ages of a record are those of the time at which it was first seen and of the time at which
/// it was last seen, each at a reading of the clock.
pub proof fn law_ages(
    records: Seq<ErrorRecordView>,
    times: Seq<(std::time::SystemTime, std::time::SystemTime)>,
    pairs: Seq<(String, String)>,
    i: int,
)
    requires
        0 <= i < records.len(),
        i < times.len(),
        i < pairs.len(),
    ensures
        ages_at(records, clock_readings(times)).len() == records.len(),
        ages_at(records, clock_readings(times))[i].0 == age(
            epoch_secs(time_since_epoch(times[i].0)),
            records[i].first_seen,
        ),
        ages_at(records, clock_readings(times))[i].1 == age(
            epoch_secs(time_since_epoch(times[i].1)),
            records[i].last_seen,
        ),
        pairs_view(pairs).len() == pairs.len(),
        pairs_view(pairs)[i] == (pairs[i].0@, pairs[i].1@),
{
}

/// A report begins with how many records there are. One more record adds its entry at the end, and
/// changes nothing of the others: its number, its message, how often it occurred, its file and, with
/// a file, its line, its source, and how long ago it was first and last seen.
pub proof fn law_report(
    records: Seq<ErrorRecordView>,
    record: ErrorRecordView,
    ages: Seq<(Seq<char>, Seq<char>)>,
)
    requires
        records.len() < ages.len(),
    ensures
        report(Seq::empty(), ages) == "No recorded errors found."@,
        exists|body: Seq<char>|
            {
                &&& records.len() == 0 ==> body.len() == 0
                &&& records.len() > 0 ==> report(records, ages) == "Found "@ + decimal(
                    records.len(),
                ) + " recorded error(s):\n\n"@ + body
                &&& report(records.push(record), ages) == #[trigger] ("Found "@ + decimal(
                    records.len() + 1,
                ) + " recorded error(s):\n\n"@ + body) + (decimal(records.len() + 1) + ". **"@
                    + record.message + "** (occurred "@ + decimal(record.count as nat)
                    + " time(s))"@ + (match record.file {
                    Some(file) => match record.line {
                        Some(line) => " in `"@ + file + "`"@ + ":"@ + decimal(line as nat),
                        None => " in `"@ + file + "`"@,
                    },
                    None => Seq::empty(),
                }) + "\n   Source: "@ + record.source + " | First seen: "@
                    + ages[records.len() as int].0 + " | Last seen: "@
                    + ages[records.len() as int].1 + "\n\n"@)
            },
{
    let body = entries(records, ages);
    let all = records.push(record);
    assert(all.drop_last() =~= records);
    assert(all.last() == record);
    let text = entry(records.len() + 1, record, ages[records.len() as int]);
    assert(entries(all, ages) == body + text);
    let head = "Found "@ + decimal(records.len() + 1) + " recorded error(s):\n\n"@;
    assert(head + (body + text) =~= (head + body) + text);
}

/// The report on records holds, for each, how long ago it was first seen and then how long ago it
/// was last seen.
pub proof fn law_report_tells_ages(
    records: Seq<ErrorRecordView>,
    ages: Seq<(Seq<char>, Seq<char>)>,
    i: int,
)
    requires
        0 <= i < records.len() <= ages.len(),
    ensures
        contains(
            report(records, ages),
            " | First seen: "@ + ages[i].0 + " | Last seen: "@ + ages[i].1 + "\n\n"@,
        ),
{
    let told = " | First seen: "@ + ages[i].0 + " | Last seen: "@ + ages[i].1 + "\n\n"@;
    lemma_entries_tell_ages(records, ages, i);
    let head = "Found "@ + decimal(records.len()) + " recorded error(s):\n\n"@;
    lemma_contains_part(head, entries(records, ages), Seq::empty(), told);
    assert(head + entries(records, ages) + Seq::empty() =~= report(records, ages));
}

/// The entries hold the ages of each record.
proof fn lemma_entries_tell_ages(
    records: Seq<ErrorRecordView>,
    ages: Seq<(Seq<char>, Seq<char>)>,
    i: int,
)
    requires
        0 <= i < records.len(),
    ensures
        contains(
            entries(records, ages),
            " | First seen: "@ + ages[i].0 + " | Last seen: "@ + ages[i].1 + "\n\n"@,
        ),
    decreases records.len(),
{
    let told = " | First seen: "@ + ages[i].0 + " | Last seen: "@ + ages[i].1 + "\n\n"@;
    let init = entries(records.drop_last(), ages);
    let last = entry(records.len(), records.last(), ages[records.len() - 1]);
    if i == records.len() - 1 {
        let record = records.last();
        let start = decimal(records.len()) + ". **"@ + record.message + "** (occurred "@ + decimal(
            record.count as nat,
        ) + " time(s))"@ + location(record.file, record.line) + "\n   Source: "@ + record.source;
        assert(init + last =~= (init + start) + told + Seq::empty());
        law_contains(init + start, told, Seq::empty());
    } else {
        lemma_entries_tell_ages(records.drop_last(), ages, i);
        lemma_contains_part(Seq::empty(), init, last, told);
        assert(Seq::empty() + init + last =~= init + last);
    }
}

} // verus!

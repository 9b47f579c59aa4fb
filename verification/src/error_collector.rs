//! The error collector: observations of errors, deduplicated by a fingerprint.
use std::collections::hash_map::DefaultHasher;
use std::hash::Hasher;

use vstd::prelude::*;
use vstd::seq_lib::*;
use vstd::std_specs::hash::*;
use vstd::string::*;

use crate::clock::{epoch_secs, now_secs, time_since_epoch};
use crate::json::{
    fields_view, json_parse, json_text, optional_view, position, Json, JsonObject, JsonView,
    MAX_DEPTH,
};
use crate::text::{
    borrowed, hex, law_hex_differs, lemma_hex, optional, optional_str, push_hex, same_text,
    sixteen_to,
};

verus! {

/// The namespace of the store in which the records stand.
pub const ERROR_NAMESPACE: &'static str = "ide_errors";

/// A single error observation, deduplicated by its content fingerprint.
#[derive(Debug)]
pub struct ErrorRecord {
    pub message: String,
    /// The source/category of the error (e.g. `tool_error`, `rust_analyzer`).
    pub source: String,
    /// Optional file path associated with the error.
    pub file: Option<String>,
    /// Optional line number.
    pub line: Option<u32>,
    /// Optional column number.
    pub column: Option<u32>,
    pub first_seen: u64,
    pub last_seen: u64,
    pub count: u64,
    /// The tool that was executing when the error occurred (if applicable).
    pub tool: Option<String>,
    /// The raw input arguments passed to the tool.
    pub tool_input: Option<Json>,
    /// The raw output returned by the tool (including error details).
    pub tool_output: Option<Json>,
}

/// An error observation as mathematics.
#[verifier::ext_equal]
pub struct ErrorRecordView {
    pub message: Seq<char>,
    pub source: Seq<char>,
    pub file: Option<Seq<char>>,
    pub line: Option<u32>,
    pub column: Option<u32>,
    pub first_seen: u64,
    pub last_seen: u64,
    pub count: u64,
    pub tool: Option<Seq<char>>,
    pub tool_input: Option<JsonView>,
    pub tool_output: Option<JsonView>,
}

impl View for ErrorRecord {
    type V = ErrorRecordView;

    open spec fn view(&self) -> ErrorRecordView {
        ErrorRecordView {
            message: self.message@,
            source: self.source@,
            file: optional(self.file),
            line: self.line,
            column: self.column,
            first_seen: self.first_seen,
            last_seen: self.last_seen,
            count: self.count,
            tool: optional(self.tool),
            tool_input: optional_view(self.tool_input),
            tool_output: optional_view(self.tool_output),
        }
    }
}

impl Clone for ErrorRecord {
    fn clone(&self) -> (r: Self)
        ensures
            r@ == self@,
    {
        ErrorRecord {
            message: self.message.clone(),
            source: self.source.clone(),
            file: self.file.clone(),
            line: self.line,
            column: self.column,
            first_seen: self.first_seen,
            last_seen: self.last_seen,
            count: self.count,
            tool: self.tool.clone(),
            tool_input: self.tool_input.clone(),
            tool_output: self.tool_output.clone(),
        }
    }
}

/// One row of the store: a key, and the record that is read under it; `None` for a value that is
/// read as no record. The store holds text, so this is not always the record that was written: see
/// [`record_read`].
#[derive(Debug)]
pub struct Row {
    pub key: String,
    pub record: Option<ErrorRecord>,
}

/// What an optional record holds.
pub open spec fn optional_record(record: Option<ErrorRecord>) -> Option<ErrorRecordView> {
    match record {
        Some(r) => Some(r@),
        None => None,
    }
}

impl View for Row {
    type V = (Seq<char>, Option<ErrorRecordView>);

    open spec fn view(&self) -> (Seq<char>, Option<ErrorRecordView>) {
        (self.key@, optional_record(self.record))
    }
}

/// What a sequence of records holds.
pub open spec fn records_view(records: Seq<ErrorRecord>) -> Seq<ErrorRecordView> {
    records.map_values(|record: ErrorRecord| record@)
}

/// The rows of a store, in the order in which they were written.
pub type Rows = Seq<(Seq<char>, Option<ErrorRecordView>)>;

/// What a sequence of rows holds.
pub open spec fn rows_view(rows: Seq<Row>) -> Rows {
    rows.map_values(|row: Row| row@)
}

/// No two rows have one key.
pub open spec fn keys_distinct(rows: Rows) -> bool {
    forall|i: int, j: int| 0 <= i < j < rows.len() ==> rows[i].0 != rows[j].0
}

/// The record under a key.
pub open spec fn stored(rows: Rows, key: Seq<char>) -> Option<ErrorRecordView>
    decreases rows.len(),
{
    if rows.len() == 0 {
        None
    } else if rows.last().0 == key {
        rows.last().1
    } else {
        stored(rows.drop_last(), key)
    }
}

/// Whether a row is of another key.
pub open spec fn of_other_key(key: Seq<char>) -> spec_fn((Seq<char>, Option<ErrorRecordView>)) -> bool {
    |row: (Seq<char>, Option<ErrorRecordView>)| row.0 != key
}

/// The rows of the other keys.
pub open spec fn without(rows: Rows, key: Seq<char>) -> Rows {
    rows.filter(of_other_key(key))
}

/// The rows after a row is written: it replaces the row of its key, and stands last.
pub open spec fn written(rows: Rows, key: Seq<char>, record: Option<ErrorRecordView>) -> Rows {
    without(rows, key).push((key, record))
}

/// The rows after several are written, one after the other.
pub open spec fn all_written(rows: Rows, more: Rows) -> Rows
    decreases more.len(),
{
    if more.len() == 0 {
        rows
    } else {
        let before = all_written(rows, more.drop_last());
        written(before, more.last().0, more.last().1)
    }
}

/// The records, the one written last first.
pub open spec fn newest_first(rows: Rows) -> Seq<ErrorRecordView>
    decreases rows.len(),
{
    if rows.len() == 0 {
        Seq::empty()
    } else {
        match rows.last().1 {
            Some(record) => seq![record] + newest_first(rows.drop_last()),
            None => newest_first(rows.drop_last()),
        }
    }
}

/// Whether a record was last seen at a time or after it.
pub open spec fn seen_since(time: u64) -> spec_fn(ErrorRecordView) -> bool {
    |record: ErrorRecordView| record.last_seen >= time
}

/// Whether a record was last seen before a time.
pub open spec fn seen_before(time: u64) -> spec_fn(ErrorRecordView) -> bool {
    |record: ErrorRecordView| record.last_seen < time
}

/// The records with one more, behind those that were last seen no earlier than it.
pub open spec fn placed(
    records: Seq<ErrorRecordView>,
    record: ErrorRecordView,
) -> Seq<ErrorRecordView> {
    records.filter(seen_since(record.last_seen)) + seq![record] + records.filter(
        seen_before(record.last_seen),
    )
}

/// The records sorted by the time at which they were last seen, descending; those of one time keep
/// their order.
pub open spec fn by_last_seen(records: Seq<ErrorRecordView>) -> Seq<ErrorRecordView>
    decreases records.len(),
{
    if records.len() == 0 {
        records
    } else {
        placed(by_last_seen(records.drop_last()), records.last())
    }
}

/// What a query gives: the records by last seen, descending; of those last seen at one time, the
/// one written last first.
pub open spec fn queried(rows: Rows) -> Seq<ErrorRecordView> {
    by_last_seen(newest_first(rows))
}

/// The records are sorted by the time at which they were last seen, descending.
pub open spec fn latest_first(records: Seq<ErrorRecordView>) -> bool {
    forall|i: int, j: int|
        0 <= i < j < records.len() ==> records[i].last_seen >= records[j].last_seen
}

/// No record was last seen before `time`.
pub open spec fn none_before(records: Seq<ErrorRecordView>, time: u64) -> bool {
    forall|i: int| 0 <= i < records.len() ==> (#[trigger] records[i]).last_seen >= time
}

/// No record was last seen after `now`.
pub open spec fn none_after(records: Seq<ErrorRecordView>, now: u64) -> bool {
    forall|i: int| 0 <= i < records.len() ==> (#[trigger] records[i]).last_seen <= now
}

/// The record under a key, if there is one, can be counted once more.
pub open spec fn can_count(rows: Rows, key: Seq<char>) -> bool {
    stored(rows, key) matches Some(record) ==> record.count < u64::MAX
}

/// What is written to a hasher for a string, one entry for each write, on the target that the
/// library is built for.
pub uninterp spec fn str_hash_writes(text: Seq<char>) -> Seq<Seq<u8>>;

/// What is written to a hasher for an optional string, one entry for each write, on the target
/// that the library is built for.
pub uninterp spec fn optional_str_hash_writes(text: Option<Seq<char>>) -> Seq<Seq<u8>>;

/// What is written to a hasher for an optional `u32`, one entry for each write, on the target that
/// the library is built for.
pub uninterp spec fn optional_u32_hash_writes(n: Option<u32>) -> Seq<Seq<u8>>;

/// `std::hash::Hash::hash` of a string: it writes to the hasher what the string alone decides, on
/// one target. What that is, is not stated: the standard library leaves it open.
#[verifier::external_body]
fn hash_str(text: &str, hasher: &mut DefaultHasher)
    ensures
        final(hasher)@ == old(hasher)@ + str_hash_writes(text@),
{
    std::hash::Hash::hash(text, hasher)
}

/// `std::hash::Hash::hash` of an optional string: it writes to the hasher what the value alone
/// decides, on one target. What that is, is not stated: the standard library leaves it open.
#[verifier::external_body]
fn hash_optional_str(text: Option<&str>, hasher: &mut DefaultHasher)
    ensures
        final(hasher)@ == old(hasher)@ + optional_str_hash_writes(optional_str(text)),
{
    std::hash::Hash::hash(&text, hasher)
}

/// `std::hash::Hash::hash` of an optional `u32`: it writes to the hasher what the value alone
/// decides, on one target. What that is, is not stated: the standard library leaves it open.
#[verifier::external_body]
fn hash_optional_u32(n: Option<u32>, hasher: &mut DefaultHasher)
    ensures
        final(hasher)@ == old(hasher)@ + optional_u32_hash_writes(n),
{
    std::hash::Hash::hash(&n, hasher)
}

/// The fingerprint of an error: the hash of its source, file, line and message.
pub open spec fn fingerprint(
    message: Seq<char>,
    source: Seq<char>,
    file: Option<Seq<char>>,
    line: Option<u32>,
) -> u64 {
    DefaultHasher::spec_finish(
        str_hash_writes(source) + optional_str_hash_writes(file) + optional_u32_hash_writes(line)
            + str_hash_writes(message),
    )
}

/// The key of an error: its fingerprint in sixteen hexadecimal digits.
pub open spec fn error_key(
    message: Seq<char>,
    source: Seq<char>,
    file: Option<Seq<char>>,
    line: Option<u32>,
) -> Seq<char> {
    hex(fingerprint(message, source, file, line) as nat, 16)
}

/// The part of a tool error's message that counts for its fingerprint: its first 200 characters.
pub open spec fn message_prefix(message: Seq<char>) -> Seq<char> {
    if message.len() < 200 {
        message
    } else {
        message.take(200)
    }
}

/// The key of a tool error: the hash of the tool and of the first part of the message.
pub open spec fn tool_key(tool: Seq<char>, message: Seq<char>) -> Seq<char> {
    "tool:"@ + hex(
        DefaultHasher::spec_finish(
            str_hash_writes(tool) + str_hash_writes(message_prefix(message)),
        ) as nat,
        16,
    )
}

/// The record of an error that is seen for the first time.
pub open spec fn first_record(
    message: Seq<char>,
    source: Seq<char>,
    file: Option<Seq<char>>,
    line: Option<u32>,
    column: Option<u32>,
    now: u64,
) -> ErrorRecordView {
    ErrorRecordView {
        message,
        source,
        file,
        line,
        column,
        first_seen: now,
        last_seen: now,
        count: 1,
        tool: None,
        tool_input: None,
        tool_output: None,
    }
}

/// The record of a tool error that is seen for the first time.
pub open spec fn first_tool_record(
    message: Seq<char>,
    tool: Seq<char>,
    tool_input: Option<JsonView>,
    tool_output: Option<JsonView>,
    now: u64,
) -> ErrorRecordView {
    ErrorRecordView {
        tool: Some(tool),
        tool_input,
        tool_output,
        ..first_record(message, "tool_error"@, None, None, None, now)
    }
}

/// The record of an error that was seen before: counted once more, and last seen now.
pub open spec fn seen_again(record: ErrorRecordView, now: u64) -> ErrorRecordView {
    ErrorRecordView { count: (record.count + 1) as u64, last_seen: now, ..record }
}

/// `newer` where it is there, else `older`.
pub open spec fn latest(older: Option<JsonView>, newer: Option<JsonView>) -> Option<JsonView> {
    if newer is Some {
        newer
    } else {
        older
    }
}

/// The record to write of an error, from the one that is stored and a fresh observation.
pub open spec fn merged(existing: Option<ErrorRecordView>, fresh: ErrorRecordView) -> ErrorRecordView {
    match existing {
        Some(record) => seen_again(record, fresh.last_seen),
        None => fresh,
    }
}

/// The record to write of a tool error: the input and output of the latest observation that has
/// them stay.
pub open spec fn merged_tool(
    existing: Option<ErrorRecordView>,
    fresh: ErrorRecordView,
) -> ErrorRecordView {
    match existing {
        Some(record) => ErrorRecordView {
            tool_input: latest(record.tool_input, fresh.tool_input),
            tool_output: latest(record.tool_output, fresh.tool_output),
            ..seen_again(record, fresh.last_seen)
        },
        None => fresh,
    }
}

/// A JSON value as the field of an object.
pub open spec fn held(value: JsonView) -> JsonView {
    JsonView::Object(seq![("value"@, value)])
}

/// What the text of a JSON value inside an object is read as: `None` where it cannot be read, and
/// nothing for null.
pub open spec fn reread(value: JsonView) -> Option<Option<JsonView>> {
    match json_parse(json_text(held(value))) {
        Some(json) => Some(
            match json.get("value"@) {
                Some(JsonView::Null) => None,
                inner => inner,
            },
        ),
        None => None,
    }
}

/// What a tool's input or output is read as once it was written inside a record; `None` where the
/// record then cannot be read. Null is read as nothing. A plain value that is nested no deeper than
/// it may be inside a record is read as it was. For any other (a floating-point number may be
/// rounded, a value that is nested too deep cannot be read) this is what its text is read as.
pub open spec fn carried(value: Option<JsonView>) -> Option<Option<JsonView>> {
    match value {
        None => Some(None),
        Some(JsonView::Null) => Some(None),
        Some(v) => if v.is_plain((MAX_DEPTH - 1) as nat) {
            Some(Some(v))
        } else {
            reread(v)
        },
    }
}

/// What a record is read as once it was written: the record, with what its tool's input and output
/// are read as; `None` where it cannot be read.
pub open spec fn record_read(record: ErrorRecordView) -> Option<ErrorRecordView> {
    match (carried(record.tool_input), carried(record.tool_output)) {
        (Some(tool_input), Some(tool_output)) => Some(
            ErrorRecordView { tool_input, tool_output, ..record },
        ),
        _ => None,
    }
}

/// A record that holds no input or output of a tool.
pub open spec fn without_tool_values(record: Option<ErrorRecordView>) -> bool {
    record matches Some(r) ==> r.tool_input is None && r.tool_output is None
}

/// The rows after an error is recorded.
pub open spec fn recorded(
    rows: Rows,
    message: Seq<char>,
    source: Seq<char>,
    file: Option<Seq<char>>,
    line: Option<u32>,
    column: Option<u32>,
    now: u64,
) -> Rows {
    let key = error_key(message, source, file, line);
    let fresh = first_record(message, source, file, line, column, now);
    written(rows, key, record_read(merged(stored(rows, key), fresh)))
}

/// The rows after a tool error is recorded.
pub open spec fn tool_recorded(
    rows: Rows,
    message: Seq<char>,
    tool: Seq<char>,
    tool_input: Option<JsonView>,
    tool_output: Option<JsonView>,
    now: u64,
) -> Rows {
    let key = tool_key(tool, message);
    let fresh = first_tool_record(message, tool, tool_input, tool_output, now);
    written(rows, key, record_read(merged_tool(stored(rows, key), fresh)))
}

/// The key of an error.
pub fn message_key(message: &str, source: &str, file: Option<&str>, line: Option<u32>) -> (r: String)
    ensures
        r@ == error_key(message@, source@, optional_str(file), line),
{
    let mut hasher: DefaultHasher = DefaultHasher::new();
    hash_str(source, &mut hasher);
    hash_optional_str(file, &mut hasher);
    hash_optional_u32(line, &mut hasher);
    hash_str(message, &mut hasher);
    assert(hasher@ == str_hash_writes(source@) + optional_str_hash_writes(optional_str(file))
        + optional_u32_hash_writes(line) + str_hash_writes(message@));
    let mut key: String = String::new();
    push_hex(&mut key, hasher.finish(), 16);
    key
}

/// The key of a tool error.
pub fn tool_error_key(tool: &str, message: &str) -> (r: String)
    ensures
        r@ == tool_key(tool@, message@),
{
    let prefix: &str = if message.unicode_len() < 200 {
        message
    } else {
        message.substring_char(0, 200)
    };
    assert(prefix@ =~= message_prefix(message@));
    let mut hasher: DefaultHasher = DefaultHasher::new();
    hash_str(tool, &mut hasher);
    hash_str(prefix, &mut hasher);
    assert(hasher@ == str_hash_writes(tool@) + str_hash_writes(message_prefix(message@)));
    let mut key: String = "tool:".to_owned();
    push_hex(&mut key, hasher.finish(), 16);
    key
}

impl ErrorRecord {
    /// The record of an error that is seen for the first time.
    pub fn first(
        message: String,
        source: String,
        file: Option<String>,
        line: Option<u32>,
        column: Option<u32>,
        now: u64,
    ) -> (r: ErrorRecord)
        ensures
            r@ == first_record(message@, source@, optional(file), line, column, now),
    {
        ErrorRecord {
            message,
            source,
            file,
            line,
            column,
            first_seen: now,
            last_seen: now,
            count: 1,
            tool: None,
            tool_input: None,
            tool_output: None,
        }
    }

    /// The record of a tool error that is seen for the first time.
    pub fn first_of_tool(
        message: String,
        tool: String,
        tool_input: Option<Json>,
        tool_output: Option<Json>,
        now: u64,
    ) -> (r: ErrorRecord)
        ensures
            r@ == first_tool_record(
                message@,
                tool@,
                optional_view(tool_input),
                optional_view(tool_output),
                now,
            ),
    {
        ErrorRecord {
            message,
            source: "tool_error".to_owned(),
            file: None,
            line: None,
            column: None,
            first_seen: now,
            last_seen: now,
            count: 1,
            tool: Some(tool),
            tool_input,
            tool_output,
        }
    }

    /// The record to write of an error.
    pub fn merge(existing: Option<ErrorRecord>, fresh: ErrorRecord) -> (r: ErrorRecord)
        requires
            existing matches Some(record) ==> record.count < u64::MAX,
        ensures
            r@ == merged(optional_record(existing), fresh@),
            existing matches Some(before) ==> {
                &&& r.message == before.message
                &&& r.source == before.source
                &&& r.file == before.file
                &&& r.line == before.line
                &&& r.column == before.column
                &&& r.first_seen == before.first_seen
                &&& r.last_seen == fresh.last_seen
                &&& r.count == before.count + 1
                &&& r.tool == before.tool
                &&& r.tool_input == before.tool_input
                &&& r.tool_output == before.tool_output
            },
            existing is None ==> r == fresh,
    {
        match existing {
            Some(mut record) => {
                record.count = record.count + 1;
                record.last_seen = fresh.last_seen;
                record
            },
            None => fresh,
        }
    }

    /// The record to write of a tool error.
    pub fn merge_tool(existing: Option<ErrorRecord>, fresh: ErrorRecord) -> (r: ErrorRecord)
        requires
            existing matches Some(record) ==> record.count < u64::MAX,
        ensures
            r@ == merged_tool(optional_record(existing), fresh@),
            existing matches Some(before) ==> {
                &&& r.message == before.message
                &&& r.source == before.source
                &&& r.file == before.file
                &&& r.line == before.line
                &&& r.column == before.column
                &&& r.first_seen == before.first_seen
                &&& r.last_seen == fresh.last_seen
                &&& r.count == before.count + 1
                &&& r.tool == before.tool
                &&& r.tool_input == if fresh.tool_input is Some {
                    fresh.tool_input
                } else {
                    before.tool_input
                }
                &&& r.tool_output == if fresh.tool_output is Some {
                    fresh.tool_output
                } else {
                    before.tool_output
                }
            },
            existing is None ==> r == fresh,
    {
        match existing {
            Some(mut record) => {
                record.count = record.count + 1;
                record.last_seen = fresh.last_seen;
                if fresh.tool_input.is_some() {
                    record.tool_input = fresh.tool_input;
                }
                if fresh.tool_output.is_some() {
                    record.tool_output = fresh.tool_output;
                }
                record
            },
            None => fresh,
        }
    }
}

/// What a tool's input or output is read as once it was written inside a record.
fn read_value(value: Option<Json>) -> (r: Option<Option<Json>>)
    ensures
        carried(optional_view(value)) == match r {
            Some(v) => Some(optional_view(v)),
            None => None,
        },
{
    match value {
        None => Some(None),
        Some(v) => {
            let ghost view = v@;
            let entries: Vec<(String, Json)> = vec![("value".to_owned(), v)];
            proof {
                assert(fields_view(entries@) =~= held(view)->Object_0);
                reveal_strlit("value");
                reveal_strlit("$serde_json::private::RawValue");
                assert(held(view)->Object_0[0].0.len() == 5);
                assert(position(held(view)->Object_0, "value"@) == 0);
                if view.is_plain((MAX_DEPTH - 1) as nat) {
                    assert(held(view).reads_back());
                }
            }
            let text: String = Json::Object(JsonObject::from_entries(entries)).to_text();
            match Json::parse(text.as_str()) {
                Some(json) => match json.get("value") {
                    Some(Json::Null) => Some(None),
                    Some(inner) => Some(Some(inner.clone())),
                    None => Some(None),
                },
                None => None,
            }
        },
    }
}

impl ErrorRecord {
    /// What the record is read as once it was written; `None` where it cannot be read.
    pub fn read_back(self) -> (r: Option<ErrorRecord>)
        ensures
            optional_record(r) == record_read(self@),
    {
        match (read_value(self.tool_input), read_value(self.tool_output)) {
            (Some(tool_input), Some(tool_output)) => Some(
                ErrorRecord {
                    message: self.message,
                    source: self.source,
                    file: self.file,
                    line: self.line,
                    column: self.column,
                    first_seen: self.first_seen,
                    last_seen: self.last_seen,
                    count: self.count,
                    tool: self.tool,
                    tool_input,
                    tool_output,
                },
            ),
            _ => None,
        }
    }
}

/// The error records of a store's namespace.
#[derive(Debug)]
pub struct ErrorCollector {
    rows: Vec<Row>,
}

impl View for ErrorCollector {
    type V = Rows;

    closed spec fn view(&self) -> Rows {
        rows_view(self.rows@)
    }
}

/// Where no two rows have one key, the rows of the other keys are those without the one at `at`.
proof fn lemma_without(rows: Rows, at: int)
    requires
        keys_distinct(rows),
        0 <= at < rows.len(),
    ensures
        without(rows, rows[at].0) == rows.remove(at),
        stored(rows, rows[at].0) == rows[at].1,
    decreases rows.len(),
{
    reveal(Seq::filter);
    let key = rows[at].0;
    let init = rows.drop_last();
    if at == rows.len() - 1 {
        lemma_without_absent(init, key);
        assert(rows.remove(at) == init);
    } else {
        lemma_without(init, at);
        assert(rows.remove(at) == init.remove(at).push(rows.last()));
    }
}

/// Where no row has the key, all rows are of other keys.
proof fn lemma_without_absent(rows: Rows, key: Seq<char>)
    requires
        forall|i: int| 0 <= i < rows.len() ==> rows[i].0 != key,
    ensures
        without(rows, key) == rows,
        stored(rows, key) is None,
    decreases rows.len(),
{
    reveal(Seq::filter);
    if rows.len() > 0 {
        lemma_without_absent(rows.drop_last(), key);
        assert(rows.drop_last().push(rows.last()) == rows);
    }
}

/// No row of the other keys has the key.
proof fn lemma_without_key(rows: Rows, key: Seq<char>)
    ensures
        forall|i: int|
            0 <= i < without(rows, key).len() ==> (#[trigger] without(rows, key)[i]).0 != key,
{
    assert forall|i: int| 0 <= i < without(rows, key).len() implies (#[trigger] without(
        rows,
        key,
    )[i]).0 != key by {
        rows.lemma_filter_pred(of_other_key(key), i);
    }
}

/// Writing a row keeps the keys distinct.
pub proof fn law_keys_stay_distinct(rows: Rows, key: Seq<char>, record: Option<ErrorRecordView>)
    requires
        keys_distinct(rows),
    ensures
        keys_distinct(written(rows, key, record)),
{
    if exists|at: int| 0 <= at < rows.len() && rows[at].0 == key {
        let at = choose|at: int| 0 <= at < rows.len() && rows[at].0 == key;
        lemma_without(rows, at);
        let after = written(rows, key, record);
        assert forall|i: int, j: int| 0 <= i < j < after.len() implies after[i].0 != after[j].0 by {
            let i0 = if i < at { i } else { i + 1 };
            let j0 = if j < at { j } else { j + 1 };
            assert(after[i] == rows[i0]);
            if j < after.len() - 1 {
                assert(after[j] == rows[j0]);
            } else {
                assert(rows[i0].0 != rows[at].0);
            }
        }
    } else {
        lemma_without_absent(rows, key);
    }
}

/// Where the first `at` of sorted records were last seen at a time or after it, and the others
/// before it, these are the records that were last seen since then and before.
proof fn lemma_split(records: Seq<ErrorRecordView>, time: u64, at: int)
    requires
        0 <= at <= records.len(),
        forall|i: int| 0 <= i < at ==> (#[trigger] records[i]).last_seen >= time,
        forall|i: int| at <= i < records.len() ==> (#[trigger] records[i]).last_seen < time,
    ensures
        records.filter(seen_since(time)) == records.take(at),
        records.filter(seen_before(time)) == records.skip(at),
    decreases records.len(),
{
    reveal(Seq::filter);
    if records.len() > 0 {
        let init = records.drop_last();
        if at == records.len() {
            lemma_split(init, time, at - 1);
            assert(records.take(at) == init.take(at - 1).push(records.last()));
            assert(records.skip(at) == init.skip(at - 1));
        } else {
            lemma_split(init, time, at);
            assert(records.take(at) == init.take(at));
            assert(records.skip(at) == init.skip(at).push(records.last()));
        }
    }
}

/// Puts a record into records that are sorted by last seen, descending.
fn place(records: &mut Vec<ErrorRecord>, record: ErrorRecord)
    requires
        latest_first(records_view(old(records)@)),
    ensures
        records_view(final(records)@) == placed(records_view(old(records)@), record@),
{
    let ghost before = records_view(records@);
    let mut at: usize = records.len();
    while at > 0 && records[at - 1].last_seen < record.last_seen
        invariant
            at <= records@.len(),
            before == records_view(records@),
            forall|i: int| at <= i < before.len() ==> (#[trigger] before[i]).last_seen < record.last_seen,
        decreases at,
    {
        at -= 1;
        assert(before[at as int] == records@[at as int]@);
    }
    proof {
        assert forall|i: int| 0 <= i < at implies (#[trigger] before[i]).last_seen
            >= record.last_seen by {
            assert(before[at - 1] == records@[at - 1]@);
            if i < at - 1 {
                assert(before[i].last_seen >= before[at - 1].last_seen);
            }
        }
        lemma_split(before, record.last_seen, at as int);
    }
    records.insert(at, record);
    assert(records_view(records@) =~= before.take(at as int) + seq![record@] + before.skip(
        at as int,
    ));
}

/// What `by_last_seen` gives is sorted by last seen, descending.
proof fn lemma_sorted(records: Seq<ErrorRecordView>)
    ensures
        latest_first(by_last_seen(records)),
    decreases records.len(),
{
    if records.len() > 0 {
        let before = by_last_seen(records.drop_last());
        let record = records.last();
        let since = before.filter(seen_since(record.last_seen));
        let earlier = before.filter(seen_before(record.last_seen));
        let after = placed(before, record);
        lemma_sorted(records.drop_last());
        lemma_filter_sorted(before, seen_since(record.last_seen));
        lemma_filter_sorted(before, seen_before(record.last_seen));
        assert forall|i: int, j: int| 0 <= i < j < after.len() implies after[i].last_seen
            >= after[j].last_seen by {
            if i < since.len() {
                before.lemma_filter_pred(seen_since(record.last_seen), i);
            }
            if j > since.len() {
                before.lemma_filter_pred(seen_before(record.last_seen), j - since.len() - 1);
            }
        }
    }
}

/// Some of sorted records are sorted.
proof fn lemma_filter_sorted(records: Seq<ErrorRecordView>, pred: spec_fn(ErrorRecordView) -> bool)
    requires
        latest_first(records),
    ensures
        latest_first(records.filter(pred)),
        forall|time: u64|
            none_before(records, time) ==> #[trigger] none_before(records.filter(pred), time),
    decreases records.len(),
{
    reveal(Seq::filter);
    if records.len() > 0 {
        let init = records.drop_last();
        let last = records.last();
        assert(latest_first(init)) by {
            assert forall|i: int, j: int| 0 <= i < j < init.len() implies init[i].last_seen
                >= init[j].last_seen by {
                assert(init[i] == records[i] && init[j] == records[j]);
            }
        }
        assert(none_before(init, last.last_seen)) by {
            assert forall|i: int| 0 <= i < init.len() implies (#[trigger] init[i]).last_seen
                >= last.last_seen by {
                assert(init[i] == records[i]);
                assert(records[i].last_seen >= records[records.len() - 1].last_seen);
            }
        }
        lemma_filter_sorted(init, pred);
        assert(none_before(init.filter(pred), last.last_seen));
        assert forall|time: u64| none_before(records, time) implies #[trigger] none_before(
            records.filter(pred),
            time,
        ) by {
            assert(none_before(init, time)) by {
                assert forall|i: int| 0 <= i < init.len() implies (#[trigger] init[i]).last_seen
                    >= time by {
                    assert(init[i] == records[i]);
                }
            }
            assert(none_before(init.filter(pred), time));
            assert(records[records.len() - 1].last_seen >= time);
        }
    }
}

impl ErrorCollector {
    #[verifier::type_invariant]
    spec fn well_formed(self) -> bool {
        keys_distinct(rows_view(self.rows@))
    }

    /// A collector without records.
    pub fn new() -> (r: ErrorCollector)
        ensures
            r@ == Rows::empty(),
    {
        let r = ErrorCollector { rows: Vec::new() };
        assert(r@ =~= Rows::empty());
        r
    }

    /// The index of the row of a key.
    fn find(&self, key: &str) -> (r: Option<usize>)
        ensures
            match r {
                Some(at) => at < self@.len() && self@[at as int].0 == key@,
                None => forall|i: int| 0 <= i < self@.len() ==> (#[trigger] self@[i]).0 != key@,
            },
    {
        let mut i: usize = 0;
        while i < self.rows.len()
            invariant
                i <= self.rows@.len() == self@.len(),
                forall|j: int| 0 <= j < i ==> (#[trigger] self@[j]).0 != key@,
            decreases self.rows@.len() - i,
        {
            assert(self@[i as int] == self.rows@[i as int]@);
            if same_text(self.rows[i].key.as_str(), key) {
                return Some(i);
            }
            i += 1;
        }
        None
    }

    /// Takes the row of a key out.
    fn remove(&mut self, key: &str)
        ensures
            final(self)@ == without(old(self)@, key@),
    {
        proof {
            use_type_invariant(&*self);
        }
        match self.find(key) {
            Some(at) => {
                proof {
                    lemma_without(self@, at as int);
                }
                let mut rows: Vec<Row> = Vec::new();
                std::mem::swap(&mut rows, &mut self.rows);
                let ghost before = rows@;
                let _ = rows.remove(at);
                assert(rows_view(rows@) =~= rows_view(before).remove(at as int));
                self.rows = rows;
            },
            None => {
                proof {
                    lemma_without_absent(self@, key@);
                }
            },
        }
    }

    /// The record under a key.
    fn stored(&self, key: &str) -> (r: Option<ErrorRecord>)
        ensures
            optional_record(r) == stored(self@, key@),
    {
        proof {
            use_type_invariant(self);
        }
        match self.find(key) {
            Some(at) => {
                proof {
                    lemma_without(self@, at as int);
                }
                match &self.rows[at].record {
                    Some(record) => Some(record.clone()),
                    None => None,
                }
            },
            None => {
                proof {
                    lemma_without_absent(self@, key@);
                }
                None
            },
        }
    }

    /// Writes a row of a key that no row has.
    fn append(&mut self, key: String, record: Option<ErrorRecord>)
        requires
            forall|i: int| 0 <= i < old(self)@.len() ==> (#[trigger] old(self)@[i]).0 != key@,
        ensures
            final(self)@ == old(self)@.push((key@, optional_record(record))),
    {
        proof {
            use_type_invariant(&*self);
        }
        let mut rows: Vec<Row> = Vec::new();
        std::mem::swap(&mut rows, &mut self.rows);
        let ghost before = rows_view(rows@);
        rows.push(Row { key, record });
        proof {
            assert(rows_view(rows@) =~= before.push((key@, optional_record(record))));
            assert(before == old(self)@);
        }
        self.rows = rows;
    }

    /// Writes a row: it replaces the row of its key, and stands last.
    fn write(&mut self, key: String, record: Option<ErrorRecord>)
        ensures
            final(self)@ == written(old(self)@, key@, optional_record(record)),
    {
        proof {
            lemma_without_key(self@, key@);
        }
        self.remove(key.as_str());
        self.append(key, record);
    }

    /// The collector of the rows of a store, given in the order in which they were written.
    pub fn from_rows(rows: Vec<Row>) -> (r: ErrorCollector)
        ensures
            r@ == all_written(Rows::empty(), rows_view(rows@)),
    {
        let ghost all = rows@;
        let mut collector: ErrorCollector = ErrorCollector::new();
        for row in it: rows
            invariant
                it.seq() == all,
                collector@ == all_written(Rows::empty(), rows_view(all).take(it.index() as int)),
        {
            proof {
                let done = rows_view(all).take(it.index() + 1);
                assert(done.drop_last() =~= rows_view(all).take(it.index() as int));
                assert(done.last() == row@);
            }
            collector.write(row.key, row.record);
        }
        assert(rows_view(all).take(all.len() as int) =~= rows_view(all));
        collector
    }

    /// The rows, in the order in which they were written; no two have one key.
    pub fn rows(&self) -> (r: &Vec<Row>)
        ensures
            rows_view(r@) == self@,
            keys_distinct(self@),
    {
        proof {
            use_type_invariant(self);
        }
        &self.rows
    }

    /// Whether the record under a key, if there is one, can be counted once more.
    pub fn can_count(&self, key: &str) -> (r: bool)
        ensures
            r == can_count(self@, key@),
    {
        proof {
            use_type_invariant(&*self);
        }
        match self.find(key) {
            Some(at) => {
                proof {
                    lemma_without(self@, at as int);
                }
                match &self.rows[at].record {
                    Some(record) => record.count < u64::MAX,
                    None => true,
                }
            },
            None => {
                proof {
                    lemma_without_absent(self@, key@);
                }
                true
            },
        }
    }

    /// The key of an error and the record to write under it.
    pub fn error_to_write(
        &self,
        message: String,
        source: String,
        file: Option<String>,
        line: Option<u32>,
        column: Option<u32>,
        now: u64,
    ) -> (r: (String, ErrorRecord))
        requires
            can_count(self@, error_key(message@, source@, optional(file), line)),
        ensures
            r.0@ == error_key(message@, source@, optional(file), line),
            r.1@ == merged(
                stored(self@, r.0@),
                first_record(message@, source@, optional(file), line, column, now),
            ),
    {
        let key: String = message_key(message.as_str(), source.as_str(), borrowed(&file), line);
        let existing: Option<ErrorRecord> = self.stored(key.as_str());
        let fresh: ErrorRecord = ErrorRecord::first(message, source, file, line, column, now);
        (key, ErrorRecord::merge(existing, fresh))
    }

    /// The key of a tool error and the record to write under it.
    pub fn tool_error_to_write(
        &self,
        message: String,
        tool_name: String,
        tool_input: Option<Json>,
        tool_output: Option<Json>,
        now: u64,
    ) -> (r: (String, ErrorRecord))
        requires
            can_count(self@, tool_key(tool_name@, message@)),
        ensures
            r.0@ == tool_key(tool_name@, message@),
            r.1@ == merged_tool(
                stored(self@, r.0@),
                first_tool_record(
                    message@,
                    tool_name@,
                    optional_view(tool_input),
                    optional_view(tool_output),
                    now,
                ),
            ),
    {
        let key: String = tool_error_key(tool_name.as_str(), message.as_str());
        let existing: Option<ErrorRecord> = self.stored(key.as_str());
        let fresh: ErrorRecord = ErrorRecord::first_of_tool(
            message,
            tool_name,
            tool_input,
            tool_output,
            now,
        );
        (key, ErrorRecord::merge_tool(existing, fresh))
    }

    /// Record an error at a time. Automatically deduplicates by fingerprint
    /// (source + file + line + message hash) - increments count on match.
    pub fn record_at(
        &mut self,
        message: String,
        source: String,
        file: Option<String>,
        line: Option<u32>,
        column: Option<u32>,
        now: u64,
    )
        requires
            can_count(old(self)@, error_key(message@, source@, optional(file), line)),
        ensures
            final(self)@ == recorded(
                old(self)@,
                message@,
                source@,
                optional(file),
                line,
                column,
                now,
            ),
    {
        let (key, record) = self.error_to_write(message, source, file, line, column, now);
        self.write(key, record.read_back());
    }

    /// Record an error at the time of the call.
    pub fn record(
        &mut self,
        message: String,
        source: String,
        file: Option<String>,
        line: Option<u32>,
        column: Option<u32>,
    )
        requires
            can_count(old(self)@, error_key(message@, source@, optional(file), line)),
        ensures
            exists|time: std::time::SystemTime|
                final(self)@ == recorded(
                    old(self)@,
                    message@,
                    source@,
                    optional(file),
                    line,
                    column,
                    epoch_secs(#[trigger] time_since_epoch(time)),
                ),
    {
        let now: u64 = now_secs();
        self.record_at(message, source, file, line, column, now);
    }

    /// Record an error at the time of the call, unless it was counted as often as can be counted.
    /// Tells whether it was recorded.
    pub fn try_record(
        &mut self,
        message: String,
        source: String,
        file: Option<String>,
        line: Option<u32>,
        column: Option<u32>,
    ) -> (r: bool)
        ensures
            r == can_count(old(self)@, error_key(message@, source@, optional(file), line)),
            r ==> exists|time: std::time::SystemTime|
                final(self)@ == recorded(
                    old(self)@,
                    message@,
                    source@,
                    optional(file),
                    line,
                    column,
                    epoch_secs(#[trigger] time_since_epoch(time)),
                ),
            !r ==> final(self)@ == old(self)@,
    {
        let key: String = message_key(message.as_str(), source.as_str(), borrowed(&file), line);
        if self.can_count(key.as_str()) {
            self.record(message, source, file, line, column);
            true
        } else {
            false
        }
    }

    /// Record a tool execution error with full context
    /// (message, tool name, tool input, tool output) at a time. The record is kept as text.
    pub fn record_tool_error_at(
        &mut self,
        message: String,
        tool_name: String,
        tool_input: Option<Json>,
        tool_output: Option<Json>,
        now: u64,
    )
        requires
            can_count(old(self)@, tool_key(tool_name@, message@)),
        ensures
            final(self)@ == tool_recorded(
                old(self)@,
                message@,
                tool_name@,
                optional_view(tool_input),
                optional_view(tool_output),
                now,
            ),
    {
        let (key, record) = self.tool_error_to_write(
            message,
            tool_name,
            tool_input,
            tool_output,
            now,
        );
        self.write(key, record.read_back());
    }

    /// Record a tool execution error with full context
    /// (message, tool name, tool input, tool output) at the time of the call.
    /// This is the primary ingestion point for tool-level errors.
    ///
    /// The record is kept as text: an input or output that is null is queried as none, and one that
    /// is not plain as what its text is read as.
    pub fn record_tool_error(
        &mut self,
        message: String,
        tool_name: String,
        tool_input: Option<Json>,
        tool_output: Option<Json>,
    )
        requires
            can_count(old(self)@, tool_key(tool_name@, message@)),
        ensures
            exists|time: std::time::SystemTime|
                final(self)@ == tool_recorded(
                    old(self)@,
                    message@,
                    tool_name@,
                    optional_view(tool_input),
                    optional_view(tool_output),
                    epoch_secs(#[trigger] time_since_epoch(time)),
                ),
    {
        let now: u64 = now_secs();
        self.record_tool_error_at(message, tool_name, tool_input, tool_output, now);
    }

    /// Record a tool execution error at the time of the call, unless it was counted as often as can
    /// be counted. Tells whether it was recorded.
    pub fn try_record_tool_error(
        &mut self,
        message: String,
        tool_name: String,
        tool_input: Option<Json>,
        tool_output: Option<Json>,
    ) -> (r: bool)
        ensures
            r == can_count(old(self)@, tool_key(tool_name@, message@)),
            r ==> exists|time: std::time::SystemTime|
                final(self)@ == tool_recorded(
                    old(self)@,
                    message@,
                    tool_name@,
                    optional_view(tool_input),
                    optional_view(tool_output),
                    epoch_secs(#[trigger] time_since_epoch(time)),
                ),
            !r ==> final(self)@ == old(self)@,
    {
        let key: String = tool_error_key(tool_name.as_str(), message.as_str());
        if self.can_count(key.as_str()) {
            self.record_tool_error(message, tool_name, tool_input, tool_output);
            true
        } else {
            false
        }
    }

    /// Query all records, sorted by last_seen descending.
    pub fn query(&self) -> (r: Vec<ErrorRecord>)
        ensures
            records_view(r@) == queried(self@),
    {
        let mut out: Vec<ErrorRecord> = Vec::new();
        let ghost mut done: Seq<ErrorRecordView> = Seq::empty();
        let mut i: usize = self.rows.len();
        assert(self@.take(self@.len() as int) == self@);
        assert(records_view(out@) =~= by_last_seen(done));
        while i > 0
            invariant
                i <= self.rows@.len() == self@.len(),
                done + newest_first(self@.take(i as int)) == newest_first(self@),
                records_view(out@) == by_last_seen(done),
            decreases i,
        {
            i -= 1;
            proof {
                let part = self@.take(i + 1);
                assert(part.drop_last() =~= self@.take(i as int));
                assert(part.last() == self.rows@[i as int]@);
            }
            if let Some(record) = &self.rows[i].record {
                proof {
                    lemma_sorted(done);
                    let rest = newest_first(self@.take(i as int));
                    assert(done + (seq![record@] + rest) =~= done.push(record@) + rest);
                    assert(done.push(record@).drop_last() =~= done);
                    done = done.push(record@);
                }
                place(&mut out, record.clone());
            }
        }
        assert(done + newest_first(self@.take(0)) =~= done);
        out
    }

    /// Delete all error records.
    pub fn clear(&mut self)
        ensures
            final(self)@ == Rows::empty(),
            queried(final(self)@) == Seq::<ErrorRecordView>::empty(),
    {
        self.rows = Vec::new();
        assert(self@ =~= Rows::empty());
    }
}

/// Taking the row of a key out keeps the order of the other records.
proof fn lemma_without_order(rows: Rows, key: Seq<char>, now: u64)
    requires
        latest_first(newest_first(rows)),
        none_after(newest_first(rows), now),
    ensures
        latest_first(newest_first(without(rows, key))),
        none_after(newest_first(without(rows, key)), now),
    decreases rows.len(),
{
    reveal(Seq::filter);
    if rows.len() > 0 {
        let init = rows.drop_last();
        let records = newest_first(rows);
        match rows.last().1 {
            Some(record) => {
                assert(records.drop_first() == newest_first(init));
                assert forall|i: int| 0 <= i < newest_first(init).len() implies (
                #[trigger] newest_first(init)[i]).last_seen <= record.last_seen by {
                    assert(newest_first(init)[i] == records[i + 1]);
                    assert(records[0] == record);
                }
                assert(latest_first(newest_first(init))) by {
                    assert forall|i: int, j: int| 0 <= i < j < newest_first(init).len() implies
                        newest_first(init)[i].last_seen >= newest_first(init)[j].last_seen by {
                        assert(newest_first(init)[i] == records[i + 1]);
                        assert(newest_first(init)[j] == records[j + 1]);
                    }
                }
                lemma_without_order(init, key, record.last_seen);
                assert(records[0].last_seen <= now);
                if rows.last().0 != key {
                    let rest = without(init, key);
                    assert(without(rows, key) == rest.push(rows.last()));
                    assert(rest.push(rows.last()).drop_last() == rest);
                    assert(newest_first(without(rows, key)) == seq![record] + newest_first(rest));
                } else {
                    assert(without(rows, key) == without(init, key));
                }
            },
            None => {
                lemma_without_order(init, key, now);
                if rows.last().0 != key {
                    assert(without(rows, key).drop_last() == without(init, key));
                }
            },
        }
    }
}

/// A record written last stands before those of the other keys.
proof fn lemma_last_written(rows: Rows, key: Seq<char>, record: ErrorRecordView)
    ensures
        newest_first(written(rows, key, Some(record))) == seq![record] + newest_first(
            without(rows, key),
        ),
{
    assert(written(rows, key, Some(record)).drop_last() == without(rows, key));
}

/// A record that was last seen no earlier than all others is sorted first, where it stands first.
proof fn lemma_latest_is_first(record: ErrorRecordView, records: Seq<ErrorRecordView>)
    requires
        none_after(records, record.last_seen),
    ensures
        by_last_seen(seq![record] + records) == seq![record] + by_last_seen(records),
    decreases records.len(),
{
    let all = seq![record] + records;
    if records.len() == 0 {
        lemma_sorted_is_kept(all);
        assert(by_last_seen(records) =~= Seq::empty());
    } else {
        let init = records.drop_last();
        let last = records.last();
        assert(last == records[records.len() - 1]);
        assert forall|i: int| 0 <= i < init.len() implies (#[trigger] init[i]).last_seen
            <= record.last_seen by {
            assert(init[i] == records[i]);
        }
        lemma_latest_is_first(record, init);
        assert(all.drop_last() =~= seq![record] + init);
        let before = by_last_seen(init);
        let since = before.filter(seen_since(last.last_seen));
        let earlier = before.filter(seen_before(last.last_seen));
        lemma_filter_first(record, before, seen_since(last.last_seen));
        lemma_filter_first(record, before, seen_before(last.last_seen));
        assert(placed(seq![record] + before, last) == seq![record] + since + seq![last] + earlier);
        assert(seq![record] + since + seq![last] + earlier =~= seq![record] + (since + seq![last]
            + earlier));
    }
}

/// A filter of a sequence that begins with a record keeps it or drops it.
proof fn lemma_filter_first(
    record: ErrorRecordView,
    records: Seq<ErrorRecordView>,
    pred: spec_fn(ErrorRecordView) -> bool,
)
    ensures
        (seq![record] + records).filter(pred) == if pred(record) {
            seq![record] + records.filter(pred)
        } else {
            records.filter(pred)
        },
    decreases records.len(),
{
    reveal(Seq::filter);
    let all = seq![record] + records;
    if records.len() == 0 {
        assert(all.drop_last() =~= Seq::empty());
        assert(all.drop_last().filter(pred) =~= Seq::empty());
    } else {
        lemma_filter_first(record, records.drop_last(), pred);
        assert(all.drop_last() =~= seq![record] + records.drop_last());
    }
}

/// Sorted records are left as they are.
proof fn lemma_sorted_is_kept(records: Seq<ErrorRecordView>)
    requires
        latest_first(records),
    ensures
        by_last_seen(records) == records,
    decreases records.len(),
{
    if records.len() > 0 {
        let init = records.drop_last();
        let last = records.last();
        assert forall|i: int, j: int| 0 <= i < j < init.len() implies init[i].last_seen
            >= init[j].last_seen by {
            assert(init[i] == records[i] && init[j] == records[j]);
        }
        lemma_sorted_is_kept(init);
        assert forall|i: int| 0 <= i < init.len() implies (#[trigger] init[i]).last_seen
            >= last.last_seen by {
            assert(init[i] == records[i]);
            assert(records[i].last_seen >= records[records.len() - 1].last_seen);
        }
        lemma_split(init, last.last_seen, init.len() as int);
        assert(placed(init, last) =~= records);
    }
}

/// A filter parts records from the others: it and its contrary give each record once.
proof fn lemma_parted(records: Seq<ErrorRecordView>, time: u64)
    ensures
        records.filter(seen_since(time)).to_multiset().add(
            records.filter(seen_before(time)).to_multiset(),
        ) == records.to_multiset(),
    decreases records.len(),
{
    broadcast use group_to_multiset_ensures;

    reveal(Seq::filter);
    let since = records.filter(seen_since(time)).to_multiset();
    let before = records.filter(seen_before(time)).to_multiset();
    if records.len() == 0 {
        assert(since.add(before) =~= records.to_multiset());
    } else {
        let init = records.drop_last();
        lemma_parted(init, time);
        assert(records == init.push(records.last()));
        assert(since.add(before) =~= init.filter(seen_since(time)).to_multiset().add(
            init.filter(seen_before(time)).to_multiset(),
        ).insert(records.last()));
    }
}

/// Sorting gives each record as often as it was there.
proof fn lemma_same_records(records: Seq<ErrorRecordView>)
    ensures
        by_last_seen(records).to_multiset() == records.to_multiset(),
    decreases records.len(),
{
    broadcast use group_to_multiset_ensures;

    if records.len() > 0 {
        let init = records.drop_last();
        let last = records.last();
        lemma_same_records(init);
        let sorted = by_last_seen(init);
        lemma_parted(sorted, last.last_seen);
        let since = sorted.filter(seen_since(last.last_seen));
        let before = sorted.filter(seen_before(last.last_seen));
        lemma_multiset_commutative(since.push(last), before);
        assert(placed(sorted, last) =~= since.push(last) + before);
        assert(records == init.push(last));
        assert(since.to_multiset().insert(last).add(before.to_multiset())
            =~= since.to_multiset().add(before.to_multiset()).insert(last));
    }
}

/// A query gives the record of every row, each once, and no other.
pub proof fn law_query_gives_every_record(rows: Rows)
    ensures
        queried(rows).to_multiset() == newest_first(rows).to_multiset(),
        queried(rows).len() == newest_first(rows).len(),
{
    broadcast use group_to_multiset_ensures;

    lemma_same_records(newest_first(rows));
    assert(queried(rows).len() == queried(rows).to_multiset().len());
    assert(newest_first(rows).len() == newest_first(rows).to_multiset().len());
}

/// Whether a record was last seen at a time.
pub open spec fn seen_at(time: u64) -> spec_fn(ErrorRecordView) -> bool {
    |record: ErrorRecordView| record.last_seen == time
}

/// The records of one time are among those since a time, or among those before it.
proof fn lemma_filter_at(records: Seq<ErrorRecordView>, limit: u64, time: u64)
    ensures
        time >= limit ==> records.filter(seen_since(limit)).filter(seen_at(time))
            == records.filter(seen_at(time)),
        time < limit ==> records.filter(seen_since(limit)).filter(seen_at(time)).len() == 0,
        time < limit ==> records.filter(seen_before(limit)).filter(seen_at(time))
            == records.filter(seen_at(time)),
        time >= limit ==> records.filter(seen_before(limit)).filter(seen_at(time)).len() == 0,
    decreases records.len(),
{
    reveal(Seq::filter);
    if records.len() > 0 {
        let init = records.drop_last();
        let last = records.last();
        lemma_filter_at(init, limit, time);
        if last.last_seen >= limit {
            assert(records.filter(seen_since(limit)).drop_last() =~= init.filter(
                seen_since(limit),
            ));
        } else {
            assert(records.filter(seen_before(limit)).drop_last() =~= init.filter(
                seen_before(limit),
            ));
        }
    }
}

/// A filter of a sequence that ends with a record keeps it or drops it.
proof fn lemma_filter_last(
    records: Seq<ErrorRecordView>,
    record: ErrorRecordView,
    pred: spec_fn(ErrorRecordView) -> bool,
)
    ensures
        records.push(record).filter(pred) == if pred(record) {
            records.filter(pred).push(record)
        } else {
            records.filter(pred)
        },
{
    reveal(Seq::filter);
    assert(records.push(record).drop_last() =~= records);
}

/// Sorting keeps the order of the records of one time.
proof fn lemma_ties_are_kept(records: Seq<ErrorRecordView>, time: u64)
    ensures
        by_last_seen(records).filter(seen_at(time)) == records.filter(seen_at(time)),
    decreases records.len(),
{
    if records.len() > 0 {
        let init = records.drop_last();
        let sorted = by_last_seen(init);
        let last = records.last();
        let since = sorted.filter(seen_since(last.last_seen));
        let before = sorted.filter(seen_before(last.last_seen));
        lemma_ties_are_kept(init, time);
        lemma_filter_at(sorted, last.last_seen, time);
        lemma_filter_last(init, last, seen_at(time));
        lemma_filter_last(since, last, seen_at(time));
        Seq::filter_distributes_over_add(since.push(last), before, seen_at(time));
        assert(records =~= init.push(last));
        assert(placed(sorted, last) =~= since.push(last) + before);
        let earlier = since.push(last).filter(seen_at(time));
        let later = before.filter(seen_at(time));
        if time >= last.last_seen {
            assert(earlier + later =~= earlier);
        } else {
            assert(earlier + later =~= later);
        }
    }
}

/// Of the records that were last seen at one time, a query gives the one written last first.
pub proof fn law_query_keeps_written_order_of_ties(rows: Rows, time: u64)
    ensures
        queried(rows).filter(|record: ErrorRecordView| record.last_seen == time) == newest_first(
            rows,
        ).filter(|record: ErrorRecordView| record.last_seen == time),
{
    lemma_ties_are_kept(newest_first(rows), time);
    assert(seen_at(time) =~= |record: ErrorRecordView| record.last_seen == time);
}

/// A query is sorted by last seen, descending, whatever the order in which the rows were written.
pub proof fn law_query_is_latest_first(rows: Rows)
    ensures
        forall|i: int, j: int|
            0 <= i < j < queried(rows).len() ==> queried(rows)[i].last_seen >= queried(
                rows,
            )[j].last_seen,
{
    lemma_sorted(newest_first(rows));
}

/// A record that is written when no other was last seen later is the first that a query gives; the
/// others follow as before.
pub proof fn law_last_written_is_first(rows: Rows, key: Seq<char>, record: ErrorRecordView)
    requires
        none_after(newest_first(rows), record.last_seen),
    ensures
        queried(written(rows, key, Some(record))) == seq![record] + queried(without(rows, key)),
{
    lemma_last_written(rows, key, record);
    lemma_without_after(rows, key, record.last_seen);
    lemma_latest_is_first(record, newest_first(without(rows, key)));
}

/// Taking the row of a key out adds no record that was last seen later.
proof fn lemma_without_after(rows: Rows, key: Seq<char>, now: u64)
    requires
        none_after(newest_first(rows), now),
    ensures
        none_after(newest_first(without(rows, key)), now),
    decreases rows.len(),
{
    reveal(Seq::filter);
    if rows.len() > 0 {
        let init = rows.drop_last();
        let records = newest_first(rows);
        if rows.last().1 is Some {
            assert forall|i: int| 0 <= i < newest_first(init).len() implies (
            #[trigger] newest_first(init)[i]).last_seen <= now by {
                assert(newest_first(init)[i] == records[i + 1]);
            }
            assert(records[0].last_seen <= now);
        }
        lemma_without_after(init, key, now);
        if rows.last().0 != key {
            assert(without(rows, key).drop_last() == without(init, key));
        }
    }
}

/// Writing a record that was seen last keeps the order of the records, whether it can be read or
/// not.
proof fn lemma_written_order(rows: Rows, key: Seq<char>, record: ErrorRecordView)
    requires
        latest_first(newest_first(rows)),
        none_after(newest_first(rows), record.last_seen),
    ensures
        latest_first(newest_first(written(rows, key, record_read(record)))),
        none_after(newest_first(written(rows, key, record_read(record))), record.last_seen),
{
    lemma_without_order(rows, key, record.last_seen);
    match record_read(record) {
        Some(read) => lemma_last_written(rows, key, read),
        None => assert(written(rows, key, None).drop_last() == without(rows, key)),
    }
}

/// As long as the clock does not run backwards, a query gives the records in the order in which
/// they were written, the last first: this stays so when an error is recorded.
pub proof fn law_query_in_written_order(
    rows: Rows,
    message: Seq<char>,
    source: Seq<char>,
    file: Option<Seq<char>>,
    line: Option<u32>,
    column: Option<u32>,
    now: u64,
)
    requires
        latest_first(newest_first(rows)),
        none_after(newest_first(rows), now),
    ensures
        ({
            let after = recorded(rows, message, source, file, line, column, now);
            &&& queried(after) == newest_first(after)
            &&& latest_first(newest_first(after))
            &&& none_after(newest_first(after), now)
        }),
{
    let key = error_key(message, source, file, line);
    let fresh = first_record(message, source, file, line, column, now);
    lemma_written_order(rows, key, merged(stored(rows, key), fresh));
    lemma_sorted_is_kept(newest_first(recorded(rows, message, source, file, line, column, now)));
}

/// As long as the clock does not run backwards, a query gives the records in the order in which
/// they were written, the last first: this stays so when a tool error is recorded.
pub proof fn law_query_in_written_order_after_tool_error(
    rows: Rows,
    message: Seq<char>,
    tool: Seq<char>,
    tool_input: Option<JsonView>,
    tool_output: Option<JsonView>,
    now: u64,
)
    requires
        latest_first(newest_first(rows)),
        none_after(newest_first(rows), now),
    ensures
        ({
            let after = tool_recorded(rows, message, tool, tool_input, tool_output, now);
            &&& queried(after) == newest_first(after)
            &&& latest_first(newest_first(after))
            &&& none_after(newest_first(after), now)
        }),
{
    let key = tool_key(tool, message);
    let fresh = first_tool_record(message, tool, tool_input, tool_output, now);
    lemma_written_order(rows, key, merged_tool(stored(rows, key), fresh));
    lemma_sorted_is_kept(
        newest_first(tool_recorded(rows, message, tool, tool_input, tool_output, now)),
    );
}

/// An error that is recorded a second time is the same record, counted once more and last seen
/// then, whatever its column; a query gives it in place of the record of before, and every other
/// record unchanged. The record of an error holds no tool values.
pub proof fn law_repeated_error_is_counted(
    rows: Rows,
    message: Seq<char>,
    source: Seq<char>,
    file: Option<Seq<char>>,
    line: Option<u32>,
    first_column: Option<u32>,
    second_column: Option<u32>,
    first: u64,
    second: u64,
)
    requires
        without_tool_values(stored(rows, error_key(message, source, file, line))),
    ensures
        ({
            let key = error_key(message, source, file, line);
            let once = recorded(rows, message, source, file, line, first_column, first);
            let twice = recorded(once, message, source, file, line, second_column, second);
            &&& stored(once, key) matches Some(record)
            &&& stored(twice, key) == Some(seen_again(record, second))
            &&& queried(once).to_multiset().contains(record)
            &&& queried(twice).to_multiset() == queried(once).to_multiset().remove(record).insert(
                seen_again(record, second),
            )
        }),
{
    let key = error_key(message, source, file, line);
    let fresh = first_record(message, source, file, line, first_column, first);
    let record = merged(stored(rows, key), fresh);
    assert(record_read(record) == Some(record));
    assert(record_read(seen_again(record, second)) == Some(seen_again(record, second)));
    lemma_rewritten(rows, key, Some(record));
    lemma_replaced(rows, key, record, seen_again(record, second));
}

/// A tool error that is recorded a second time, with a message whose first 200 characters are the
/// same, is the same record, counted once more and last seen then, with the input and the output of
/// the second time where it has them; a query gives it in place of the record of before, and every
/// other record unchanged. Both records can be read, and the second is what its text is read as:
/// the record itself, where its input and output are plain and not null.
pub proof fn law_repeated_tool_error_is_counted(
    rows: Rows,
    message: Seq<char>,
    second_message: Seq<char>,
    tool: Seq<char>,
    first_input: Option<JsonView>,
    first_output: Option<JsonView>,
    second_input: Option<JsonView>,
    second_output: Option<JsonView>,
    first: u64,
    second: u64,
)
    requires
        message_prefix(second_message) == message_prefix(message),
        stored(
            tool_recorded(rows, message, tool, first_input, first_output, first),
            tool_key(tool, message),
        ) is Some,
        stored(
            tool_recorded(
                tool_recorded(rows, message, tool, first_input, first_output, first),
                second_message,
                tool,
                second_input,
                second_output,
                second,
            ),
            tool_key(tool, message),
        ) is Some,
    ensures
        ({
            let key = tool_key(tool, message);
            let once = tool_recorded(rows, message, tool, first_input, first_output, first);
            let twice = tool_recorded(
                once,
                second_message,
                tool,
                second_input,
                second_output,
                second,
            );
            &&& stored(once, key) matches Some(record)
            &&& stored(twice, key) matches Some(again)
            &&& Some(again) == record_read(
                ErrorRecordView {
                    tool_input: latest(record.tool_input, second_input),
                    tool_output: latest(record.tool_output, second_output),
                    ..seen_again(record, second)
                },
            )
            &&& queried(once).to_multiset().contains(record)
            &&& queried(twice).to_multiset() == queried(once).to_multiset().remove(record).insert(
                again,
            )
        }),
{
    let key = tool_key(tool, message);
    let once = tool_recorded(rows, message, tool, first_input, first_output, first);
    let first_read = record_read(
        merged_tool(
            stored(rows, key),
            first_tool_record(message, tool, first_input, first_output, first),
        ),
    );
    lemma_rewritten(rows, key, first_read);
    let again = record_read(
        merged_tool(
            first_read,
            first_tool_record(second_message, tool, second_input, second_output, second),
        ),
    );
    lemma_rewritten(once, key, again);
    lemma_replaced(rows, key, first_read->0, again->0);
}

/// What a query gives of a tool error is what was recorded: a plain input or output that is not
/// null, and none where there was none.
pub proof fn law_plain_tool_values_are_kept(record: ErrorRecordView)
    requires
        record.tool_input matches Some(v) ==> v.is_plain((MAX_DEPTH - 1) as nat) && v
            != JsonView::Null,
        record.tool_output matches Some(v) ==> v.is_plain((MAX_DEPTH - 1) as nat) && v
            != JsonView::Null,
    ensures
        record_read(record) == Some(record),
{
}

/// The records under the keys of errors hold no tool values.
pub open spec fn errors_without_tool_values(rows: Rows) -> bool {
    forall|i: int|
        0 <= i < rows.len() && (#[trigger] rows[i]).0.len() == 16 ==> without_tool_values(rows[i].1)
}

/// The keys of errors are sixteen hexadecimal digits.
pub proof fn law_error_keys(
    message: Seq<char>,
    source: Seq<char>,
    file: Option<Seq<char>>,
    line: Option<u32>,
)
    ensures
        error_key(message, source, file, line).len() == 16,
        forall|i: int|
            0 <= i < 16 ==> "0123456789abcdef"@.contains(
                #[trigger] error_key(message, source, file, line)[i],
            ),
{
    lemma_hex(fingerprint(message, source, file, line) as nat, 16);
}

/// The keys of tool errors are `tool:` and sixteen hexadecimal digits.
pub proof fn law_tool_error_keys(tool: Seq<char>, message: Seq<char>)
    ensures
        tool_key(tool, message).len() == 21,
        tool_key(tool, message).take(5) == "tool:"@,
        forall|i: int|
            5 <= i < 21 ==> "0123456789abcdef"@.contains(#[trigger] tool_key(tool, message)[i]),
{
    let n = DefaultHasher::spec_finish(
        str_hash_writes(tool) + str_hash_writes(message_prefix(message)),
    ) as nat;
    lemma_hex(n, 16);
    reveal_strlit("tool:");
    assert(tool_key(tool, message).take(5) =~= "tool:"@);
    assert forall|i: int| 5 <= i < 21 implies "0123456789abcdef"@.contains(
        #[trigger] tool_key(tool, message)[i],
    ) by {
        assert(tool_key(tool, message)[i] == hex(n, 16)[i - 5]);
    }
}

/// An error and a tool error never have the same key.
pub proof fn law_keys_never_coincide(
    message: Seq<char>,
    source: Seq<char>,
    file: Option<Seq<char>>,
    line: Option<u32>,
    tool: Seq<char>,
    tool_message: Seq<char>,
)
    ensures
        error_key(message, source, file, line) != tool_key(tool, tool_message),
{
    law_error_keys(message, source, file, line);
    law_tool_error_keys(tool, tool_message);
}

/// Recording an error keeps tool values out of the records of errors.
pub proof fn law_errors_stay_without_tool_values(
    rows: Rows,
    message: Seq<char>,
    source: Seq<char>,
    file: Option<Seq<char>>,
    line: Option<u32>,
    column: Option<u32>,
    now: u64,
)
    requires
        errors_without_tool_values(rows),
    ensures
        errors_without_tool_values(recorded(rows, message, source, file, line, column, now)),
        without_tool_values(stored(rows, error_key(message, source, file, line))),
{
    let key = error_key(message, source, file, line);
    let fresh = first_record(message, source, file, line, column, now);
    law_error_keys(message, source, file, line);
    lemma_stored_without_tool_values(rows, key);
    lemma_others_without_tool_values(rows, key, record_read(merged(stored(rows, key), fresh)));
}

/// Recording a tool error keeps tool values out of the records of errors.
pub proof fn law_errors_stay_without_tool_values_after_tool_error(
    rows: Rows,
    message: Seq<char>,
    tool: Seq<char>,
    tool_input: Option<JsonView>,
    tool_output: Option<JsonView>,
    now: u64,
)
    requires
        errors_without_tool_values(rows),
    ensures
        errors_without_tool_values(
            tool_recorded(rows, message, tool, tool_input, tool_output, now),
        ),
{
    let key = tool_key(tool, message);
    let fresh = first_tool_record(message, tool, tool_input, tool_output, now);
    law_tool_error_keys(tool, message);
    lemma_others_without_tool_values(rows, key, record_read(merged_tool(stored(rows, key), fresh)));
}

/// What is stored under the key of an error holds no tool values.
proof fn lemma_stored_without_tool_values(rows: Rows, key: Seq<char>)
    requires
        errors_without_tool_values(rows),
        key.len() == 16,
    ensures
        without_tool_values(stored(rows, key)),
    decreases rows.len(),
{
    if rows.len() > 0 {
        let init = rows.drop_last();
        assert(rows[rows.len() - 1] == rows.last());
        assert forall|i: int| 0 <= i < init.len() && (
        #[trigger] init[i]).0.len() == 16 implies without_tool_values(init[i].1) by {
            assert(init[i] == rows[i]);
        }
        lemma_stored_without_tool_values(init, key);
    }
}

/// Writing a row under another key, or one without tool values, keeps them out of the records of
/// errors.
proof fn lemma_others_without_tool_values(
    rows: Rows,
    key: Seq<char>,
    record: Option<ErrorRecordView>,
)
    requires
        errors_without_tool_values(rows),
        key.len() == 16 ==> without_tool_values(record),
    ensures
        errors_without_tool_values(written(rows, key, record)),
    decreases rows.len(),
{
    reveal(Seq::filter);
    if rows.len() > 0 {
        let init = rows.drop_last();
        let rest = without(init, key);
        assert(rows[rows.len() - 1] == rows.last());
        assert forall|i: int| 0 <= i < init.len() && (
        #[trigger] init[i]).0.len() == 16 implies without_tool_values(init[i].1) by {
            assert(init[i] == rows[i]);
        }
        lemma_others_without_tool_values(init, key, record);
        let after = written(rows, key, record);
        let before = written(init, key, record);
        assert forall|i: int| 0 <= i < after.len() && (
        #[trigger] after[i]).0.len() == 16 implies without_tool_values(after[i].1) by {
            if i < rest.len() {
                assert(after[i] == before[i]);
            }
        }
    }
}

/// A record that is written under the key of another takes its place in what a query gives.
proof fn lemma_replaced(
    rows: Rows,
    key: Seq<char>,
    record: ErrorRecordView,
    again: ErrorRecordView,
)
    ensures
        ({
            let once = written(rows, key, Some(record));
            let twice = written(once, key, Some(again));
            &&& stored(twice, key) == Some(again)
            &&& queried(once).to_multiset().contains(record)
            &&& queried(twice).to_multiset() == queried(once).to_multiset().remove(record).insert(
                again,
            )
        }),
{
    broadcast use group_to_multiset_ensures;

    let once = written(rows, key, Some(record));
    let twice = written(once, key, Some(again));
    let rest = newest_first(without(rows, key));
    lemma_rewritten(rows, key, Some(record));
    lemma_rewritten(once, key, Some(again));
    lemma_last_written(rows, key, record);
    lemma_last_written(once, key, again);
    law_query_gives_every_record(once);
    law_query_gives_every_record(twice);
    lemma_multiset_commutative(seq![record], rest);
    lemma_multiset_commutative(seq![again], rest);
    assert(seq![record] =~= Seq::<ErrorRecordView>::empty().push(record));
    assert(seq![again] =~= Seq::<ErrorRecordView>::empty().push(again));
    assert(newest_first(once).to_multiset() =~= rest.to_multiset().insert(record));
    assert(newest_first(twice).to_multiset() =~= rest.to_multiset().insert(again));
    assert(rest.to_multiset().insert(record).remove(record) =~= rest.to_multiset());
}

/// After a row is written, its record is stored under the key, and the rows of the other keys are
/// those of before.
proof fn lemma_rewritten(rows: Rows, key: Seq<char>, record: Option<ErrorRecordView>)
    ensures
        stored(written(rows, key, record), key) == record,
        without(written(rows, key, record), key) == without(rows, key),
{
    reveal(Seq::filter);
    let after = written(rows, key, record);
    assert(after.drop_last() == without(rows, key));
    lemma_without_key(rows, key);
    lemma_without_absent(without(rows, key), key);
}

/// How often an optional record was counted.
pub open spec fn times(record: Option<ErrorRecordView>) -> nat {
    match record {
        Some(r) => r.count as nat,
        None => 0,
    }
}

/// How many observations the rows count together.
pub open spec fn observations(rows: Rows) -> nat
    decreases rows.len(),
{
    if rows.len() == 0 {
        0
    } else {
        observations(rows.drop_last()) + times(rows.last().1)
    }
}

/// The rows of the other keys count what the row of the key does not.
proof fn lemma_observations_without(rows: Rows, key: Seq<char>)
    requires
        keys_distinct(rows),
    ensures
        observations(rows) == observations(without(rows, key)) + times(stored(rows, key)),
    decreases rows.len(),
{
    reveal(Seq::filter);
    if rows.len() > 0 {
        let init = rows.drop_last();
        if rows.last().0 == key {
            lemma_without_absent(init, key);
        } else {
            lemma_observations_without(init, key);
            assert(without(rows, key).drop_last() == without(init, key));
        }
    }
}

/// Every observation of an error is counted, and once: recording one raises the number of
/// observations that the rows count together by one.
pub proof fn law_every_error_is_counted_once(
    rows: Rows,
    message: Seq<char>,
    source: Seq<char>,
    file: Option<Seq<char>>,
    line: Option<u32>,
    column: Option<u32>,
    now: u64,
)
    requires
        keys_distinct(rows),
        can_count(rows, error_key(message, source, file, line)),
        without_tool_values(stored(rows, error_key(message, source, file, line))),
    ensures
        observations(recorded(rows, message, source, file, line, column, now)) == observations(rows)
            + 1,
{
    let key = error_key(message, source, file, line);
    lemma_observations_without(rows, key);
    assert(recorded(rows, message, source, file, line, column, now).drop_last() == without(
        rows,
        key,
    ));
}

/// Every observation of a tool error whose record can be read is counted, and once: recording one
/// raises the number of observations that the rows count together by one.
pub proof fn law_every_tool_error_is_counted_once(
    rows: Rows,
    message: Seq<char>,
    tool: Seq<char>,
    tool_input: Option<JsonView>,
    tool_output: Option<JsonView>,
    now: u64,
)
    requires
        keys_distinct(rows),
        can_count(rows, tool_key(tool, message)),
        stored(
            tool_recorded(rows, message, tool, tool_input, tool_output, now),
            tool_key(tool, message),
        ) is Some,
    ensures
        observations(tool_recorded(rows, message, tool, tool_input, tool_output, now))
            == observations(rows) + 1,
{
    let key = tool_key(tool, message);
    lemma_observations_without(rows, key);
    lemma_rewritten(
        rows,
        key,
        record_read(
            merged_tool(
                stored(rows, key),
                first_tool_record(message, tool, tool_input, tool_output, now),
            ),
        ),
    );
    assert(tool_recorded(rows, message, tool, tool_input, tool_output, now).drop_last() == without(
        rows,
        key,
    ));
}

/// Recording an error leaves what is stored under every other key.
pub proof fn law_other_errors_are_kept(
    rows: Rows,
    key: Seq<char>,
    record: Option<ErrorRecordView>,
    other: Seq<char>,
)
    requires
        other != key,
    ensures
        stored(written(rows, key, record), other) == stored(rows, other),
        stored(written(rows, key, record), key) == record,
{
    assert(written(rows, key, record).drop_last() == without(rows, key));
    lemma_stored_without(rows, key, other);
}

/// Taking the row of a key out leaves what is stored under another.
proof fn lemma_stored_without(rows: Rows, key: Seq<char>, other: Seq<char>)
    requires
        other != key,
    ensures
        stored(without(rows, key), other) == stored(rows, other),
    decreases rows.len(),
{
    reveal(Seq::filter);
    if rows.len() > 0 {
        let init = rows.drop_last();
        lemma_stored_without(init, key, other);
        if rows.last().0 != key {
            assert(without(rows, key).drop_last() == without(init, key));
        }
    }
}

/// A record is held field by field.
pub proof fn law_record_view(record: ErrorRecord)
    ensures
        record@.message == record.message@,
        record@.source == record.source@,
        record.file matches Some(file) ==> record@.file == Some(file@),
        record.file is None ==> record@.file is None,
        record@.line == record.line,
        record@.column == record.column,
        record@.first_seen == record.first_seen,
        record@.last_seen == record.last_seen,
        record@.count == record.count,
        record.tool matches Some(tool) ==> record@.tool == Some(tool@),
        record.tool is None ==> record@.tool is None,
        record.tool_input matches Some(value) ==> record@.tool_input == Some(value@),
        record.tool_input is None ==> record@.tool_input is None,
        record.tool_output matches Some(value) ==> record@.tool_output == Some(value@),
        record.tool_output is None ==> record@.tool_output is None,
{
}

/// Rows and records are held one by one.
pub proof fn law_row_views(
    key: String,
    record: ErrorRecord,
    rows: Seq<Row>,
    records: Seq<ErrorRecord>,
    i: int,
)
    requires
        0 <= i < rows.len(),
        i < records.len(),
    ensures
        (Row { key, record: Some(record) })@ == (key@, Some(record@)),
        (Row { key, record: None })@ == (key@, None::<ErrorRecordView>),
        optional_record(Some(record)) == Some(record@),
        optional_record(None) is None,
        rows_view(rows).len() == rows.len(),
        rows_view(rows)[i] == rows[i]@,
        records_view(records).len() == records.len(),
        records_view(records)[i] == records[i]@,
{
}

/// A record that is seen for the first time is what was observed, counted once and seen at the one
/// time.
pub proof fn law_first_observation(
    message: Seq<char>,
    source: Seq<char>,
    file: Option<Seq<char>>,
    line: Option<u32>,
    column: Option<u32>,
    now: u64,
)
    ensures
        ({
            let record = first_record(message, source, file, line, column, now);
            &&& record.message == message
            &&& record.source == source
            &&& record.file == file
            &&& record.line == line
            &&& record.column == column
            &&& record.first_seen == now
            &&& record.last_seen == now
            &&& record.count == 1
            &&& record.tool is None
            &&& record.tool_input is None
            &&& record.tool_output is None
        }),
{
}

/// A tool error that is seen for the first time is what was observed, without a place.
pub proof fn law_first_observation_of_tool(
    message: Seq<char>,
    tool: Seq<char>,
    tool_input: Option<JsonView>,
    tool_output: Option<JsonView>,
    now: u64,
)
    ensures
        ({
            let record = first_tool_record(message, tool, tool_input, tool_output, now);
            &&& record.message == message
            &&& record.source == "tool_error"@
            &&& record.file is None
            &&& record.line is None
            &&& record.column is None
            &&& record.first_seen == now
            &&& record.last_seen == now
            &&& record.count == 1
            &&& record.tool == Some(tool)
            &&& record.tool_input == tool_input
            &&& record.tool_output == tool_output
        }),
{
}

/// A repeat is counted and last seen at its time, and changes nothing else of what was seen first;
/// the repeat of a tool error brings its input and its output, each where it has one.
pub proof fn law_repeat_keeps_first_observation(record: ErrorRecordView, fresh: ErrorRecordView)
    requires
        record.count < u64::MAX,
    ensures
        ({
            let again = merged(Some(record), fresh);
            &&& again.message == record.message
            &&& again.source == record.source
            &&& again.file == record.file
            &&& again.line == record.line
            &&& again.column == record.column
            &&& again.first_seen == record.first_seen
            &&& again.last_seen == fresh.last_seen
            &&& again.count == record.count + 1
            &&& again.tool == record.tool
            &&& again.tool_input == record.tool_input
            &&& again.tool_output == record.tool_output
        }),
        ({
            let again = merged_tool(Some(record), fresh);
            &&& again.message == record.message
            &&& again.source == record.source
            &&& again.file == record.file
            &&& again.line == record.line
            &&& again.column == record.column
            &&& again.first_seen == record.first_seen
            &&& again.last_seen == fresh.last_seen
            &&& again.count == record.count + 1
            &&& again.tool == record.tool
            &&& fresh.tool_input is Some ==> again.tool_input == fresh.tool_input
            &&& fresh.tool_input is None ==> again.tool_input == record.tool_input
            &&& fresh.tool_output is Some ==> again.tool_output == fresh.tool_output
            &&& fresh.tool_output is None ==> again.tool_output == record.tool_output
        }),
        merged(None, fresh) == fresh,
        merged_tool(None, fresh) == fresh,
{
}

/// What is stored under a key is the record of the last row that has it.
pub proof fn law_stored(rows: Rows, at: int, absent: Seq<char>)
    requires
        0 <= at < rows.len(),
        forall|i: int| at < i < rows.len() ==> (#[trigger] rows[i]).0 != rows[at].0,
        forall|i: int| 0 <= i < rows.len() ==> (#[trigger] rows[i]).0 != absent,
    ensures
        stored(rows, rows[at].0) == rows[at].1,
        stored(rows, absent) is None,
    decreases rows.len(),
{
    lemma_without_absent(rows, absent);
    if at < rows.len() - 1 {
        let init = rows.drop_last();
        assert(rows[rows.len() - 1] == rows.last());
        assert forall|i: int| at < i < init.len() implies (#[trigger] init[i]).0 != init[at].0 by {
            assert(init[i] == rows[i]);
        }
        assert forall|i: int| 0 <= i < init.len() implies (#[trigger] init[i]).0 != absent by {
            assert(init[i] == rows[i]);
        }
        law_stored(init, at, absent);
        assert(init[at] == rows[at]);
    }
}

/// A record can be counted once more as long as its count is not the greatest number; where no
/// record is, one can be counted.
pub proof fn law_can_count(rows: Rows, key: Seq<char>)
    ensures
        stored(rows, key) is None ==> can_count(rows, key),
        stored(rows, key) matches Some(record) ==> (can_count(rows, key) <==> record.count
            != u64::MAX),
{
}

/// A row that is written stands last; the other rows stay as they are, and the one of its key, if
/// there was one, is gone.
pub proof fn law_written_rows(rows: Rows, key: Seq<char>, record: Option<ErrorRecordView>)
    requires
        forall|i: int, j: int| 0 <= i < j < rows.len() ==> rows[i].0 != rows[j].0,
    ensures
        written(rows, key, record).last() == (key, record),
        forall|at: int|
            0 <= at < rows.len() && (#[trigger] rows[at]).0 == key ==> written(
                rows,
                key,
                record,
            ).drop_last() == rows.remove(at),
        (forall|at: int| 0 <= at < rows.len() ==> (#[trigger] rows[at]).0 != key) ==> written(
            rows,
            key,
            record,
        ).drop_last() == rows,
{
    assert(written(rows, key, record).drop_last() =~= without(rows, key));
    assert forall|at: int| 0 <= at < rows.len() && (#[trigger] rows[at]).0 == key implies written(
        rows,
        key,
        record,
    ).drop_last() == rows.remove(at) by {
        lemma_without(rows, at);
    }
    if forall|at: int| 0 <= at < rows.len() ==> (#[trigger] rows[at]).0 != key {
        lemma_without_absent(rows, key);
    }
}

/// The collector of rows holds, under each key, the record of the last of them that has it; rows
/// with distinct keys are held as they are.
pub proof fn law_rows_are_loaded(rows: Rows, key: Seq<char>)
    ensures
        stored(all_written(Rows::empty(), rows), key) == stored(rows, key),
        (forall|i: int, j: int| 0 <= i < j < rows.len() ==> rows[i].0 != rows[j].0) ==> all_written(
            Rows::empty(),
            rows,
        ) == rows,
    decreases rows.len(),
{
    if rows.len() > 0 {
        let init = rows.drop_last();
        let before = all_written(Rows::empty(), init);
        law_rows_are_loaded(init, key);
        if rows.last().0 == key {
            lemma_rewritten(before, key, rows.last().1);
        } else {
            assert(written(before, rows.last().0, rows.last().1).drop_last() =~= without(
                before,
                rows.last().0,
            ));
            lemma_stored_without(before, rows.last().0, key);
        }
        if forall|i: int, j: int| 0 <= i < j < rows.len() ==> rows[i].0 != rows[j].0 {
            assert forall|i: int, j: int| 0 <= i < j < init.len() implies init[i].0 != init[j].0 by {
                assert(init[i] == rows[i] && init[j] == rows[j]);
            }
            assert forall|i: int| 0 <= i < init.len() implies (#[trigger] init[i]).0
                != rows.last().0 by {
                assert(init[i] == rows[i]);
                assert(rows[i].0 != rows[rows.len() - 1].0);
            }
            lemma_without_absent(init, rows.last().0);
            assert(init.push(rows.last()) =~= rows);
        }
    }
}

/// Whether a row has a record.
pub open spec fn has_record() -> spec_fn((Seq<char>, Option<ErrorRecordView>)) -> bool {
    |row: (Seq<char>, Option<ErrorRecordView>)| row.1 is Some
}

/// The record of a row that has one.
pub open spec fn record_of() -> spec_fn((Seq<char>, Option<ErrorRecordView>)) -> ErrorRecordView {
    |row: (Seq<char>, Option<ErrorRecordView>)| row.1->0
}

/// The records, the one written last first, are those of the rows, in the reverse of their order.
pub proof fn law_newest_first(rows: Rows)
    ensures
        newest_first(rows) == rows.filter(
            |row: (Seq<char>, Option<ErrorRecordView>)| row.1 is Some,
        ).map_values(|row: (Seq<char>, Option<ErrorRecordView>)| row.1->0).reverse(),
{
    lemma_newest_first(rows);
    assert(has_record() =~= |row: (Seq<char>, Option<ErrorRecordView>)| row.1 is Some);
    assert(record_of() =~= |row: (Seq<char>, Option<ErrorRecordView>)| row.1->0);
}

/// The records, the one written last first, are those of the rows, in the reverse of their order.
proof fn lemma_newest_first(rows: Rows)
    ensures
        newest_first(rows) == rows.filter(has_record()).map_values(record_of()).reverse(),
    decreases rows.len(),
{
    reveal(Seq::filter);
    if rows.len() > 0 {
        let init = rows.drop_last();
        lemma_newest_first(init);
        let before = init.filter(has_record());
        if rows.last().1 is Some {
            assert(before.push(rows.last()).map_values(record_of()).reverse() =~= seq![
                rows.last().1->0,
            ] + before.map_values(record_of()).reverse());
        }
    } else {
        assert(rows.filter(has_record()).map_values(record_of()).reverse() =~= Seq::empty());
    }
}

/// Whether a row has a certain record.
pub open spec fn has_the_record(record: ErrorRecordView) -> spec_fn(
    (Seq<char>, Option<ErrorRecordView>),
) -> bool {
    |row: (Seq<char>, Option<ErrorRecordView>)| row.1 == Some(record)
}

/// A query gives each record as often as a row has it.
pub proof fn law_query_counts_rows(rows: Rows, record: ErrorRecordView)
    ensures
        queried(rows).to_multiset().count(record) == rows.filter(
            |row: (Seq<char>, Option<ErrorRecordView>)| row.1 == Some(record),
        ).len(),
{
    law_query_gives_every_record(rows);
    lemma_newest_first_counts(rows, record);
    assert(has_the_record(record) =~= |row: (Seq<char>, Option<ErrorRecordView>)|
        row.1 == Some(record));
}

/// The records, the one written last first, hold each record as often as a row has it.
proof fn lemma_newest_first_counts(rows: Rows, record: ErrorRecordView)
    ensures
        newest_first(rows).to_multiset().count(record) == rows.filter(has_the_record(record)).len(),
    decreases rows.len(),
{
    broadcast use group_to_multiset_ensures;

    reveal(Seq::filter);
    if rows.len() > 0 {
        let init = rows.drop_last();
        lemma_newest_first_counts(init, record);
        if rows.last().1 is Some {
            let first = rows.last().1->0;
            let rest = newest_first(init);
            lemma_multiset_commutative(seq![first], rest);
            assert(seq![first] =~= Seq::<ErrorRecordView>::empty().push(first));
            assert(newest_first(rows).to_multiset() =~= rest.to_multiset().insert(first));
        }
    }
}

/// Two errors have one key only if the hasher ends alike on what the source, the file, the line and
/// the message of each write to it, in this order.
pub proof fn law_keys_tell_errors_apart(
    message: Seq<char>,
    source: Seq<char>,
    file: Option<Seq<char>>,
    line: Option<u32>,
    other_message: Seq<char>,
    other_source: Seq<char>,
    other_file: Option<Seq<char>>,
    other_line: Option<u32>,
)
    ensures
        error_key(message, source, file, line) == error_key(
            other_message,
            other_source,
            other_file,
            other_line,
        ) <==> DefaultHasher::spec_finish(
            str_hash_writes(source) + optional_str_hash_writes(file) + optional_u32_hash_writes(
                line,
            ) + str_hash_writes(message),
        ) == DefaultHasher::spec_finish(
            str_hash_writes(other_source) + optional_str_hash_writes(other_file)
                + optional_u32_hash_writes(other_line) + str_hash_writes(other_message),
        ),
{
    let a = fingerprint(message, source, file, line);
    let b = fingerprint(other_message, other_source, other_file, other_line);
    lemma_hex_of_u64(a, b);
}

/// Two numbers are written alike in sixteen hexadecimal digits exactly if they are equal.
proof fn lemma_hex_of_u64(a: u64, b: u64)
    ensures
        hex(a as nat, 16) == hex(b as nat, 16) <==> a == b,
{
    reveal_with_fuel(sixteen_to, 17);
    assert(sixteen_to(16) == 0x1_0000_0000_0000_0000);
    if hex(a as nat, 16) == hex(b as nat, 16) {
        law_hex_differs(a as nat, b as nat, 16);
    }
}

/// Two tool errors have one key only if the hasher ends alike on what the tool and the first part
/// of the message of each write to it: all of a message of at most 200 characters, or else its
/// first 200.
pub proof fn law_keys_tell_tool_errors_apart(
    tool: Seq<char>,
    start: Seq<char>,
    rest: Seq<char>,
    other_tool: Seq<char>,
    other_start: Seq<char>,
    other_rest: Seq<char>,
)
    requires
        start.len() == 200 || start.len() < 200 && rest.len() == 0,
        other_start.len() == 200 || other_start.len() < 200 && other_rest.len() == 0,
    ensures
        tool_key(tool, start + rest) == tool_key(other_tool, other_start + other_rest) <==>
            DefaultHasher::spec_finish(str_hash_writes(tool) + str_hash_writes(start))
            == DefaultHasher::spec_finish(
            str_hash_writes(other_tool) + str_hash_writes(other_start),
        ),
{
    assert(message_prefix(start + rest) =~= start);
    assert(message_prefix(other_start + other_rest) =~= other_start);
    let a = DefaultHasher::spec_finish(str_hash_writes(tool) + str_hash_writes(start));
    let b = DefaultHasher::spec_finish(
        str_hash_writes(other_tool) + str_hash_writes(other_start),
    );
    lemma_hex_of_u64(a, b);
    if tool_key(tool, start + rest) == tool_key(other_tool, other_start + other_rest) {
        let digits = hex(a as nat, 16);
        let other_digits = hex(b as nat, 16);
        lemma_hex(a as nat, 16);
        lemma_hex(b as nat, 16);
        let skip = "tool:"@.len() as int;
        assert(("tool:"@ + digits).subrange(skip, skip + 16) =~= digits);
        assert(("tool:"@ + other_digits).subrange(skip, skip + 16) =~= other_digits);
    }
}

/// Once it was written, null is read as nothing, and a value that is not plain as what its text
/// inside an object is read as; where that cannot be read, neither can the record.
pub proof fn law_tool_values_are_read(record: ErrorRecordView, value: JsonView, read: JsonView)
    ensures
        record.tool_input == Some(JsonView::Null) && record.tool_output is None ==> record_read(
            record,
        ) == Some(ErrorRecordView { tool_input: None, ..record }),
        record.tool_output == Some(JsonView::Null) && record.tool_input is None ==> record_read(
            record,
        ) == Some(ErrorRecordView { tool_output: None, ..record }),
        !value.is_plain(126) && json_parse(
            json_text(JsonView::Object(seq![("value"@, value)])),
        ) is None && (record.tool_input == Some(value) || record.tool_output == Some(value))
            ==> record_read(record) is None,
        !value.is_plain(126) && json_parse(json_text(JsonView::Object(seq![("value"@, value)])))
            == Some(JsonView::Object(seq![("value"@, read)])) && read != JsonView::Null
            && record.tool_input == Some(value) && record.tool_output is None ==> record_read(record)
            == Some(ErrorRecordView { tool_input: Some(read), ..record }),
        !value.is_plain(126) && json_parse(json_text(JsonView::Object(seq![("value"@, value)])))
            == Some(JsonView::Object(seq![("value"@, read)])) && read != JsonView::Null
            && record.tool_output == Some(value) && record.tool_input is None ==> record_read(record)
            == Some(ErrorRecordView { tool_output: Some(read), ..record }),
{
    assert(position(held(read)->Object_0, "value"@) == 0);
}

/// After an error is recorded, the record under its key is what was observed if none was there, and
/// else the record of before, counted once more and last seen now.
pub proof fn law_error_is_recorded(
    rows: Rows,
    message: Seq<char>,
    source: Seq<char>,
    file: Option<Seq<char>>,
    line: Option<u32>,
    column: Option<u32>,
    now: u64,
)
    requires
        stored(rows, error_key(message, source, file, line)) matches Some(before) ==> before.count
            < u64::MAX && before.tool_input is None && before.tool_output is None,
    ensures
        ({
            let key = error_key(message, source, file, line);
            let rows_after = recorded(rows, message, source, file, line, column, now);
            &&& rows_after.last().0 == key
            &&& stored(rows_after, key) matches Some(after)
            &&& after.last_seen == now
            &&& after.tool_input is None
            &&& after.tool_output is None
            &&& match stored(rows, key) {
                None => {
                    &&& after.message == message
                    &&& after.source == source
                    &&& after.file == file
                    &&& after.line == line
                    &&& after.column == column
                    &&& after.first_seen == now
                    &&& after.count == 1
                    &&& after.tool is None
                },
                Some(before) => {
                    &&& after.message == before.message
                    &&& after.source == before.source
                    &&& after.file == before.file
                    &&& after.line == before.line
                    &&& after.column == before.column
                    &&& after.first_seen == before.first_seen
                    &&& after.count == before.count + 1
                    &&& after.tool == before.tool
                },
            }
        }),
        forall|other: Seq<char>|
            other != error_key(message, source, file, line) ==> #[trigger] stored(
                recorded(rows, message, source, file, line, column, now),
                other,
            ) == stored(rows, other),
{
    let key = error_key(message, source, file, line);
    let record = record_read(
        merged(stored(rows, key), first_record(message, source, file, line, column, now)),
    );
    lemma_rewritten(rows, key, record);
    assert forall|other: Seq<char>| other != key implies #[trigger] stored(
        recorded(rows, message, source, file, line, column, now),
        other,
    ) == stored(rows, other) by {
        law_other_errors_are_kept(rows, key, record, other);
    }
}

/// After a tool error with plain input and output is recorded, the record under its key is what was
/// observed if none was there, and else the record of before, counted once more and last seen now,
/// with the input and the output of now, each where there is one.
pub proof fn law_tool_error_is_recorded(
    rows: Rows,
    message: Seq<char>,
    tool: Seq<char>,
    tool_input: Option<JsonView>,
    tool_output: Option<JsonView>,
    now: u64,
)
    requires
        tool_input matches Some(v) ==> v.is_plain(126) && v != JsonView::Null,
        tool_output matches Some(v) ==> v.is_plain(126) && v != JsonView::Null,
        stored(rows, tool_key(tool, message)) matches Some(before) ==> {
            &&& before.count < u64::MAX
            &&& before.tool_input matches Some(v) ==> v.is_plain(126) && v != JsonView::Null
            &&& before.tool_output matches Some(v) ==> v.is_plain(126) && v != JsonView::Null
        },
    ensures
        ({
            let key = tool_key(tool, message);
            let rows_after = tool_recorded(rows, message, tool, tool_input, tool_output, now);
            &&& rows_after.last().0 == key
            &&& stored(rows_after, key) matches Some(after)
            &&& after.last_seen == now
            &&& match stored(rows, key) {
                None => {
                    &&& after.message == message
                    &&& after.source == "tool_error"@
                    &&& after.file is None
                    &&& after.line is None
                    &&& after.column is None
                    &&& after.first_seen == now
                    &&& after.count == 1
                    &&& after.tool == Some(tool)
                    &&& after.tool_input == tool_input
                    &&& after.tool_output == tool_output
                },
                Some(before) => {
                    &&& after.message == before.message
                    &&& after.source == before.source
                    &&& after.file == before.file
                    &&& after.line == before.line
                    &&& after.column == before.column
                    &&& after.first_seen == before.first_seen
                    &&& after.count == before.count + 1
                    &&& after.tool == before.tool
                    &&& tool_input is Some ==> after.tool_input == tool_input
                    &&& tool_input is None ==> after.tool_input == before.tool_input
                    &&& tool_output is Some ==> after.tool_output == tool_output
                    &&& tool_output is None ==> after.tool_output == before.tool_output
                },
            }
        }),
        forall|other: Seq<char>|
            other != tool_key(tool, message) ==> #[trigger] stored(
                tool_recorded(rows, message, tool, tool_input, tool_output, now),
                other,
            ) == stored(rows, other),
{
    let key = tool_key(tool, message);
    let record = record_read(
        merged_tool(
            stored(rows, key),
            first_tool_record(message, tool, tool_input, tool_output, now),
        ),
    );
    lemma_rewritten(rows, key, record);
    assert forall|other: Seq<char>| other != key implies #[trigger] stored(
        tool_recorded(rows, message, tool, tool_input, tool_output, now),
        other,
    ) == stored(rows, other) by {
        law_other_errors_are_kept(rows, key, record, other);
    }
}

/// The rows after an error is recorded several times from an empty store, each time with a column
/// and at a time.
pub open spec fn recorded_often(
    message: Seq<char>,
    source: Seq<char>,
    file: Option<Seq<char>>,
    line: Option<u32>,
    seen: Seq<(Option<u32>, u64)>,
) -> Rows
    decreases seen.len(),
{
    if seen.len() == 0 {
        Rows::empty()
    } else {
        recorded(
            recorded_often(message, source, file, line, seen.drop_last()),
            message,
            source,
            file,
            line,
            seen.last().0,
            seen.last().1,
        )
    }
}

/// However often an error is recorded, there is one record of it: the message, source, file and line
/// that were recorded, the column and the time of the first time, the time of the last, and how
/// often.
pub proof fn law_error_is_recorded_often(
    message: Seq<char>,
    source: Seq<char>,
    file: Option<Seq<char>>,
    line: Option<u32>,
    seen: Seq<(Option<u32>, u64)>,
)
    requires
        0 < seen.len() <= u64::MAX,
    ensures
        queried(recorded_often(message, source, file, line, seen)) == seq![
            ErrorRecordView {
                message,
                source,
                file,
                line,
                column: seen[0].0,
                first_seen: seen[0].1,
                last_seen: seen.last().1,
                count: seen.len() as u64,
                tool: None,
                tool_input: None,
                tool_output: None,
            },
        ],
{
    let rows = recorded_often(message, source, file, line, seen);
    lemma_recorded_often(message, source, file, line, seen);
    assert(rows.drop_last() =~= Rows::empty());
    let record = rows[0].1->0;
    assert(newest_first(rows.drop_last()) =~= Seq::empty());
    assert(newest_first(rows) =~= seq![record]);
    lemma_sorted_is_kept(newest_first(rows));
}

/// However often an error is recorded from an empty store, there is one row.
proof fn lemma_recorded_often(
    message: Seq<char>,
    source: Seq<char>,
    file: Option<Seq<char>>,
    line: Option<u32>,
    seen: Seq<(Option<u32>, u64)>,
)
    requires
        0 < seen.len() <= u64::MAX,
    ensures
        recorded_often(message, source, file, line, seen) == seq![
            (
                error_key(message, source, file, line),
                Some(
                    ErrorRecordView {
                        message,
                        source,
                        file,
                        line,
                        column: seen[0].0,
                        first_seen: seen[0].1,
                        last_seen: seen.last().1,
                        count: seen.len() as u64,
                        tool: None,
                        tool_input: None,
                        tool_output: None,
                    },
                ),
            ),
        ],
    decreases seen.len(),
{
    let key = error_key(message, source, file, line);
    let init = seen.drop_last();
    let before = recorded_often(message, source, file, line, init);
    let rows = recorded_often(message, source, file, line, seen);
    reveal(Seq::filter);
    if init.len() == 0 {
        assert(seen[0] == seen.last());
        assert(without(before, key) =~= Rows::empty());
        assert(stored(before, key) is None);
    } else {
        lemma_recorded_often(message, source, file, line, init);
        assert(init[0] == seen[0]);
        lemma_without(before, 0);
        assert(before.remove(0) =~= Rows::empty());
    }
    assert(rows.len() == 1);
    assert(rows =~= seq![rows[0]]);
}

} // verus!

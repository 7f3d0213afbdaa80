//! One pair, one run of the audit tool: what to hand the tool, and what to
//! make of its answer.

use vstd::prelude::*;
use crate::git_rewrite::config::{RepoPair, RepoPairView};
use crate::git_rewrite::error::{error_key, json_text, json_value_text, GitRewriteError};
use crate::git_rewrite::time::{
    bounds_of, compute_bounds, is_timestamp_reading, parse_local_datetime,
};
use crate::paths::path_file_name;
use crate::text::{
    eq_ignoring_ascii_case, holds_text, is_blank, same_ignoring_ascii_case, trim, trimmed,
};
use crate::types::{opt_text, views, GitRewriteEntry, GitRewriteView};

verus! {

/// The JSON document that bytes are read as, in its written form; `None`
/// where the bytes are no JSON document.
pub uninterp spec fn json_document(bytes: Seq<u8>) -> Option<Seq<char>>;

/// The items of the JSON array that a text writes down, each in its written
/// form; `None` where the text writes down something else.
pub uninterp spec fn json_items(text: Seq<char>) -> Option<Seq<Seq<char>>>;

/// Whether a text writes down a JSON object: a written form that opens with
/// a brace is that of an object, and no other is.
pub open spec fn json_is_object_text(text: Seq<char>) -> bool {
    text.len() > 0 && text[0] == '{'
}

/// The member under `key` of the JSON object that a text writes down, in its
/// written form; `None` where the text writes down no object, or an object
/// without such a member.
pub uninterp spec fn json_member(text: Seq<char>, key: Seq<char>) -> Option<Seq<char>>;

/// The characters of the JSON string that a text writes down; `None` where
/// the text writes down something else.
pub uninterp spec fn json_string(text: Seq<char>) -> Option<Seq<char>>;

/// The written forms of a list of JSON values.
pub open spec fn value_texts(values: Seq<serde_json::Value>) -> Seq<Seq<char>> {
    values.map_values(|v: serde_json::Value| json_text(v))
}

/// Reads a JSON document; the call is `serde_json::from_slice`, asked for a
/// `serde_json::Value`. The claim: whether the bytes are read, and what value
/// they are read as, depends on the bytes alone.
#[verifier::external_body]
pub(crate) fn json_from_slice(bytes: &[u8]) -> (r: Result<serde_json::Value, serde_json::Error>)
    ensures
        match r {
            Ok(value) => json_document(bytes@) == Some(json_text(value)),
            Err(_) => json_document(bytes@) is None,
        },
{
    serde_json::from_slice(bytes)
}

/// Hands out the items of a JSON array, and any other value back as it came;
/// the variants of `serde_json::Value` are told apart by a `match`. The
/// claim: whether a value is an array, and what its items are, shows in its
/// written form.
#[verifier::external_body]
pub(crate) fn json_into_array(value: serde_json::Value) -> (r: Result<
    Vec<serde_json::Value>,
    serde_json::Value,
>)
    ensures
        match r {
            Ok(items) => json_items(json_text(value)) == Some(value_texts(items@)),
            Err(other) => json_items(json_text(value)) is None && json_text(other) == json_text(
                value,
            ),
        },
{
    match value {
        serde_json::Value::Array(items) => Ok(items),
        other => Err(other),
    }
}

/// Whether a JSON value is an object; the call is
/// `serde_json::Value::is_object`. The claim: an object, and nothing else, is
/// written with a brace in front.
#[verifier::external_body]
pub(crate) fn json_is_object(value: &serde_json::Value) -> (r: bool)
    ensures
        r == json_is_object_text(json_text(*value)),
{
    value.is_object()
}

/// The member of a JSON object under `key`; `None` where the value is no
/// object or has no such member. The call is `serde_json::Value::get`. The
/// claim: whether there is such a member, and what it is, depends on the
/// written form of the value and on the key alone.
#[verifier::external_body]
pub(crate) fn json_get<'a>(value: &'a serde_json::Value, key: &str) -> (r: Option<
    &'a serde_json::Value,
>)
    ensures
        match r {
            Some(member) => json_member(json_text(*value), key@) == Some(json_text(*member)),
            None => json_member(json_text(*value), key@) is None,
        },
{
    value.get(key)
}

/// The text of a JSON string; `None` for any other value. The call is
/// `serde_json::Value::as_str`. The claim: whether a value is a string, and
/// which, shows in its written form.
#[verifier::external_body]
pub(crate) fn json_as_str<'a>(value: &'a serde_json::Value) -> (r: Option<&'a str>)
    ensures
        match r {
            Some(text) => json_string(json_text(*value)) == Some(text@),
            None => json_string(json_text(*value)) is None,
        },
{
    value.as_str()
}

/// What stands under one key of a record.
#[derive(Debug, Clone)]
pub enum JsonField {
    /// Nothing: the record has no such member.
    Absent,
    /// Something that is no string.
    Other,
    /// A string.
    Text(String),
}

pub enum FieldView {
    Absent,
    Other,
    Text(Seq<char>),
}

impl View for JsonField {
    type V = FieldView;

    open spec fn view(&self) -> FieldView {
        match self {
            JsonField::Absent => FieldView::Absent,
            JsonField::Other => FieldView::Other,
            JsonField::Text(s) => FieldView::Text(s@),
        }
    }
}

/// What stands under `key` in the record that a text writes down.
pub open spec fn field_of(text: Seq<char>, key: Seq<char>) -> FieldView {
    match json_member(text, key) {
        None => FieldView::Absent,
        Some(member) => match json_string(member) {
            Some(s) => FieldView::Text(s),
            None => FieldView::Other,
        },
    }
}

/// Reads what stands under `key` in `value`.
pub(crate) fn read_field(value: &serde_json::Value, key: &str) -> (r: JsonField)
    ensures
        r@ == field_of(json_text(*value), key@),
{
    match json_get(value, key) {
        None => JsonField::Absent,
        Some(member) => match json_as_str(member) {
            Some(text) => JsonField::Text(text.to_owned()),
            None => JsonField::Other,
        },
    }
}

/// The commit hash that a record states: a string that is not empty.
pub open spec fn usable_hash(field: FieldView) -> Option<Seq<char>> {
    match field {
        FieldView::Text(s) => if s.len() > 0 {
            Some(s)
        } else {
            None
        },
        _ => None,
    }
}

/// What a record is told apart by: the commit hash that it states, or else
/// the whole record as it is written.
pub open spec fn identity_of(hash: FieldView, written: Seq<char>) -> Seq<char> {
    match usable_hash(hash) {
        Some(h) => h,
        None => written,
    }
}

/// The timestamp text of a record. Of the two members that may hold one, the
/// original timestamp is looked at if the record has it at all, the general
/// one otherwise; what is looked at counts if it is a string that holds more
/// than white space.
pub open spec fn chosen_timestamp(original: FieldView, general: FieldView) -> Option<Seq<char>> {
    let field = if original is Absent {
        general
    } else {
        original
    };
    match field {
        FieldView::Text(s) => if trim(s).len() > 0 {
            Some(s)
        } else {
            None
        },
        _ => None,
    }
}

/// Computes `chosen_timestamp`.
pub fn preferred_timestamp(original: JsonField, general: JsonField) -> (r: Option<String>)
    ensures
        opt_text(r) == chosen_timestamp(original@, general@),
{
    let field = match original {
        JsonField::Absent => general,
        other => other,
    };
    match field {
        JsonField::Text(s) => {
            if is_blank(s.as_str()) {
                None
            } else {
                Some(s)
            }
        },
        _ => None,
    }
}

/// What the audit reads off one record.
#[derive(Debug, Clone)]
pub struct AuditRecord {
    /// What the record is told apart by.
    pub identity: String,
    /// The text of its timestamp, if it has one.
    pub timestamp: Option<String>,
}

pub struct AuditRecordView {
    pub identity: Seq<char>,
    pub timestamp: Option<Seq<char>>,
}

impl View for AuditRecord {
    type V = AuditRecordView;

    open spec fn view(&self) -> AuditRecordView {
        AuditRecordView { identity: self.identity@, timestamp: opt_text(self.timestamp) }
    }
}

/// Builds a record from its members and its written form.
pub fn record_from_fields(
    hash: JsonField,
    written: String,
    original: JsonField,
    general: JsonField,
) -> (r: AuditRecord)
    ensures
        r@.identity == identity_of(hash@, written@),
        r@.timestamp == chosen_timestamp(original@, general@),
{
    let identity = match hash {
        JsonField::Text(s) => {
            if s.as_str().unicode_len() > 0 {
                s
            } else {
                written
            }
        },
        _ => written,
    };
    AuditRecord { identity, timestamp: preferred_timestamp(original, general) }
}

/// The record that a text writes down: it is told apart by the commit hash
/// that it states, or else by the text itself, and its timestamp is the one
/// chosen of its two.
pub open spec fn record_of(text: Seq<char>) -> AuditRecordView {
    AuditRecordView {
        identity: identity_of(field_of(text, "commit_hash"@), text),
        timestamp: chosen_timestamp(field_of(text, "original_commit_dt"@), field_of(text, "dt"@)),
    }
}

/// The records that a list of texts writes down.
pub open spec fn records_of(texts: Seq<Seq<char>>) -> Seq<AuditRecordView> {
    texts.map_values(|t: Seq<char>| record_of(t))
}

/// Reads one record of the audit tool's output.
pub fn read_record(value: &serde_json::Value) -> (r: AuditRecord)
    ensures
        r@ == record_of(json_text(*value)),
{
    let hash = read_field(value, "commit_hash");
    let written = json_value_text(value);
    let original = read_field(value, "original_commit_dt");
    let general = read_field(value, "dt");
    record_from_fields(hash, written, original, general)
}

/// Whether a message says that the audit tool found nothing to do.
pub open spec fn says_nothing_to_do(msg: FieldView) -> bool {
    msg matches FieldView::Text(s) && same_ignoring_ascii_case(s, "nothing to do"@)
}

/// Decides `says_nothing_to_do`.
pub fn is_nothing_to_do(msg: &JsonField) -> (r: bool)
    ensures
        r == says_nothing_to_do(msg@),
{
    match msg {
        JsonField::Text(s) => eq_ignoring_ascii_case(s.as_str(), "nothing to do"),
        _ => false,
    }
}

/// Whether `e` says that the output of the tool for the pair `match_key` is
/// not what it should be.
pub open spec fn is_payload_error(e: GitRewriteError, match_key: Seq<char>) -> bool {
    (e is Json || e is UnexpectedJson) && error_key(e) == Some(match_key)
}

/// Whether `e` says that the output of the tool for the pair `match_key` is
/// JSON of an unexpected shape, and holds the value that `text` writes down.
pub open spec fn is_unexpected(e: GitRewriteError, match_key: Seq<char>, text: Seq<char>) -> bool {
    e matches GitRewriteError::UnexpectedJson { match_key: k, value: v } && k@ == match_key
        && json_text(v) == text
}

/// An object in place of the list of records: it stands for no records where
/// its message says that there was nothing to do, and is an error that holds
/// the object otherwise.
pub fn handle_object_payload(match_key: &str, object: serde_json::Value) -> (r: Result<
    Vec<serde_json::Value>,
    GitRewriteError,
>)
    ensures
        if says_nothing_to_do(field_of(json_text(object), "msg"@)) {
            r is Ok && r->Ok_0@.len() == 0
        } else {
            r is Err && is_unexpected(r->Err_0, match_key@, json_text(object))
        },
{
    let msg = read_field(&object, "msg");
    if is_nothing_to_do(&msg) {
        Ok(Vec::new())
    } else {
        Err(GitRewriteError::UnexpectedJson { match_key: match_key.to_owned(), value: object })
    }
}

/// What the output of the audit tool amounts to.
pub enum Payload {
    /// It is no JSON.
    NoJson,
    /// It is a list of records, here in their written forms.
    Records(Seq<Seq<char>>),
    /// It is JSON of a shape that means nothing; here in its written form.
    Unexpected(Seq<char>),
}

/// What bytes written by the audit tool amount to: a JSON array is the list
/// of its items; a JSON object whose message says that there was nothing to
/// do is the empty list; any other JSON is unexpected.
pub open spec fn payload_of(bytes: Seq<u8>) -> Payload {
    match json_document(bytes) {
        None => Payload::NoJson,
        Some(text) => match json_items(text) {
            Some(items) => Payload::Records(items),
            None => if json_is_object_text(text) && says_nothing_to_do(field_of(text, "msg"@)) {
                Payload::Records(Seq::empty())
            } else {
                Payload::Unexpected(text)
            },
        },
    }
}

/// Reads the records out of what the audit tool wrote: a JSON list of
/// records, or an object that says that there was nothing to do. Anything
/// else is an error that names the pair: bytes that are no JSON give the
/// error of the reading, and JSON of another shape is handed back in the
/// error.
pub fn parse_payload(match_key: &str, stdout: &[u8]) -> (r: Result<
    Vec<serde_json::Value>,
    GitRewriteError,
>)
    ensures
        match payload_of(stdout@) {
            Payload::NoJson => r matches Err(GitRewriteError::Json { match_key: k, source })
                && k@ == match_key@,
            Payload::Records(items) => r is Ok && value_texts(r->Ok_0@) == items,
            Payload::Unexpected(text) => r is Err && is_unexpected(r->Err_0, match_key@, text),
        },
        r matches Err(e) ==> is_payload_error(e, match_key@),
{
    match json_from_slice(stdout) {
        Err(source) => Err(GitRewriteError::Json { match_key: match_key.to_owned(), source }),
        Ok(value) => match json_into_array(value) {
            Ok(records) => Ok(records),
            Err(other) => {
                if json_is_object(&other) {
                    let r = handle_object_payload(match_key, other);
                    assert(r is Ok ==> value_texts(r->Ok_0@) =~= Seq::<Seq<char>>::empty());
                    r
                } else {
                    Err(
                        GitRewriteError::UnexpectedJson {
                            match_key: match_key.to_owned(),
                            value: other,
                        },
                    )
                }
            },
        },
    }
}

/// The identities of the records, in order.
pub open spec fn identities(records: Seq<AuditRecordView>) -> Seq<Seq<char>> {
    records.map_values(|r: AuditRecordView| r.identity)
}

/// The timestamps of the records that have one, in the order of the records.
pub open spec fn stamps(records: Seq<AuditRecordView>) -> Seq<Seq<char>>
    decreases records.len(),
{
    if records.len() == 0 {
        Seq::empty()
    } else {
        match records.last().timestamp {
            Some(text) => stamps(records.drop_last()).push(text),
            None => stamps(records.drop_last()),
        }
    }
}

/// No more records have a timestamp than there are records.
pub proof fn lemma_stamps_bound(records: Seq<AuditRecordView>)
    ensures
        stamps(records).len() <= records.len(),
    decreases records.len(),
{
    if records.len() > 0 {
        lemma_stamps_bound(records.drop_last());
    }
}

/// The timestamps of the first records are the first timestamps.
pub proof fn lemma_stamps_prefix(records: Seq<AuditRecordView>, n: int)
    requires
        0 <= n <= records.len(),
    ensures
        stamps(records.take(n)).len() <= stamps(records).len(),
        stamps(records.take(n)) == stamps(records).take(stamps(records.take(n)).len() as int),
    decreases records.len(),
{
    if n == records.len() {
        assert(records.take(n) =~= records);
        assert(stamps(records).take(stamps(records).len() as int) =~= stamps(records));
    } else {
        let init = records.drop_last();
        assert(records.take(n) =~= init.take(n));
        lemma_stamps_prefix(init, n);
        let k = stamps(init.take(n)).len() as int;
        assert(stamps(records).take(k) =~= stamps(init).take(k));
    }
}

/// Whether `moments` are readings of the timestamps `texts` for the pair
/// `match_key`, one for one.
pub open spec fn are_readings(match_key: Seq<char>, texts: Seq<Seq<char>>, moments: Seq<i64>) -> bool {
    &&& moments.len() == texts.len()
    &&& forall|k: int|
        0 <= k < texts.len() ==> is_timestamp_reading(
            match_key,
            texts[k],
            Ok::<i64, GitRewriteError>(#[trigger] moments[k]),
        )
}

/// Whether `e` is the error of the first of the timestamps `texts` that is
/// not read as a moment: the timestamps before it are read, and `e` is what
/// reading it gives.
pub open spec fn is_failed_reading(match_key: Seq<char>, texts: Seq<Seq<char>>, e: GitRewriteError) -> bool {
    exists|k: int, before: Seq<i64>|
        0 <= k < texts.len() && #[trigger] are_readings(match_key, texts.take(k), before)
            && is_timestamp_reading(match_key, texts[k], Err::<i64, GitRewriteError>(e))
}

/// Whether `r` sums up `records` for the pair `match_key`. The records are
/// gone through in order, and the timestamp of each that has one is read. If
/// all are read, `r` holds the number of different identities and the
/// moments read, in order. Otherwise `r` is the error of the first reading
/// that fails.
pub open spec fn is_summary(
    records: Seq<AuditRecordView>,
    match_key: Seq<char>,
    r: Result<(u64, Vec<i64>), GitRewriteError>,
) -> bool {
    match r {
        Ok((commits, moments)) => commits == identities(records).to_set().len() && are_readings(
            match_key,
            stamps(records),
            moments@,
        ),
        Err(e) => is_failed_reading(match_key, stamps(records), e),
    }
}

/// A sequence with one more item has that item in its set and the others as before.
pub proof fn lemma_to_set_push<A>(s: Seq<A>, a: A)
    ensures
        s.push(a).to_set() == s.to_set().insert(a),
{
    assert forall|x: A| s.push(a).to_set().contains(x) <==> s.to_set().insert(a).contains(x) by {
        if s.push(a).contains(x) {
            let i = choose|i: int| 0 <= i < s.push(a).len() && s.push(a)[i] == x;
            if i < s.len() {
                assert(s[i] == x);
            }
        }
        if s.contains(x) {
            let i = choose|i: int| 0 <= i < s.len() && s[i] == x;
            assert(s.push(a)[i] == x);
        }
        assert(s.push(a)[s.len() as int] == a);
    }
    assert(s.push(a).to_set() =~= s.to_set().insert(a));
}

/// Counts the commits and gathers the moments of a list of records. A commit
/// is counted once however many records share its identity. Every record
/// with a timestamp gives one moment; a timestamp that cannot be read or
/// placed ends the count with an error that names the pair.
pub fn summarize_records(records: &Vec<AuditRecord>, match_key: &str) -> (r: Result<
    (u64, Vec<i64>),
    GitRewriteError,
>)
    ensures
        is_summary(views(records@), match_key@, r),
{
    let ghost rs = views(records@);
    let ghost ids = identities(rs);
    let mut seen: Vec<String> = Vec::new();
    let mut moments: Vec<i64> = Vec::new();
    let mut i: usize = 0;
    proof {
        assert(ids.take(0) =~= Seq::<Seq<char>>::empty());
        assert(views(seen@) =~= Seq::<Seq<char>>::empty());
        assert(ids.take(0).to_set() =~= views(seen@).to_set());
        assert(rs.take(0) =~= Seq::<AuditRecordView>::empty());
    }
    while i < records.len()
        invariant
            i <= records.len(),
            rs == views(records@),
            ids == identities(rs),
            views(seen@).no_duplicates(),
            views(seen@).to_set() == ids.take(i as int).to_set(),
            are_readings(match_key@, stamps(rs.take(i as int)), moments@),
        decreases records.len() - i,
    {
        let record = &records[i];
        proof {
            assert(ids.take(i + 1) =~= ids.take(i as int).push(record.identity@));
            lemma_to_set_push(ids.take(i as int), record.identity@);
            assert(rs.take(i + 1).drop_last() =~= rs.take(i as int));
            assert(rs.take(i + 1).last() == record@);
        }
        if !holds_text(&seen, record.identity.as_str()) {
            let ghost before = views(seen@);
            seen.push(record.identity.clone());
            proof {
                assert(views(seen@) =~= before.push(record.identity@));
                lemma_to_set_push(before, record.identity@);
            }
        } else {
            assert(views(seen@).to_set().insert(record.identity@) =~= views(seen@).to_set());
        }
        let ghost read = moments@;
        let ghost texts = stamps(rs.take(i as int));
        match &record.timestamp {
            Some(text) => {
                match parse_local_datetime(match_key, text.as_str()) {
                    Ok(at) => {
                        moments.push(at);
                        proof {
                            let next = stamps(rs.take(i + 1));
                            assert(next == texts.push(text@));
                            assert forall|k: int| 0 <= k < next.len() implies is_timestamp_reading(
                                match_key@,
                                next[k],
                                Ok::<i64, GitRewriteError>(#[trigger] moments@[k]),
                            ) by {
                                if k < texts.len() {
                                    assert(moments@[k] == read[k]);
                                    assert(next[k] == texts[k]);
                                }
                            }
                        }
                    },
                    Err(e) => {
                        proof {
                            let all = stamps(rs);
                            let next = stamps(rs.take(i + 1));
                            assert(next == texts.push(text@));
                            lemma_stamps_prefix(rs, i + 1);
                            let k = texts.len() as int;
                            assert(all.take(k + 1) == next);
                            assert(all[k] == next[k]);
                            assert(all.take(k) =~= texts);
                            assert(are_readings(match_key@, all.take(k), read));
                        }
                        return Err(e);
                    },
                }
            },
            None => {},
        }
        i += 1;
    }
    proof {
        assert(ids.take(records.len() as int) =~= ids);
        assert(rs.take(records.len() as int) =~= rs);
        views(seen@).unique_seq_to_set();
    }
    Ok((seen.len() as u64, moments))
}

/// Reads every record, then counts and gathers as `summarize_records` does.
pub fn summarize_entries(values: &Vec<serde_json::Value>, match_key: &str) -> (r: Result<
    (u64, Vec<i64>),
    GitRewriteError,
>)
    ensures
        is_summary(records_of(value_texts(values@)), match_key@, r),
{
    let ghost wanted = records_of(value_texts(values@));
    let mut records: Vec<AuditRecord> = Vec::new();
    let mut i: usize = 0;
    assert(views(records@) =~= wanted.take(0));
    while i < values.len()
        invariant
            i <= values.len(),
            wanted == records_of(value_texts(values@)),
            views(records@) == wanted.take(i as int),
        decreases values.len() - i,
    {
        let ghost before = views(records@);
        let record = read_record(&values[i]);
        assert(record@ == wanted[i as int]);
        records.push(record);
        assert(views(records@) =~= before.push(wanted[i as int]));
        assert(wanted.take(i + 1) =~= wanted.take(i as int).push(wanted[i as int]));
        i += 1;
    }
    assert(wanted.take(values.len() as int) =~= wanted);
    summarize_records(&records, match_key)
}

/// How one run of the audit tool ended.
#[derive(Debug, Clone)]
pub enum AuditOutcome {
    /// The tool could not be started; `reason` says why.
    NotStarted { reason: String },
    /// The tool ran to its end. `status` is its exit status in words; the
    /// error stream is text, decoded leniently.
    Exited { success: bool, status: String, stdout: Vec<u8>, stderr: String },
}

/// The arguments that the audit tool is run with for a pair: the two
/// endpoints, the whole history, printing only, JSON output.
pub open spec fn audit_arguments_of(pair: RepoPairView) -> Seq<Seq<char>> {
    seq![
        "--source-repository-path"@,
        pair.source.path,
        "--source-repository-branch"@,
        pair.source.branch,
        "--target-repo"@,
        pair.target.path,
        "--target-repo-branch"@,
        pair.target.branch,
        "--commit-from"@,
        "NEXT"@,
        "--commit-to"@,
        "HEAD"@,
        "--mode"@,
        "print"@,
        "--output-format"@,
        "json"@,
    ]
}

/// Computes `audit_arguments_of`.
pub fn audit_arguments(pair: &RepoPair) -> (r: Vec<String>)
    ensures
        views(r@) == audit_arguments_of(pair@),
{
    let mut r: Vec<String> = Vec::new();
    r.push("--source-repository-path".to_owned());
    r.push(pair.source.path.clone());
    r.push("--source-repository-branch".to_owned());
    r.push(pair.source.branch.clone());
    r.push("--target-repo".to_owned());
    r.push(pair.target.path.clone());
    r.push("--target-repo-branch".to_owned());
    r.push(pair.target.branch.clone());
    r.push("--commit-from".to_owned());
    r.push("NEXT".to_owned());
    r.push("--commit-to".to_owned());
    r.push("HEAD".to_owned());
    r.push("--mode".to_owned());
    r.push("print".to_owned());
    r.push("--output-format".to_owned());
    r.push("json".to_owned());
    assert(views(r@) =~= audit_arguments_of(pair@));
    r
}

/// The name that a repository is shown under: the last component of its
/// path, or the whole path where it has no such component.
pub open spec fn display_name_of(file_name: Option<Seq<char>>, path: Seq<char>) -> Seq<char> {
    match file_name {
        Some(name) => if name.len() > 0 {
            name
        } else {
            path
        },
        None => path,
    }
}

/// Computes `display_name_of`.
pub fn display_name_from(file_name: Option<String>, path: &str) -> (r: String)
    ensures
        r@ == display_name_of(opt_text(file_name), path@),
{
    match file_name {
        Some(name) => {
            if name.as_str().unicode_len() > 0 {
                name
            } else {
                path.to_owned()
            }
        },
        None => path.to_owned(),
    }
}

/// The name that the repository at `path` is shown under.
pub fn repo_display_name(path: &str) -> (r: String)
    ensures
        exists|file_name: Option<Seq<char>>| r@ == display_name_of(file_name, path@),
{
    let file_name = path_file_name(path);
    display_name_from(file_name, path)
}

/// The audit's finding on a pair: who was audited, how many commits the
/// tool listed, and the ages at `now` of the earliest and the latest of them.
pub open spec fn audit_entry_of(
    pair: RepoPairView,
    source_repo: Seq<char>,
    target_repo: Seq<char>,
    commits: u64,
    moments: Seq<i64>,
    now: i64,
) -> GitRewriteView {
    GitRewriteView {
        source_repo,
        source_branch: pair.source.branch,
        source_path: pair.source.path,
        target_repo,
        target_branch: pair.target.branch,
        target_path: pair.target.path,
        commits,
        earliest_secs: bounds_of(moments, now).0,
        latest_secs: bounds_of(moments, now).1,
    }
}

/// Computes `audit_entry_of`.
pub fn audit_entry(
    pair: &RepoPair,
    source_repo: String,
    target_repo: String,
    commits: u64,
    moments: &Vec<i64>,
    now: i64,
) -> (r: GitRewriteEntry)
    ensures
        r@ == audit_entry_of(pair@, source_repo@, target_repo@, commits, moments@, now),
{
    let (earliest_secs, latest_secs) = compute_bounds(moments, now);
    GitRewriteEntry {
        source_repo,
        source_branch: pair.source.branch.clone(),
        source_path: pair.source.path.clone(),
        target_repo,
        target_branch: pair.target.branch.clone(),
        target_path: pair.target.path.clone(),
        commits,
        earliest_secs,
        latest_secs,
    }
}

/// Whether `entry` is the finding on `pair` that `commits` commits and the
/// moments `moments` give at `now`. The names that the two repositories are
/// shown under are made of the last components of their paths, which the
/// standard library is asked for.
pub open spec fn is_finding(
    entry: GitRewriteView,
    pair: RepoPairView,
    commits: u64,
    moments: Seq<i64>,
    now: i64,
) -> bool {
    exists|source_name: Option<Seq<char>>, target_name: Option<Seq<char>>|
        entry == #[trigger] audit_entry_of(
            pair,
            display_name_of(source_name, pair.source.path),
            display_name_of(target_name, pair.target.path),
            commits,
            moments,
            now,
        )
}

/// Whether `r` is the outcome of the audit of `pair` at `now`, given the
/// records that the tool listed. Where every timestamp of the records is
/// read, `r` is the finding with the number of different identities and the
/// ages of the moments read. Otherwise `r` is the error of the first reading
/// that fails.
pub open spec fn is_audit(
    records: Seq<AuditRecordView>,
    pair: RepoPairView,
    now: i64,
    r: Result<GitRewriteEntry, GitRewriteError>,
) -> bool {
    match r {
        Ok(entry) => exists|commits: u64, moments: Seq<i64>|
            commits == identities(records).to_set().len() && are_readings(
                pair.key,
                stamps(records),
                moments,
            ) && #[trigger] is_finding(entry@, pair, commits, moments, now),
        Err(e) => is_failed_reading(pair.key, stamps(records), e),
    }
}

/// Whether `r` is what is made at `now` of a run for `pair` that ended as
/// `outcome`.
///
/// A run that did not start gives the error that says why. A run that ended
/// in failure gives the error with the pair's key, the exit status and what
/// the tool wrote to its error stream, without the white space around it. Of
/// a run that ended well the output is read: output that is no JSON gives
/// the error of the reading, JSON of an unexpected shape gives the error
/// that holds it, and a list of records gives the outcome of their audit.
pub open spec fn is_run_result(
    pair: RepoPairView,
    outcome: AuditOutcome,
    now: i64,
    r: Result<GitRewriteEntry, GitRewriteError>,
) -> bool {
    match outcome {
        AuditOutcome::NotStarted { reason } => r matches Err(GitRewriteError::CommandIo { source })
            && source@ == reason@,
        AuditOutcome::Exited { success, status, stdout, stderr } => if !success {
            r matches Err(GitRewriteError::CommandFailure { match_key: k, status: s, stderr: t })
                && k@ == pair.key && s@ == status@ && t@ == trim(stderr@)
        } else {
            match payload_of(stdout@) {
                Payload::NoJson => r matches Err(GitRewriteError::Json { match_key: k, source })
                    && k@ == pair.key,
                Payload::Unexpected(text) => r is Err && is_unexpected(r->Err_0, pair.key, text),
                Payload::Records(items) => is_audit(records_of(items), pair, now, r),
            }
        },
    }
}

/// Makes the finding on `pair` out of how the tool's run ended; the ages are
/// measured from `now`.
pub fn run_pair(pair: &RepoPair, outcome: AuditOutcome, now: i64) -> (r: Result<
    GitRewriteEntry,
    GitRewriteError,
>)
    ensures
        is_run_result(pair@, outcome, now, r),
{
    match outcome {
        AuditOutcome::NotStarted { reason } => Err(GitRewriteError::CommandIo { source: reason }),
        AuditOutcome::Exited { success, status, stdout, stderr } => {
            if !success {
                return Err(
                    GitRewriteError::CommandFailure {
                        match_key: pair.key.clone(),
                        status,
                        stderr: trimmed(stderr.as_str()),
                    },
                );
            }
            let values = match parse_payload(pair.key.as_str(), stdout.as_slice()) {
                Ok(values) => values,
                Err(e) => {
                    return Err(e);
                },
            };
            let ghost records = records_of(value_texts(values@));
            let (commits, moments) = match summarize_entries(&values, pair.key.as_str()) {
                Ok(found) => found,
                Err(e) => {
                    return Err(e);
                },
            };
            let source_repo = repo_display_name(pair.source.path.as_str());
            let target_repo = repo_display_name(pair.target.path.as_str());
            let entry = audit_entry(pair, source_repo, target_repo, commits, &moments, now);
            proof {
                let source_name = choose|n: Option<Seq<char>>|
                    source_repo@ == display_name_of(n, pair@.source.path);
                let target_name = choose|n: Option<Seq<char>>|
                    target_repo@ == display_name_of(n, pair@.target.path);
                assert(entry@ == audit_entry_of(
                    pair@,
                    display_name_of(source_name, pair@.source.path),
                    display_name_of(target_name, pair@.target.path),
                    commits,
                    moments@,
                    now,
                ));
                assert(is_finding(entry@, pair@, commits, moments@, now));
            }
            Ok(entry)
        },
    }
}

} // verus!

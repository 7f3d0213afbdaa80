//! What can go wrong while auditing rewritten history.

use vstd::prelude::*;
use crate::text::push_str;

verus! {

/// `serde_json::Error`: why a text is no JSON. Held and handed on, never
/// looked into.
#[verifier::external_type_specification]
#[verifier::external_body]
pub struct ExJsonError(serde_json::Error);

/// `serde_json::Value`: a JSON document or a part of one. Nothing is known
/// of a value but what the functions that take one say.
#[verifier::external_type_specification]
#[verifier::external_body]
pub struct ExJsonValue(serde_json::Value);

/// `chrono::ParseError`: why a text is no date and time. Held and handed
/// on, never looked into.
#[verifier::external_type_specification]
#[verifier::external_body]
pub struct ExDateParseError(chrono::ParseError);

/// A failure of the audit. Every one ends the whole batch.
#[derive(Debug)]
pub enum GitRewriteError {
    /// The configuration could not be read.
    ConfigRead { path: String, source: String },
    /// The configuration is not well-formed.
    ConfigParse { path: String, source: String },
    /// The configuration pairs its repositories wrongly.
    InvalidConfig { message: String },
    /// The audit tool could not be started.
    CommandIo { source: String },
    /// The audit tool ran and failed.
    CommandFailure { match_key: String, status: String, stderr: String },
    /// The audit tool's output is not JSON.
    Json { match_key: String, source: serde_json::Error },
    /// The audit tool's output is JSON of a shape that means nothing here.
    UnexpectedJson { match_key: String, value: serde_json::Value },
    /// A timestamp in the audit tool's output cannot be read.
    DateParse { match_key: String, value: String, source: chrono::ParseError },
    /// A timestamp in the audit tool's output names a local time that never was.
    DateOutOfRange { match_key: String, value: String },
    /// The pool of workers could not be set up.
    ParallelInit { source: String },
}

/// The text of a JSON error; the call is its `Display` impl, by way of `format!`.
#[verifier::external_body]
pub(crate) fn json_error_text(e: &serde_json::Error) -> String {
    format!("{e}")
}

/// What a JSON value holds, written down as JSON text in compact form: the
/// text that `serde_json` writes for the value. The value is known by this
/// text alone.
pub uninterp spec fn json_text(value: serde_json::Value) -> Seq<char>;

/// The text of a JSON value, in compact form; the call is its `Display` impl,
/// by way of `format!`. The claim: what comes back is the written form of
/// the value, the same for the same value.
#[verifier::external_body]
pub(crate) fn json_value_text(value: &serde_json::Value) -> (r: String)
    ensures
        r@ == json_text(*value),
{
    format!("{value}")
}

/// The text of a date error; the call is its `Display` impl, by way of `format!`.
#[verifier::external_body]
pub(crate) fn date_error_text(e: &chrono::ParseError) -> String {
    format!("{e}")
}

/// The message for a configuration that could not be read or understood.
pub open spec fn config_io_text(action: Seq<char>, path: Seq<char>, source: Seq<char>) -> Seq<
    char,
> {
    "failed to "@ + action + " git rewrite config "@ + path + ": "@ + source
}

/// The message for a run of the audit tool that failed; what the tool wrote
/// to its error stream is added where it wrote anything.
pub open spec fn command_failure_text(
    match_key: Seq<char>,
    status: Seq<char>,
    stderr: Seq<char>,
) -> Seq<char> {
    let head = "git_rewrite invocation for match-key "@ + match_key + " failed with status "@
        + status;
    if stderr.len() == 0 {
        head
    } else {
        head + ": "@ + stderr
    }
}

/// The message for a timestamp that cannot be read.
pub open spec fn date_parse_text(match_key: Seq<char>, value: Seq<char>, source: Seq<char>) -> Seq<
    char,
> {
    "failed to parse git_rewrite dt '"@ + value + "' for match-key "@ + match_key + ": "@ + source
}

/// The message of an error. `detail` stands for the text of what the error
/// holds from elsewhere: the JSON error or the date error. A JSON value that
/// the error holds is shown in its written form.
pub open spec fn error_text(e: GitRewriteError, detail: Seq<char>) -> Seq<char> {
    match e {
        GitRewriteError::ConfigRead { path, source } => config_io_text("read"@, path@, source@),
        GitRewriteError::ConfigParse { path, source } => config_io_text("parse"@, path@, source@),
        GitRewriteError::InvalidConfig { message } => "invalid git rewrite config: "@ + message@,
        GitRewriteError::CommandIo { source } => "failed to launch git_rewrite binary: "@
            + source@,
        GitRewriteError::CommandFailure { match_key, status, stderr } => command_failure_text(
            match_key@,
            status@,
            stderr@,
        ),
        GitRewriteError::Json { match_key, source } =>
            "failed to parse git_rewrite output for match-key "@ + match_key@ + ": "@ + detail,
        GitRewriteError::UnexpectedJson { match_key, value } =>
            "unexpected git_rewrite payload for match-key "@ + match_key@ + ": "@ + json_text(
                value,
            ),
        GitRewriteError::DateParse { match_key, value, source } => date_parse_text(
            match_key@,
            value@,
            detail,
        ),
        GitRewriteError::DateOutOfRange { match_key, value } => "git_rewrite dt '"@ + value@
            + "' for match-key "@ + match_key@ + " did not map to a local timestamp"@,
        GitRewriteError::ParallelInit { source } =>
            "failed to initialize git rewrite worker pool: "@ + source@,
    }
}

/// The match key of the pair that an error is about; the errors that arise
/// before any pair is looked at name none.
pub open spec fn error_key(e: GitRewriteError) -> Option<Seq<char>> {
    match e {
        GitRewriteError::CommandFailure { match_key, status, stderr } => Some(match_key@),
        GitRewriteError::Json { match_key, source } => Some(match_key@),
        GitRewriteError::UnexpectedJson { match_key, value } => Some(match_key@),
        GitRewriteError::DateParse { match_key, value, source } => Some(match_key@),
        GitRewriteError::DateOutOfRange { match_key, value } => Some(match_key@),
        _ => None,
    }
}

/// Whether the message of `e` takes its last part from elsewhere.
pub open spec fn has_outside_detail(e: GitRewriteError) -> bool {
    e is Json || e is DateParse
}

/// Writes the message for a configuration that could not be read or understood.
pub fn fmt_config_io(out: &mut String, action: &str, path: &str, source: &str)
    ensures
        final(out)@ == old(out)@ + config_io_text(action@, path@, source@),
{
    push_str(out, "failed to ");
    push_str(out, action);
    push_str(out, " git rewrite config ");
    push_str(out, path);
    push_str(out, ": ");
    push_str(out, source);
    assert(final(out)@ =~= old(out)@ + config_io_text(action@, path@, source@));
}

/// Writes the message for a run of the audit tool that failed.
pub fn fmt_command_failure(out: &mut String, match_key: &str, status: &str, stderr: &str)
    ensures
        final(out)@ == old(out)@ + command_failure_text(match_key@, status@, stderr@),
{
    push_str(out, "git_rewrite invocation for match-key ");
    push_str(out, match_key);
    push_str(out, " failed with status ");
    push_str(out, status);
    if stderr.unicode_len() != 0 {
        push_str(out, ": ");
        push_str(out, stderr);
    }
    assert(final(out)@ =~= old(out)@ + command_failure_text(match_key@, status@, stderr@));
}

/// Writes the message for a timestamp that cannot be read.
pub fn fmt_date_parse(out: &mut String, match_key: &str, value: &str, source: &str)
    ensures
        final(out)@ == old(out)@ + date_parse_text(match_key@, value@, source@),
{
    push_str(out, "failed to parse git_rewrite dt '");
    push_str(out, value);
    push_str(out, "' for match-key ");
    push_str(out, match_key);
    push_str(out, ": ");
    push_str(out, source);
    assert(final(out)@ =~= old(out)@ + date_parse_text(match_key@, value@, source@));
}

impl GitRewriteError {
    /// The message of the error, for people.
    pub fn message(&self) -> (r: String)
        ensures
            exists|detail: Seq<char>| r@ == error_text(*self, detail),
            !has_outside_detail(*self) ==> r@ == error_text(*self, Seq::empty()),
    {
        let mut out = String::new();
        match self {
            GitRewriteError::ConfigRead { path, source } => {
                fmt_config_io(&mut out, "read", path.as_str(), source.as_str());
            },
            GitRewriteError::ConfigParse { path, source } => {
                fmt_config_io(&mut out, "parse", path.as_str(), source.as_str());
            },
            GitRewriteError::InvalidConfig { message } => {
                push_str(&mut out, "invalid git rewrite config: ");
                push_str(&mut out, message.as_str());
            },
            GitRewriteError::CommandIo { source } => {
                push_str(&mut out, "failed to launch git_rewrite binary: ");
                push_str(&mut out, source.as_str());
            },
            GitRewriteError::CommandFailure { match_key, status, stderr } => {
                fmt_command_failure(&mut out, match_key.as_str(), status.as_str(), stderr.as_str());
            },
            GitRewriteError::Json { match_key, source } => {
                let detail = json_error_text(source);
                push_str(&mut out, "failed to parse git_rewrite output for match-key ");
                push_str(&mut out, match_key.as_str());
                push_str(&mut out, ": ");
                push_str(&mut out, detail.as_str());
                assert(out@ =~= error_text(*self, detail@));
            },
            GitRewriteError::UnexpectedJson { match_key, value } => {
                let detail = json_value_text(value);
                push_str(&mut out, "unexpected git_rewrite payload for match-key ");
                push_str(&mut out, match_key.as_str());
                push_str(&mut out, ": ");
                push_str(&mut out, detail.as_str());
                assert(out@ =~= error_text(*self, Seq::empty()));
            },
            GitRewriteError::DateParse { match_key, value, source } => {
                let detail = date_error_text(source);
                fmt_date_parse(&mut out, match_key.as_str(), value.as_str(), detail.as_str());
                assert(out@ =~= error_text(*self, detail@));
            },
            GitRewriteError::DateOutOfRange { match_key, value } => {
                push_str(&mut out, "git_rewrite dt '");
                push_str(&mut out, value.as_str());
                push_str(&mut out, "' for match-key ");
                push_str(&mut out, match_key.as_str());
                push_str(&mut out, " did not map to a local timestamp");
            },
            GitRewriteError::ParallelInit { source } => {
                push_str(&mut out, "failed to initialize git rewrite worker pool: ");
                push_str(&mut out, source.as_str());
            },
        }
        assert(!has_outside_detail(*self) ==> out@ =~= error_text(*self, Seq::empty()));
        out
    }
}

} // verus!

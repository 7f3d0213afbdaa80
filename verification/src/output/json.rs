//! The report as JSON text.

use vstd::prelude::*;
use crate::text::{chars_of, decimal, digit_char, join_texts, joined, push_char, push_decimal, push_str};
use crate::types::{
    views, ChangeView, GitRewriteView, PushableView, ReportData, ReportView, UntrackedReason,
    UntrackedView,
};

verus! {

/// Whether `c` is a control character: one of the two blocks that Unicode
/// keeps for them.
pub open spec fn is_control(c: char) -> bool {
    let n = c as u32;
    n <= 0x1F || 0x7F <= n <= 0x9F
}

/// The small hexadecimal digit for a number below sixteen.
pub open spec fn hex_digit(d: nat) -> char
    recommends
        d < 16,
{
    if d < 10 {
        digit_char(d)
    } else {
        ((d - 10) + 'a' as nat) as char
    }
}

/// How one character stands inside a JSON string: the quote and the
/// backslash behind a backslash, line feed, carriage return and tab by their
/// letters, any other control character by its code in four hexadecimal
/// digits, and everything else as it is.
pub open spec fn escaped_char(c: char) -> Seq<char> {
    if c == '"' {
        seq!['\\', '"']
    } else if c == '\\' {
        seq!['\\', '\\']
    } else if c == '\n' {
        seq!['\\', 'n']
    } else if c == '\r' {
        seq!['\\', 'r']
    } else if c == '\t' {
        seq!['\\', 't']
    } else if is_control(c) {
        seq!['\\', 'u', '0', '0', hex_digit((c as nat) / 16), hex_digit((c as nat) % 16)]
    } else {
        seq![c]
    }
}

/// How a text stands inside a JSON string.
pub open spec fn escaped(s: Seq<char>) -> Seq<char>
    decreases s.len(),
{
    if s.len() == 0 {
        Seq::empty()
    } else {
        escaped(s.drop_last()) + escaped_char(s.last())
    }
}

/// The small hexadecimal digit for `d`.
fn hex_digit_char(d: u8) -> (c: char)
    requires
        d < 16,
    ensures
        c == hex_digit(d as nat),
{
    if d < 10 {
        (d + 48u8) as char
    } else {
        (d - 10 + 97u8) as char
    }
}

/// Appends `c` as it stands inside a JSON string.
fn push_escaped_char(out: &mut String, c: char)
    ensures
        final(out)@ == old(out)@ + escaped_char(c),
{
    let n: u32 = c as u32;
    if c == '"' {
        push_char(out, '\\');
        push_char(out, '"');
    } else if c == '\\' {
        push_char(out, '\\');
        push_char(out, '\\');
    } else if c == '\n' {
        push_char(out, '\\');
        push_char(out, 'n');
    } else if c == '\r' {
        push_char(out, '\\');
        push_char(out, 'r');
    } else if c == '\t' {
        push_char(out, '\\');
        push_char(out, 't');
    } else if n <= 0x1F || (0x7F <= n && n <= 0x9F) {
        let code: u8 = n as u8;
        push_char(out, '\\');
        push_char(out, 'u');
        push_char(out, '0');
        push_char(out, '0');
        push_char(out, hex_digit_char(code / 16));
        push_char(out, hex_digit_char(code % 16));
    } else {
        push_char(out, c);
    }
    assert(final(out)@ =~= old(out)@ + escaped_char(c));
}

/// `s` as it stands inside a JSON string.
pub fn json_escape(s: &str) -> (r: String)
    ensures
        r@ == escaped(s@),
{
    let v = chars_of(s);
    let mut r = String::new();
    let mut i: usize = 0;
    assert(v@.take(0) =~= Seq::<char>::empty());
    while i < v.len()
        invariant
            i <= v.len(),
            r@ == escaped(v@.take(i as int)),
        decreases v.len() - i,
    {
        assert(v@.take(i + 1).drop_last() =~= v@.take(i as int));
        assert(v@.take(i + 1).last() == v@[i as int]);
        push_escaped_char(&mut r, v[i]);
        i += 1;
    }
    assert(v@.take(v.len() as int) =~= v@);
    r
}

/// A member whose value is a string.
pub open spec fn text_member(name: Seq<char>, value: Seq<char>) -> Seq<char> {
    seq!['"'] + name + seq!['"', ':', '"'] + escaped(value) + seq!['"']
}

/// A member whose value is a number.
pub open spec fn number_member(name: Seq<char>, value: u64) -> Seq<char> {
    seq!['"'] + name + seq!['"', ':'] + decimal(value as nat)
}

/// A member whose value is a number or null.
pub open spec fn optional_member(name: Seq<char>, value: Option<u64>) -> Seq<char> {
    seq!['"'] + name + seq!['"', ':'] + match value {
        Some(n) => decimal(n as nat),
        None => "null"@,
    }
}

/// An object with the given members.
pub open spec fn object_of(members: Seq<Seq<char>>) -> Seq<char> {
    seq!['{'] + joined(members, ", "@) + seq!['}']
}

/// A list of the given items.
pub open spec fn list_of(items: Seq<Seq<char>>) -> Seq<char> {
    seq!['['] + joined(items, ", "@) + seq![']']
}

/// Makes a member whose value is a string.
fn make_text_member(name: &str, value: &str) -> (r: String)
    ensures
        r@ == text_member(name@, value@),
{
    let mut r = String::new();
    push_char(&mut r, '"');
    push_str(&mut r, name);
    push_char(&mut r, '"');
    push_char(&mut r, ':');
    push_char(&mut r, '"');
    let inner = json_escape(value);
    push_str(&mut r, inner.as_str());
    push_char(&mut r, '"');
    assert(r@ =~= text_member(name@, value@));
    r
}

/// Makes a member whose value is a number.
fn make_number_member(name: &str, value: u64) -> (r: String)
    ensures
        r@ == number_member(name@, value),
{
    let mut r = String::new();
    push_char(&mut r, '"');
    push_str(&mut r, name);
    push_char(&mut r, '"');
    push_char(&mut r, ':');
    push_decimal(&mut r, value);
    assert(r@ =~= number_member(name@, value));
    r
}

/// Makes a member whose value is a number or null.
fn make_optional_member(name: &str, value: Option<u64>) -> (r: String)
    ensures
        r@ == optional_member(name@, value),
{
    let mut r = String::new();
    push_char(&mut r, '"');
    push_str(&mut r, name);
    push_char(&mut r, '"');
    push_char(&mut r, ':');
    match value {
        Some(n) => push_decimal(&mut r, n),
        None => push_str(&mut r, "null"),
    }
    assert(r@ =~= optional_member(name@, value));
    r
}

/// Makes an object of the given members.
fn make_object(members: &Vec<String>) -> (r: String)
    ensures
        r@ == object_of(views(members@)),
{
    let mut r = String::new();
    push_char(&mut r, '{');
    let body = join_texts(members, ", ");
    push_str(&mut r, body.as_str());
    push_char(&mut r, '}');
    assert(r@ =~= object_of(views(members@)));
    r
}

/// Makes a list of the given items.
fn make_list(items: &Vec<String>) -> (r: String)
    ensures
        r@ == list_of(views(items@)),
{
    let mut r = String::new();
    push_char(&mut r, '[');
    let body = join_texts(items, ", ");
    push_str(&mut r, body.as_str());
    push_char(&mut r, ']');
    assert(r@ =~= list_of(views(items@)));
    r
}

/// A set of changes as a JSON object.
pub open spec fn change_json(e: ChangeView) -> Seq<char> {
    object_of(
        seq![
            text_member("repo"@, e.repo),
            text_member("branch"@, e.branch),
            number_member("lines"@, e.lines),
            number_member("files"@, e.files),
            number_member("untracked"@, e.untracked),
            text_member("root"@, e.root_full),
        ],
    )
}

/// Makes the object for a set of changes.
fn make_change(
    repo: &str,
    branch: &str,
    lines: u64,
    files: u64,
    untracked: u64,
    root_full: &str,
) -> (r: String)
    ensures
        r@ == object_of(
            seq![
                text_member("repo"@, repo@),
                text_member("branch"@, branch@),
                number_member("lines"@, lines),
                number_member("files"@, files),
                number_member("untracked"@, untracked),
                text_member("root"@, root_full@),
            ],
        ),
{
    let mut members: Vec<String> = Vec::new();
    members.push(make_text_member("repo", repo));
    members.push(make_text_member("branch", branch));
    members.push(make_number_member("lines", lines));
    members.push(make_number_member("files", files));
    members.push(make_number_member("untracked", untracked));
    members.push(make_text_member("root", root_full));
    assert(views(members@) =~= seq![
        text_member("repo"@, repo@),
        text_member("branch"@, branch@),
        number_member("lines"@, lines),
        number_member("files"@, files),
        number_member("untracked"@, untracked),
        text_member("root"@, root_full@),
    ]);
    make_object(&members)
}

/// Writes the member that lists the uncommitted changes.
pub fn write_uncommitted(out: &mut String, data: &ReportData)
    ensures
        final(out)@ == old(out)@ + "\"uncommitted\": "@ + list_of(
            data@.uncommitted.map_values(|e: ChangeView| change_json(e)),
        ),
{
    let ghost wanted = data@.uncommitted.map_values(|e: ChangeView| change_json(e));
    let mut items: Vec<String> = Vec::new();
    let mut i: usize = 0;
    assert(views(items@) =~= wanted.take(0));
    while i < data.uncommitted.len()
        invariant
            i <= data.uncommitted.len(),
            wanted == data@.uncommitted.map_values(|e: ChangeView| change_json(e)),
            views(items@) == wanted.take(i as int),
        decreases data.uncommitted.len() - i,
    {
        let e = &data.uncommitted[i];
        let ghost before = views(items@);
        let item = make_change(
            e.repo.as_str(),
            e.branch.as_str(),
            e.lines,
            e.files,
            e.untracked,
            e.root_full.as_str(),
        );
        assert(item@ == wanted[i as int]);
        items.push(item);
        assert(views(items@) =~= before.push(wanted[i as int]));
        assert(wanted.take(i + 1) =~= wanted.take(i as int).push(wanted[i as int]));
        i += 1;
    }
    assert(wanted.take(data.uncommitted.len() as int) =~= wanted);
    push_str(out, "\"uncommitted\": ");
    let list = make_list(&items);
    push_str(out, list.as_str());
    assert(final(out)@ =~= old(out)@ + "\"uncommitted\": "@ + list_of(wanted));
}

/// Writes the member that lists the staged changes.
pub fn write_staged(out: &mut String, data: &ReportData)
    ensures
        final(out)@ == old(out)@ + ", \"staged\": "@ + list_of(
            data@.staged.map_values(|e: ChangeView| change_json(e)),
        ),
{
    let ghost wanted = data@.staged.map_values(|e: ChangeView| change_json(e));
    let mut items: Vec<String> = Vec::new();
    let mut i: usize = 0;
    assert(views(items@) =~= wanted.take(0));
    while i < data.staged.len()
        invariant
            i <= data.staged.len(),
            wanted == data@.staged.map_values(|e: ChangeView| change_json(e)),
            views(items@) == wanted.take(i as int),
        decreases data.staged.len() - i,
    {
        let e = &data.staged[i];
        let ghost before = views(items@);
        let item = make_change(
            e.repo.as_str(),
            e.branch.as_str(),
            e.lines,
            e.files,
            e.untracked,
            e.root_full.as_str(),
        );
        assert(item@ == wanted[i as int]);
        items.push(item);
        assert(views(items@) =~= before.push(wanted[i as int]));
        assert(wanted.take(i + 1) =~= wanted.take(i as int).push(wanted[i as int]));
        i += 1;
    }
    assert(wanted.take(data.staged.len() as int) =~= wanted);
    push_str(out, ", \"staged\": ");
    let list = make_list(&items);
    push_str(out, list.as_str());
    assert(final(out)@ =~= old(out)@ + ", \"staged\": "@ + list_of(wanted));
}

/// A pushable branch as a JSON object.
pub open spec fn pushable_json(e: PushableView) -> Seq<char> {
    object_of(
        seq![
            text_member("repo"@, e.repo),
            text_member("branch"@, e.branch),
            number_member("revs"@, e.revs),
            optional_member("earliest_secs"@, e.earliest_secs),
            optional_member("latest_secs"@, e.latest_secs),
            text_member("root"@, e.root_full),
        ],
    )
}

/// Writes the member that lists the pushable branches.
pub fn write_pushable(out: &mut String, data: &ReportData)
    ensures
        final(out)@ == old(out)@ + ", \"pushable\": "@ + list_of(
            data@.pushable.map_values(|e: PushableView| pushable_json(e)),
        ),
{
    let ghost wanted = data@.pushable.map_values(|e: PushableView| pushable_json(e));
    let mut items: Vec<String> = Vec::new();
    let mut i: usize = 0;
    assert(views(items@) =~= wanted.take(0));
    while i < data.pushable.len()
        invariant
            i <= data.pushable.len(),
            wanted == data@.pushable.map_values(|e: PushableView| pushable_json(e)),
            views(items@) == wanted.take(i as int),
        decreases data.pushable.len() - i,
    {
        let e = &data.pushable[i];
        let ghost before = views(items@);
        let mut members: Vec<String> = Vec::new();
        members.push(make_text_member("repo", e.repo.as_str()));
        members.push(make_text_member("branch", e.branch.as_str()));
        members.push(make_number_member("revs", e.revs));
        members.push(make_optional_member("earliest_secs", e.earliest_secs));
        members.push(make_optional_member("latest_secs", e.latest_secs));
        members.push(make_text_member("root", e.root_full.as_str()));
        assert(views(members@) =~= seq![
            text_member("repo"@, e@.repo),
            text_member("branch"@, e@.branch),
            number_member("revs"@, e@.revs),
            optional_member("earliest_secs"@, e@.earliest_secs),
            optional_member("latest_secs"@, e@.latest_secs),
            text_member("root"@, e@.root_full),
        ]);
        let item = make_object(&members);
        assert(item@ == wanted[i as int]);
        items.push(item);
        assert(views(items@) =~= before.push(wanted[i as int]));
        assert(wanted.take(i + 1) =~= wanted.take(i as int).push(wanted[i as int]));
        i += 1;
    }
    assert(wanted.take(data.pushable.len() as int) =~= wanted);
    push_str(out, ", \"pushable\": ");
    let list = make_list(&items);
    push_str(out, list.as_str());
    assert(final(out)@ =~= old(out)@ + ", \"pushable\": "@ + list_of(wanted));
}

/// The word for a reason.
pub open spec fn reason_json(reason: UntrackedReason) -> Seq<char> {
    match reason {
        UntrackedReason::Ignored => "ignored"@,
        UntrackedReason::MissingConfig => "missing_config"@,
        UntrackedReason::MissingRepo => "missing_repo"@,
    }
}

/// A repository outside the audit as a JSON object.
pub open spec fn untracked_json(e: UntrackedView) -> Seq<char> {
    object_of(
        seq![
            text_member("repo"@, e.repo),
            text_member("branch"@, e.branch),
            text_member("root"@, e.root_full),
            text_member("root_display"@, e.root_display),
            optional_member("revs"@, e.revs),
            optional_member("earliest_secs"@, e.earliest_secs),
            optional_member("latest_secs"@, e.latest_secs),
            text_member("reason"@, reason_json(e.reason)),
        ],
    )
}

/// The value of the member for the repositories outside the audit: null
/// where they were not looked for.
pub open spec fn untracked_value(data: ReportView) -> Seq<char> {
    if data.untracked_enabled {
        list_of(data.untracked_repos.map_values(|e: UntrackedView| untracked_json(e)))
    } else {
        "null"@
    }
}

/// Writes the member for the repositories outside the audit.
pub fn write_untracked(out: &mut String, data: &ReportData)
    ensures
        final(out)@ == old(out)@ + ", \"untracked_repos\": "@ + untracked_value(data@),
{
    push_str(out, ", \"untracked_repos\": ");
    if !data.untracked_enabled {
        push_str(out, "null");
        assert(final(out)@ =~= old(out)@ + ", \"untracked_repos\": "@ + untracked_value(data@));
        return ;
    }
    let ghost wanted = data@.untracked_repos.map_values(|e: UntrackedView| untracked_json(e));
    let mut items: Vec<String> = Vec::new();
    let mut i: usize = 0;
    assert(views(items@) =~= wanted.take(0));
    while i < data.untracked_repos.len()
        invariant
            i <= data.untracked_repos.len(),
            wanted == data@.untracked_repos.map_values(|e: UntrackedView| untracked_json(e)),
            views(items@) == wanted.take(i as int),
        decreases data.untracked_repos.len() - i,
    {
        let e = &data.untracked_repos[i];
        let ghost before = views(items@);
        let reason = match e.reason {
            UntrackedReason::Ignored => "ignored",
            UntrackedReason::MissingConfig => "missing_config",
            UntrackedReason::MissingRepo => "missing_repo",
        };
        let mut members: Vec<String> = Vec::new();
        members.push(make_text_member("repo", e.repo.as_str()));
        members.push(make_text_member("branch", e.branch.as_str()));
        members.push(make_text_member("root", e.root_full.as_str()));
        members.push(make_text_member("root_display", e.root_display.as_str()));
        members.push(make_optional_member("revs", e.revs));
        members.push(make_optional_member("earliest_secs", e.earliest_secs));
        members.push(make_optional_member("latest_secs", e.latest_secs));
        members.push(make_text_member("reason", reason));
        assert(views(members@) =~= seq![
            text_member("repo"@, e@.repo),
            text_member("branch"@, e@.branch),
            text_member("root"@, e@.root_full),
            text_member("root_display"@, e@.root_display),
            optional_member("revs"@, e@.revs),
            optional_member("earliest_secs"@, e@.earliest_secs),
            optional_member("latest_secs"@, e@.latest_secs),
            text_member("reason"@, reason_json(e@.reason)),
        ]);
        let item = make_object(&members);
        assert(item@ == wanted[i as int]);
        items.push(item);
        assert(views(items@) =~= before.push(wanted[i as int]));
        assert(wanted.take(i + 1) =~= wanted.take(i as int).push(wanted[i as int]));
        i += 1;
    }
    assert(wanted.take(data.untracked_repos.len() as int) =~= wanted);
    let list = make_list(&items);
    push_str(out, list.as_str());
    assert(final(out)@ =~= old(out)@ + ", \"untracked_repos\": "@ + untracked_value(data@));
}

/// An audit finding as a JSON object.
pub open spec fn git_rewrite_json(e: GitRewriteView) -> Seq<char> {
    object_of(
        seq![
            text_member("source_repo"@, e.source_repo),
            text_member("source_branch"@, e.source_branch),
            text_member("source_path"@, e.source_path),
            text_member("target_repo"@, e.target_repo),
            text_member("target_branch"@, e.target_branch),
            text_member("target_path"@, e.target_path),
            number_member("commits"@, e.commits),
            optional_member("earliest_secs"@, e.earliest_secs),
            optional_member("latest_secs"@, e.latest_secs),
        ],
    )
}

/// The value of the member for the audit: null where no audit was made.
pub open spec fn git_rewrite_value(data: ReportView) -> Seq<char> {
    match data.git_rewrite {
        Some(entries) => list_of(entries.map_values(|e: GitRewriteView| git_rewrite_json(e))),
        None => "null"@,
    }
}

/// Writes the member for the audit.
pub fn write_git_rewrite(out: &mut String, data: &ReportData)
    ensures
        final(out)@ == old(out)@ + ", \"git_rewrite\": "@ + git_rewrite_value(data@),
{
    push_str(out, ", \"git_rewrite\": ");
    let entries = match &data.git_rewrite {
        Some(entries) => entries,
        None => {
            push_str(out, "null");
            assert(final(out)@ =~= old(out)@ + ", \"git_rewrite\": "@ + git_rewrite_value(data@));
            return ;
        },
    };
    let ghost wanted = views(entries@).map_values(|e: GitRewriteView| git_rewrite_json(e));
    let mut items: Vec<String> = Vec::new();
    let mut i: usize = 0;
    assert(views(items@) =~= wanted.take(0));
    while i < entries.len()
        invariant
            i <= entries.len(),
            wanted == views(entries@).map_values(|e: GitRewriteView| git_rewrite_json(e)),
            views(items@) == wanted.take(i as int),
        decreases entries.len() - i,
    {
        let e = &entries[i];
        let ghost before = views(items@);
        let mut members: Vec<String> = Vec::new();
        members.push(make_text_member("source_repo", e.source_repo.as_str()));
        members.push(make_text_member("source_branch", e.source_branch.as_str()));
        members.push(make_text_member("source_path", e.source_path.as_str()));
        members.push(make_text_member("target_repo", e.target_repo.as_str()));
        members.push(make_text_member("target_branch", e.target_branch.as_str()));
        members.push(make_text_member("target_path", e.target_path.as_str()));
        members.push(make_number_member("commits", e.commits));
        members.push(make_optional_member("earliest_secs", e.earliest_secs));
        members.push(make_optional_member("latest_secs", e.latest_secs));
        assert(views(members@) =~= seq![
            text_member("source_repo"@, e@.source_repo),
            text_member("source_branch"@, e@.source_branch),
            text_member("source_path"@, e@.source_path),
            text_member("target_repo"@, e@.target_repo),
            text_member("target_branch"@, e@.target_branch),
            text_member("target_path"@, e@.target_path),
            number_member("commits"@, e@.commits),
            optional_member("earliest_secs"@, e@.earliest_secs),
            optional_member("latest_secs"@, e@.latest_secs),
        ]);
        let item = make_object(&members);
        assert(item@ == wanted[i as int]);
        items.push(item);
        assert(views(items@) =~= before.push(wanted[i as int]));
        assert(wanted.take(i + 1) =~= wanted.take(i as int).push(wanted[i as int]));
        i += 1;
    }
    assert(wanted.take(entries.len() as int) =~= wanted);
    let list = make_list(&items);
    push_str(out, list.as_str());
    assert(final(out)@ =~= old(out)@ + ", \"git_rewrite\": "@ + git_rewrite_value(data@));
}

/// The report as one JSON object.
pub open spec fn json_of(data: ReportView) -> Seq<char> {
    seq!['{'] + "\"uncommitted\": "@ + list_of(
        data.uncommitted.map_values(|e: ChangeView| change_json(e)),
    ) + ", \"staged\": "@ + list_of(data.staged.map_values(|e: ChangeView| change_json(e)))
        + ", \"pushable\": "@ + list_of(data.pushable.map_values(|e: PushableView| pushable_json(e)))
        + ", \"untracked_repos\": "@ + untracked_value(data) + ", \"git_rewrite\": "@
        + git_rewrite_value(data) + seq!['}']
}

/// Writes the report as one JSON object: the uncommitted changes, the staged
/// changes, the pushable branches, the repositories outside the audit and
/// the audit's findings; the last two are null where there are none to tell.
pub fn to_json(data: &ReportData) -> (r: String)
    ensures
        r@ == json_of(data@),
{
    let mut out = String::new();
    push_char(&mut out, '{');
    write_uncommitted(&mut out, data);
    write_staged(&mut out, data);
    write_pushable(&mut out, data);
    write_untracked(&mut out, data);
    write_git_rewrite(&mut out, data);
    push_char(&mut out, '}');
    assert(out@ =~= json_of(data@));
    out
}

} // verus!

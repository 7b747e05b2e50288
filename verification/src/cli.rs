//! The sendmail-compatible ingestion path: parsing a line-oriented input
//! stream into subject, recipient and body, and the helpers around the
//! command-line send (recipient fallback, attachment size cap, file names).
//!
//! Reading standard input and the attachment files happens outside this
//! crate; the lines and byte lengths are handed in as plain values.

use vstd::prelude::*;
use vstd::string::StringExecFns;

use crate::errors::ServiceError;
use crate::strs::{spec_occurs_at, spec_starts_with, str_contains_char, str_find, str_range_owned,
    str_starts_with};

verus! {

/// The command-line arguments, as plain values. The boundary layer parses
/// the actual command line and hands this over.
#[derive(Debug, Clone)]
pub struct Args {
    pub attachment: Option<Vec<String>>,
    pub config: Option<String>,
    pub body_type: Option<String>,
    pub full_name: Option<String>,
    pub ignore: bool,
    pub listen: Option<String>,
    pub level: Option<String>,
    pub recipient: Option<String>,
    pub subject: Option<String>,
    pub text: Option<String>,
    pub ox: Option<String>,
}

/// Whether the invocation is a command-line send rather than the server:
/// a subject or a sender full name on the command line selects it.
pub fn cli_mode(args: &Args) -> (r: bool)
    ensures
        r == (args.subject is Some || args.full_name is Some),
{
    args.subject.is_some() || args.full_name.is_some()
}

/// The listening address: the command line wins over the configuration.
pub fn listen_address(listen_arg: &Option<String>, configured: &String) -> (r: String)
    ensures
        listen_arg matches Some(l) ==> r@ == l@,
        listen_arg is None ==> r@ == configured@,
{
    match listen_arg {
        Some(l) => l.clone(),
        None => configured.clone(),
    }
}

// ------------------------------------------------------------------
// Header-line prefixes that never become body content
// ------------------------------------------------------------------

/// The mail-transport header prefixes that are dropped from the stream.
pub open spec fn spec_ignored_prefixes() -> Seq<Seq<char>> {
    seq![
        "From:"@,
        "To:"@,
        "Subject:"@,
        "MIME-Version:"@,
        "Content-Type:"@,
        "Content-Transfer-Encoding:"@,
        "X-Cron-Env:"@,
    ]
}

/// The line starts with one of the transport header prefixes.
pub open spec fn spec_ignore_start(line: Seq<char>) -> bool {
    exists|i: int|
        0 <= i < spec_ignored_prefixes().len() && spec_starts_with(
            line,
            spec_ignored_prefixes()[i],
        )
}

/// Whether the line starts with a mail-transport header prefix.
pub fn ignore_start(input: &str) -> (b: bool)
    ensures
        b == spec_ignore_start(input@),
{
    let ghost ps = spec_ignored_prefixes();
    if str_starts_with(input, "From:") {
        proof {
            assert(spec_starts_with(input@, ps[0]));
        }
        return true;
    }
    if str_starts_with(input, "To:") {
        proof {
            assert(spec_starts_with(input@, ps[1]));
        }
        return true;
    }
    if str_starts_with(input, "Subject:") {
        proof {
            assert(spec_starts_with(input@, ps[2]));
        }
        return true;
    }
    if str_starts_with(input, "MIME-Version:") {
        proof {
            assert(spec_starts_with(input@, ps[3]));
        }
        return true;
    }
    if str_starts_with(input, "Content-Type:") {
        proof {
            assert(spec_starts_with(input@, ps[4]));
        }
        return true;
    }
    if str_starts_with(input, "Content-Transfer-Encoding:") {
        proof {
            assert(spec_starts_with(input@, ps[5]));
        }
        return true;
    }
    if str_starts_with(input, "X-Cron-Env:") {
        proof {
            assert(spec_starts_with(input@, ps[6]));
        }
        return true;
    }
    proof {
        assert forall|i: int| 0 <= i < ps.len() implies !spec_starts_with(input@, ps[i]) by {
            if i == 0 {
                assert(ps[0] == "From:"@);
            } else if i == 1 {
                assert(ps[1] == "To:"@);
            } else if i == 2 {
                assert(ps[2] == "Subject:"@);
            } else if i == 3 {
                assert(ps[3] == "MIME-Version:"@);
            } else if i == 4 {
                assert(ps[4] == "Content-Type:"@);
            } else if i == 5 {
                assert(ps[5] == "Content-Transfer-Encoding:"@);
            } else {
                assert(ps[6] == "X-Cron-Env:"@);
            }
        }
    }
    false
}

// ------------------------------------------------------------------
// Header value extraction
// ------------------------------------------------------------------

/// The first position from `i` on at which `p` occurs in `s`.
pub open spec fn spec_find_from(s: Seq<char>, p: Seq<char>, i: int) -> Option<int>
    decreases s.len() + 1 - i,
{
    if i < 0 || i + p.len() > s.len() {
        None
    } else if spec_occurs_at(s, p, i) {
        Some(i)
    } else {
        spec_find_from(s, p, i + 1)
    }
}

/// The value of a header-style line: what follows the first `": "`.
pub open spec fn spec_header_value(line: Seq<char>) -> Option<Seq<char>> {
    match spec_find_from(line, ": "@, 0) {
        Some(i) => Some(line.subrange(i + 2, line.len() as int)),
        None => None,
    }
}

proof fn lemma_find_from_hit(s: Seq<char>, p: Seq<char>, m: int, i: int)
    requires
        0 <= m <= i,
        spec_occurs_at(s, p, i),
        forall|j: int| m <= j < i ==> !spec_occurs_at(s, p, j),
    ensures
        spec_find_from(s, p, m) == Some(i),
    decreases i - m,
{
    if m < i {
        lemma_find_from_hit(s, p, m + 1, i);
    }
}

proof fn lemma_find_from_miss(s: Seq<char>, p: Seq<char>, m: int)
    requires
        0 <= m,
        forall|j: int| !spec_occurs_at(s, p, j),
    ensures
        spec_find_from(s, p, m) is None,
    decreases s.len() + 1 - m,
{
    if !(m + p.len() > s.len()) {
        lemma_find_from_miss(s, p, m + 1);
    }
}

/// What follows the first `": "` of the line, if the line has one.
fn header_value(line: &str) -> (r: Option<String>)
    ensures
        match r {
            Some(v) => spec_header_value(line@) == Some(v@),
            None => spec_header_value(line@) is None,
        },
{
    proof {
        reveal_strlit(": ");
    }
    match str_find(line, ": ") {
        Some(i) => {
            proof {
                lemma_find_from_hit(line@, ": "@, 0, i as int);
            }
            let len = line.unicode_len();
            Some(str_range_owned(line, i + 2, len))
        },
        None => {
            proof {
                lemma_find_from_miss(line@, ": "@, 0);
            }
            None
        },
    }
}

// ------------------------------------------------------------------
// The stream parser
// ------------------------------------------------------------------

/// One parser step over a line, on the state (subject, recipient, body
/// lines).
///
/// A `Subject:` line overrides the subject. A `To:` line overrides the
/// recipient only when its value contains an `@`. Other transport header
/// lines, and blank lines before any body content, are dropped. A header
/// line without a `": "` separator is dropped without effect. Everything
/// else is body content.
pub open spec fn spec_cli_step(
    st: (Seq<char>, Seq<char>, Seq<Seq<char>>),
    line: Seq<char>,
) -> (Seq<char>, Seq<char>, Seq<Seq<char>>) {
    if spec_starts_with(line, "Subject:"@) {
        match spec_header_value(line) {
            Some(v) => (v, st.1, st.2),
            None => st,
        }
    } else if spec_starts_with(line, "To:"@) {
        match spec_header_value(line) {
            Some(v) => if v.contains('@') {
                (st.0, v, st.2)
            } else {
                st
            },
            None => st,
        }
    } else if !(spec_ignore_start(line) || (st.2.len() == 0 && line.len() == 0)) {
        (st.0, st.1, st.2.push(line))
    } else {
        st
    }
}

/// The parser state after the first `n` lines.
pub open spec fn spec_cli_fold(
    lines: Seq<Seq<char>>,
    st: (Seq<char>, Seq<char>, Seq<Seq<char>>),
    n: int,
) -> (Seq<char>, Seq<char>, Seq<Seq<char>>)
    decreases n,
{
    if n <= 0 {
        st
    } else {
        spec_cli_step(spec_cli_fold(lines, st, n - 1), lines[n - 1])
    }
}

/// The first `n` parts joined with newline separators.
pub open spec fn spec_join_nl(parts: Seq<Seq<char>>, n: int) -> Seq<char>
    decreases n,
{
    if n <= 0 {
        Seq::empty()
    } else if n == 1 {
        parts[0]
    } else {
        spec_join_nl(parts, n - 1) + "\n"@ + parts[n - 1]
    }
}

/// Parses the input lines into subject, recipient and newline-joined body,
/// starting from the subject and recipient the command line supplied.
pub fn parse_stdin(lines: &Vec<String>, subject0: &String, recipient0: &String) -> (r: (
    String,
    String,
    String,
))
    ensures
        ({
            let st = spec_cli_fold(
                lines.deep_view(),
                (subject0@, recipient0@, Seq::empty()),
                lines.deep_view().len() as int,
            );
            r.0@ == st.0 && r.1@ == st.1 && r.2@ == spec_join_nl(st.2, st.2.len() as int)
        }),
{
    let mut subject = subject0.clone();
    let mut recipient = recipient0.clone();
    let mut body: Vec<String> = Vec::new();
    let n = lines.len();
    let mut i: usize = 0;
    while i < n
        invariant
            i <= n,
            n == lines.len(),
            (subject@, recipient@, body.deep_view()) == spec_cli_fold(
                lines.deep_view(),
                (subject0@, recipient0@, Seq::<Seq<char>>::empty()),
                i as int,
            ),
        decreases n - i,
    {
        let ghost pre = (subject@, recipient@, body.deep_view());
        let line = lines[i].as_str();
        proof {
            assert(lines.deep_view()[i as int] == lines@[i as int]@);
        }
        if str_starts_with(line, "Subject:") {
            match header_value(line) {
                Some(v) => {
                    subject = v;
                },
                None => {},
            }
        } else if str_starts_with(line, "To:") {
            match header_value(line) {
                Some(v) => {
                    if str_contains_char(v.as_str(), '@') {
                        recipient = v;
                    }
                },
                None => {},
            }
        } else {
            let drop_line = ignore_start(line) || (body.len() == 0 && line.is_empty());
            if !drop_line {
                body.push(lines[i].clone());
                proof {
                    assert(body.deep_view() =~= pre.2.push(line@));
                }
            }
        }
        proof {
            assert((subject@, recipient@, body.deep_view()) == spec_cli_step(
                pre,
                lines.deep_view()[i as int],
            ));
        }
        i = i + 1;
    }

    let mut joined = String::new();
    let m = body.len();
    let mut k: usize = 0;
    while k < m
        invariant
            k <= m,
            m == body.len(),
            joined@ == spec_join_nl(body.deep_view(), k as int),
        decreases m - k,
    {
        if k > 0 {
            joined.append("\n");
        }
        joined.append(body[k].as_str());
        proof {
            assert(body.deep_view()[k as int] == body@[k as int]@);
        }
        k = k + 1;
    }
    (subject, recipient, joined)
}

// ------------------------------------------------------------------
// Command-line helpers
// ------------------------------------------------------------------

/// When no recipient was given and more than one trailing argument stands
/// in the file list, the last one is the recipient, not a file.
pub fn take_recipient_from_files(files: Vec<String>, recipient: Option<String>) -> (r: (
    Option<String>,
    Vec<String>,
))
    ensures
        (recipient is None && files@.len() > 1) ==> r.0 == Some(files@[files@.len() - 1])
            && r.1@ == files@.take(files@.len() - 1),
        !(recipient is None && files@.len() > 1) ==> r.0 == recipient && r.1 == files,
{
    let mut files = files;
    if files.len() > 1 && recipient.is_none() {
        let last = files.pop();
        (last, files)
    } else {
        (recipient, files)
    }
}

/// A recipient without an `@` is not an address: when a configured alias
/// exists it replaces such a recipient.
pub fn resolve_cli_recipient(recipient: String, alias: &String) -> (r: String)
    ensures
        (!recipient@.contains('@') && alias@.len() > 0) ==> r@ == alias@,
        (recipient@.contains('@') || alias@.len() == 0) ==> r@ == recipient@,
{
    if !str_contains_char(recipient.as_str(), '@') && !alias.as_str().is_empty() {
        alias.clone()
    } else {
        recipient
    }
}

/// The command-line send needs a recipient: without one the send is
/// refused up front, before any message is built.
pub fn require_recipient(recipient: Option<String>) -> (r: Result<String, ServiceError>)
    ensures
        recipient matches Some(s) ==> r == Ok::<String, ServiceError>(s),
        recipient is None ==> (r matches Err(e) && e matches ServiceError::Conflict(m) && m@
            == "No mail recipient available!"@),
{
    match recipient {
        Some(s) => Ok(s),
        None => Err(ServiceError::Conflict(String::from_str("No mail recipient available!"))),
    }
}

/// The subject used when the command line supplies none.
pub fn cli_subject(arg: &Option<String>) -> (r: String)
    ensures
        arg matches Some(s) ==> r@ == s@,
        arg is None ==> r@ == "No Subject"@,
{
    match arg {
        Some(s) => s.clone(),
        None => String::from_str("No Subject"),
    }
}

/// Checks one more attachment against the total size cap before its bytes
/// are read: the running total grows by the file's length and must never
/// pass the cap; a file that would pass it (or overflow the total) is a
/// conflict and the send is abandoned, not partial.
pub fn check_attachment_size(total: u64, file_len: u64, cap: u64) -> (r: Result<u64, ServiceError>)
    ensures
        r matches Ok(new_total) ==> total + file_len <= cap && new_total == total + file_len,
        r is Err <==> total + file_len > cap,
        r matches Err(e) ==> e matches ServiceError::Conflict(m) && m@ == "Attachment to big!"@,
{
    match total.checked_add(file_len) {
        Some(new_total) => {
            if new_total > cap {
                Err(ServiceError::Conflict(String::from_str("Attachment to big!")))
            } else {
                Ok(new_total)
            }
        },
        None => Err(ServiceError::Conflict(String::from_str("Attachment to big!"))),
    }
}

/// The last path segment of `path`: what follows the final `/`, or the
/// whole path without one; an empty segment falls back to a generic name.
pub open spec fn spec_basename(path: Seq<char>) -> Seq<char> {
    let tail = match spec_rfind_slash(path) {
        Some(i) => path.subrange(i + 1, path.len() as int),
        None => path,
    };
    if tail.len() == 0 {
        "file"@
    } else {
        tail
    }
}

/// The position of the last `/` in `s`, if any.
pub open spec fn spec_rfind_slash(s: Seq<char>) -> Option<int>
    decreases s.len(),
{
    if s.len() == 0 {
        None
    } else if s.last() == '/' {
        Some(s.len() - 1)
    } else {
        spec_rfind_slash(s.drop_last())
    }
}

/// The file name an attachment is labelled with: the last segment of its
/// path, or a generic name when the path yields none.
pub fn file_basename(path: &str) -> (r: String)
    ensures
        r@ == spec_basename(path@),
{
    let len = path.unicode_len();
    let mut j: usize = len;
    while j > 0
        invariant
            j <= len,
            len == path@.len(),
            forall|t: int| j <= t < len ==> path@[t] != '/',
        decreases j,
    {
        if path.get_char(j - 1) == '/' {
            proof {
                lemma_rfind_slash_hit(path@, j - 1);
            }
            let tail = str_range_owned(path, j, len);
            if tail.as_str().is_empty() {
                return String::from_str("file");
            }
            return tail;
        }
        j = j - 1;
    }
    proof {
        lemma_rfind_slash_miss(path@);
    }
    if path.is_empty() {
        return String::from_str("file");
    }
    path.to_owned()
}

proof fn lemma_rfind_slash_hit(s: Seq<char>, i: int)
    requires
        0 <= i < s.len(),
        s[i] == '/',
        forall|t: int| i < t < s.len() ==> s[t] != '/',
    ensures
        spec_rfind_slash(s) == Some(i),
    decreases s.len(),
{
    if i == s.len() - 1 {
    } else {
        lemma_rfind_slash_hit(s.drop_last(), i);
    }
}

proof fn lemma_rfind_slash_miss(s: Seq<char>)
    requires
        forall|t: int| 0 <= t < s.len() ==> s[t] != '/',
    ensures
        spec_rfind_slash(s) is None,
    decreases s.len(),
{
    if s.len() > 0 {
        lemma_rfind_slash_miss(s.drop_last());
    }
}

} // verus!

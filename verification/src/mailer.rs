//! The message pipeline: the outbound message model, the spam filter, the
//! content classifier, the recipient resolver, the composer, and the
//! dispatch outcome rules.
//!
//! The composer is a pure transformation: it builds a transport-ready
//! [`ComposedMail`] and performs no I/O. The boundary layer turns a
//! `ComposedMail` into the wire message and runs the SMTP and archive
//! transports.

use vstd::prelude::*;
use vstd::string::StringExecFns;

use crate::config::Recipients;
use crate::errors::{ConfigError, ServiceError};
use crate::strs::str_eq;

verus! {

/// The canonical outbound message.
///
/// `allow_html` is never trusted from the caller: recipient resolution
/// overwrites it. `direction` comes from the route or CLI context, never
/// from a request body.
#[derive(Debug, Clone)]
pub struct Msg {
    pub attachment: Option<Vec<(String, Vec<u8>)>>,
    pub direction: Option<String>,
    pub allow_html: bool,
    pub mail: String,
    pub subject: String,
    pub text: String,
}

impl Msg {
    pub fn new(
        direction: Option<String>,
        allow_html: bool,
        mail: String,
        subject: String,
        text: String,
        attachment: Option<Vec<(String, Vec<u8>)>>,
    ) -> (r: Self)
        ensures
            r.direction == direction,
            r.allow_html == allow_html,
            r.mail == mail,
            r.subject == subject,
            r.text == text,
            r.attachment == attachment,
    {
        Self { attachment, allow_html, direction, mail, subject, text }
    }
}

impl Default for Msg {
    fn default() -> (r: Self)
        ensures
            r.attachment is None,
            r.allow_html == false,
            r.direction is None,
            r.mail@ == "my@mail.org"@,
            r.subject@ == "My Subject"@,
            r.text@ == "My Text"@,
    {
        Self {
            attachment: None,
            allow_html: false,
            direction: None,
            mail: String::from_str("my@mail.org"),
            subject: String::from_str("My Subject"),
            text: String::from_str("My Text"),
        }
    }
}

// ------------------------------------------------------------------
// Content classification
// ------------------------------------------------------------------

/// How the message body is rendered.
#[derive(Debug, Clone, Copy, PartialEq, Eq, Structural)]
pub enum ContentKind {
    Plain,
    Html,
}

/// What parsing a body as an HTML fragment observes: `None` when the parse
/// fails, otherwise the number of root children and the text of the first
/// root child where that child is a text node.
pub uninterp spec fn dom_parse_shape(text: Seq<char>) -> Option<(int, Option<Seq<char>>)>;

/// Relies on html_parser::Dom::parse: the parse outcome, the number of root
/// children, and the text of the first root child depend on the input alone.
#[verifier::external_body]
fn parse_dom_shape(text: &str) -> (r: Option<(usize, Option<String>)>)
    ensures
        match r {
            Some(shape) => dom_parse_shape(text@) == Some(
                (shape.0 as int, shape.1.deep_view()),
            ),
            None => dom_parse_shape(text@) is None,
        },
{
    match html_parser::Dom::parse(text) {
        Ok(dom) => {
            let n = dom.children.len();
            let first_text = dom.children.first().and_then(|c| c.text()).map(|t| t.to_string());
            Some((n, first_text))
        },
        Err(_) => None,
    }
}

/// A body is rendered plain when HTML is not allowed, when it does not
/// parse as a fragment, or when the parsed fragment is a single text node:
/// a single plain line is never wrapped as HTML.
pub open spec fn spec_is_plain(text: Seq<char>, allow_html: bool) -> bool {
    !allow_html || match dom_parse_shape(text) {
        None => true,
        Some(shape) => shape.0 == 1 && shape.1 is Some,
    }
}

/// Classifies a body as plain text or HTML.
pub fn classify(text: &str, allow_html: bool) -> (k: ContentKind)
    ensures
        k == (if spec_is_plain(text@, allow_html) {
            ContentKind::Plain
        } else {
            ContentKind::Html
        }),
{
    match parse_dom_shape(text) {
        Some(shape) => {
            if (shape.0 == 1 && shape.1.is_some()) || !allow_html {
                ContentKind::Plain
            } else {
                ContentKind::Html
            }
        },
        None => ContentKind::Plain,
    }
}

impl Msg {
    /// The content kind of this message's text under its current
    /// `allow_html` flag.
    pub fn content_type(&self) -> (k: ContentKind)
        ensures
            k == (if spec_is_plain(self.text@, self.allow_html) {
                ContentKind::Plain
            } else {
                ContentKind::Html
            }),
    {
        classify(self.text.as_str(), self.allow_html)
    }
}

/// Classification with HTML disallowed is a fixed point: any text — in
/// particular text already classified and stripped to plain — classifies
/// as plain, however many times it is classified again.
pub proof fn lemma_classify_plain_fixed(text: Seq<char>)
    ensures
        spec_is_plain(text, false),
{
}

/// The text that remains when HTML tags are removed.
pub uninterp spec fn stripped_tags(text: Seq<char>) -> Seq<char>;

/// Relies on voca_rs::strip::strip_tags: removes tags and keeps inner text;
/// the result depends on the input alone, and an empty input stays empty.
#[verifier::external_body]
fn strip_tags(text: &str) -> (r: String)
    ensures
        r@ == stripped_tags(text@),
        text@.len() == 0 ==> r@.len() == 0,
{
    voca_rs::strip::strip_tags(text)
}

// ------------------------------------------------------------------
// Spam filter
// ------------------------------------------------------------------

/// Whether the word-boundary pattern for `word` is well formed.
pub uninterp spec fn word_pattern_ok(word: Seq<char>) -> bool;

/// Whether `text` contains `word` as a whole word.
pub uninterp spec fn word_bounded_match(word: Seq<char>, text: Seq<char>) -> bool;

/// Relies on regex::Regex::new for the word-boundary pattern built from the
/// word: whether it compiles depends on the word alone.
#[verifier::external_body]
fn word_pattern_compiles(word: &str) -> (r: bool)
    ensures
        r == word_pattern_ok(word@),
{
    regex::Regex::new(&format!("\\b{word}\\b")).is_ok()
}

/// Relies on regex::Regex::is_match for the word-boundary pattern built by
/// regex::Regex::new from the word: the result depends on the word and the
/// text alone.
#[verifier::external_body]
fn word_pattern_matches(word: &str, text: &str) -> (r: bool)
    requires
        word_pattern_ok(word@),
    ensures
        r == word_bounded_match(word@, text@),
{
    match regex::Regex::new(&format!("\\b{word}\\b")) {
        Ok(re) => re.is_match(text),
        Err(_) => false,
    }
}

/// Some block word occurs, as a whole word, in the subject or in the text.
pub open spec fn spec_blocked(words: Seq<Seq<char>>, subject: Seq<char>, text: Seq<char>) -> bool {
    exists|i: int|
        0 <= i < words.len() && (word_bounded_match(words[i], subject) || word_bounded_match(
            words[i],
            text,
        ))
}

/// A message whose subject or body carries some configured block word as
/// a whole word is blocked: one matching word suffices, whichever of the
/// two fields it stands in.
pub proof fn lemma_blocked_by_word(
    words: Seq<Seq<char>>,
    subject: Seq<char>,
    text: Seq<char>,
    i: int,
)
    requires
        0 <= i < words.len(),
        word_bounded_match(words[i], subject) || word_bounded_match(words[i], text),
    ensures
        spec_blocked(words, subject, text),
{
}

/// The block-word filter. Construction checks every word once, so a
/// malformed entry fails at startup, never per request.
pub struct SpamFilter {
    words: Vec<String>,
}

impl SpamFilter {
    #[verifier::type_invariant]
    pub closed spec fn wf(&self) -> bool {
        forall|i: int|
            0 <= i < self.words.deep_view().len() ==> word_pattern_ok(self.words.deep_view()[i])
    }

    /// The configured block words.
    pub closed spec fn words_view(&self) -> Seq<Seq<char>> {
        self.words.deep_view()
    }

    /// Builds the filter. A block word whose pattern does not compile is a
    /// configuration error and construction fails.
    pub fn new(block_words: &Vec<String>) -> (r: Result<SpamFilter, ConfigError>)
        ensures
            r is Ok <==> (forall|i: int|
                0 <= i < block_words.deep_view().len() ==> word_pattern_ok(
                    block_words.deep_view()[i],
                )),
            r matches Ok(f) ==> f.words_view() == block_words.deep_view(),
            r matches Err(e) ==> e == ConfigError::MalformedBlockWord,
    {
        let n = block_words.len();
        let mut i: usize = 0;
        while i < n
            invariant
                i <= n,
                n == block_words.len(),
                forall|j: int| 0 <= j < i ==> word_pattern_ok(block_words.deep_view()[j]),
            decreases n - i,
        {
            if !word_pattern_compiles(block_words[i].as_str()) {
                assert(!word_pattern_ok(block_words.deep_view()[i as int]));
                return Err(ConfigError::MalformedBlockWord);
            }
            i = i + 1;
        }
        let filter = SpamFilter { words: block_words.clone() };
        proof {
            vstd::std_specs::vec::vec_clone_deep_view_proof(*block_words, filter.words);
        }
        Ok(filter)
    }

    /// Whether the subject or the text contains a block word as a whole
    /// word. Stops at the first match.
    pub fn is_blocked(&self, subject: &str, text: &str) -> (r: bool)
        ensures
            r == spec_blocked(self.words_view(), subject@, text@),
    {
        proof {
            use_type_invariant(self);
        }
        let n = self.words.len();
        let mut i: usize = 0;
        while i < n
            invariant
                i <= n,
                n == self.words.len(),
                self.wf(),
                forall|j: int|
                    0 <= j < i ==> !word_bounded_match(self.words.deep_view()[j], subject@)
                        && !word_bounded_match(self.words.deep_view()[j], text@),
            decreases n - i,
        {
            let word = self.words[i].as_str();
            assert(word@ == self.words.deep_view()[i as int]) by {
                assert(self.words.deep_view()[i as int] == self.words@[i as int]@);
            }
            if word_pattern_matches(word, subject) || word_pattern_matches(word, text) {
                return true;
            }
            i = i + 1;
        }
        false
    }
}

impl Msg {
    /// Whether this message is rejected by the block-word filter.
    pub fn is_spam(&self, filter: &SpamFilter) -> (r: bool)
        ensures
            r == spec_blocked(filter.words_view(), self.subject@, self.text@),
    {
        filter.is_blocked(self.subject.as_str(), self.text.as_str())
    }
}

// ------------------------------------------------------------------
// Recipient resolution
// ------------------------------------------------------------------

/// How the recipients of a message were chosen.
#[derive(Debug, Clone, Copy, PartialEq, Eq, Structural)]
pub enum ResolveMode {
    /// No direction: the message's own address is the sole recipient.
    Direct,
    /// A direction selected the configured recipient groups.
    Routed,
}

/// The result of recipient resolution.
#[derive(Debug, Clone)]
pub struct Resolution {
    pub recipients: Vec<String>,
    pub allow_html: bool,
    pub mode: ResolveMode,
}

/// The addresses of the groups among the first `n` whose direction equals
/// `d`, in declaration order.
pub open spec fn spec_routed_mails(groups: Seq<Recipients>, d: Seq<char>, n: int) -> Seq<Seq<char>>
    decreases n,
{
    if n <= 0 {
        Seq::empty()
    } else {
        spec_routed_mails(groups, d, n - 1) + (if groups[n - 1]@.direction == d {
            groups[n - 1]@.mails
        } else {
            Seq::empty()
        })
    }
}

/// Whether some group among the first `n` with direction `d` allows HTML.
pub open spec fn spec_routed_html(groups: Seq<Recipients>, d: Seq<char>, n: int) -> bool
    decreases n,
{
    if n <= 0 {
        false
    } else {
        spec_routed_html(groups, d, n - 1) || (groups[n - 1]@.direction == d && groups[n
            - 1]@.allow_html)
    }
}

/// Resolves the recipients of a message.
///
/// Without a direction the mode is direct: the message's own address is the
/// sole recipient and HTML stays allowed (the direct paths carry no group
/// context). With a direction, every group with that direction contributes
/// its addresses in declaration order and its HTML flag is OR-ed in; an
/// unmatched direction yields no recipients and no HTML.
pub fn resolve(direction: &Option<String>, mail: &String, groups: &Vec<Recipients>) -> (r:
    Resolution)
    ensures
        match direction {
            None => r.mode == ResolveMode::Direct && r.recipients.deep_view() == seq![mail@]
                && r.allow_html == true,
            Some(d) => r.mode == ResolveMode::Routed && r.recipients.deep_view()
                == spec_routed_mails(groups@, d@, groups@.len() as int) && r.allow_html
                == spec_routed_html(groups@, d@, groups@.len() as int),
        },
{
    match direction {
        None => {
            let mut recipients: Vec<String> = Vec::new();
            recipients.push(mail.clone());
            assert(recipients.deep_view() =~= seq![mail@]);
            Resolution { recipients, allow_html: true, mode: ResolveMode::Direct }
        },
        Some(d) => {
            let mut recipients: Vec<String> = Vec::new();
            let mut allow_html = false;
            let n = groups.len();
            let mut i: usize = 0;
            while i < n
                invariant
                    i <= n,
                    n == groups.len(),
                    recipients.deep_view() == spec_routed_mails(groups@, d@, i as int),
                    allow_html == spec_routed_html(groups@, d@, i as int),
                decreases n - i,
            {
                let group = &groups[i];
                if str_eq(group.direction.as_str(), d.as_str()) {
                    let m = group.mails.len();
                    let mut k: usize = 0;
                    while k < m
                        invariant
                            k <= m,
                            i < n,
                            n == groups.len(),
                            m == groups@[i as int].mails.len(),
                            groups@[i as int]@.direction == d@,
                            recipients.deep_view() == spec_routed_mails(groups@, d@, i as int)
                                + groups@[i as int]@.mails.take(k as int),
                        decreases m - k,
                    {
                        let ghost pre = recipients.deep_view();
                        let addr = groups[i].mails[k].clone();
                        proof {
                            assert(addr@ == groups@[i as int]@.mails[k as int]) by {
                                assert(groups@[i as int]@.mails[k as int] == groups@[i as
                                    int].mails@[k as int]@);
                            }
                        }
                        recipients.push(addr);
                        proof {
                            assert(recipients.deep_view() =~= pre.push(addr@));
                            assert(groups@[i as int]@.mails.take(k + 1) =~= groups@[i as
                                int]@.mails.take(k as int).push(groups@[i as int]@.mails[k as int]));
                            assert(recipients.deep_view() =~= spec_routed_mails(
                                groups@,
                                d@,
                                i as int,
                            ) + groups@[i as int]@.mails.take(k + 1));
                        }
                        k = k + 1;
                    }
                    if group.allow_html {
                        allow_html = true;
                    }
                    proof {
                        assert(groups@[i as int]@.mails.take(m as int)
                            =~= groups@[i as int]@.mails);
                    }
                } else {
                    assert(recipients.deep_view() =~= spec_routed_mails(groups@, d@, i as int)
                        + Seq::<Seq<char>>::empty());
                }
                i = i + 1;
            }
            Resolution { recipients, allow_html, mode: ResolveMode::Routed }
        },
    }
}

/// An unmatched direction resolves to no recipients and no HTML: for every
/// direction that no configured group carries, the routed address list is
/// empty and the HTML flag stays off.
pub proof fn lemma_resolve_unmatched(groups: Seq<Recipients>, d: Seq<char>, n: int)
    requires
        0 <= n <= groups.len(),
        forall|i: int| 0 <= i < groups.len() ==> groups[i]@.direction != d,
    ensures
        spec_routed_mails(groups, d, n) == Seq::<Seq<char>>::empty(),
        spec_routed_html(groups, d, n) == false,
    decreases n,
{
    if n > 0 {
        lemma_resolve_unmatched(groups, d, n - 1);
        assert(spec_routed_mails(groups, d, n) =~= Seq::<Seq<char>>::empty());
    }
}

// ------------------------------------------------------------------
// Composition
// ------------------------------------------------------------------

/// Whether an address (or a display-name form such as `Name <user@host>`)
/// is accepted by the transport's mailbox grammar.
pub uninterp spec fn mailbox_ok(addr: Seq<char>) -> bool;

/// Relies on lettre's mailbox parser (FromStr for lettre::message::Mailbox):
/// whether an address string parses depends on the string alone.
#[verifier::external_body]
fn mailbox_valid(addr: &str) -> (r: bool)
    ensures
        r == mailbox_ok(addr@),
{
    addr.parse::<lettre::message::Mailbox>().is_ok()
}

/// The MIME type sniffed from a buffer's leading magic bytes, if known.
pub uninterp spec fn sniffed_mime(bytes: Seq<u8>) -> Option<Seq<char>>;

/// Relies on infer::get and infer::Type::mime_type: the sniffed type
/// depends on the bytes of the buffer alone.
#[verifier::external_body]
fn sniff_mime(bytes: &Vec<u8>) -> (r: Option<String>)
    ensures
        r.deep_view() == sniffed_mime(bytes@),
{
    infer::get(bytes.as_slice()).map(|k| k.mime_type().to_string())
}

/// The MIME type an attachment is sent with: the sniffed type, or the
/// generic binary type when the content is unknown. Unknown content is
/// never rejected.
pub open spec fn spec_mime_or_default(bytes: Seq<u8>) -> Seq<char> {
    match sniffed_mime(bytes) {
        Some(m) => m,
        None => "application/octet-stream"@,
    }
}

/// One attachment of the transport message, with its sniffed MIME type.
#[derive(Debug, Clone)]
pub struct EncodedAttachment {
    pub filename: String,
    pub bytes: Vec<u8>,
    pub mime: String,
}

/// A transport-ready message: one text part and the attachment parts of a
/// `mixed` multipart container, with the envelope headers. The transport
/// body holds exactly the one text part plus `attachments.len()` attachment
/// parts, in input order.
#[derive(Debug, Clone)]
pub struct ComposedMail {
    pub from: String,
    pub reply_to: Option<String>,
    pub to: Vec<String>,
    pub subject: String,
    pub kind: ContentKind,
    pub body: String,
    pub attachments: Vec<EncodedAttachment>,
}

/// The sender header line: the configured sender address, optionally under
/// a display name.
pub open spec fn spec_from_line(user: Seq<char>, full_name: Option<Seq<char>>) -> Seq<char> {
    match full_name {
        Some(name) => name + " <"@ + user + ">"@,
        None => user,
    }
}

/// Every address the composed message would carry is accepted by the
/// mailbox grammar.
pub open spec fn spec_addresses_ok(
    msg: Msg,
    user: Seq<char>,
    full_name: Option<Seq<char>>,
    groups: Seq<Recipients>,
) -> bool {
    &&& mailbox_ok(spec_from_line(user, full_name))
    &&& mailbox_ok(msg.mail@)
    &&& (match msg.direction {
        Some(d) => {
            let routed = spec_routed_mails(groups, d@, groups.len() as int);
            forall|i: int| 0 <= i < routed.len() ==> mailbox_ok(routed[i])
        },
        None => true,
    })
}

/// Composes a transport-ready message: sender header, resolved recipients,
/// classified and (when HTML is not allowed) tag-stripped body, sniffed
/// attachment parts in input order, subject verbatim. Pure: no I/O.
///
/// Succeeds exactly when every address involved is well formed; a malformed
/// address is answered with a conflict error.
pub fn compose(
    msg: &Msg,
    sender_user: &String,
    full_name: &Option<String>,
    groups: &Vec<Recipients>,
) -> (r: Result<ComposedMail, ServiceError>)
    ensures
        r is Ok <==> spec_addresses_ok(*msg, sender_user@, full_name.deep_view(), groups@),
        r matches Err(e) ==> e matches ServiceError::Conflict(m) && m@ == "Invalid mail address"@,
        r matches Ok(out) ==> {
            let allow = match msg.direction {
                None => true,
                Some(d) => spec_routed_html(groups@, d@, groups@.len() as int),
            };
            &&& out.from@ == spec_from_line(sender_user@, full_name.deep_view())
            &&& (match msg.direction {
                None => out.reply_to is None && out.to.deep_view() == seq![msg.mail@],
                Some(d) => (match out.reply_to {
                    Some(rt) => rt@ == msg.mail@,
                    None => false,
                }) && out.to.deep_view() == spec_routed_mails(groups@, d@, groups@.len() as int),
            })
            &&& out.subject@ == msg.subject@
            &&& out.kind == (if spec_is_plain(msg.text@, allow) {
                ContentKind::Plain
            } else {
                ContentKind::Html
            })
            &&& out.body@ == (if allow {
                msg.text@
            } else {
                stripped_tags(msg.text@)
            })
            &&& (match msg.attachment {
                None => out.attachments@.len() == 0,
                Some(files) => out.attachments@.len() == files@.len() && forall|i: int|
                    0 <= i < files@.len() ==> (#[trigger] out.attachments@[i]).filename@
                        == files@[i].0@ && out.attachments@[i].bytes@ == files@[i].1@
                        && out.attachments@[i].mime@ == spec_mime_or_default(files@[i].1@),
            })
        },
{
    let from_line: String = match full_name {
        Some(name) => {
            let mut line = name.clone();
            line.append(" <");
            line.append(sender_user.as_str());
            line.append(">");
            line
        },
        None => sender_user.clone(),
    };
    if !mailbox_valid(from_line.as_str()) {
        return Err(ServiceError::Conflict(String::from_str("Invalid mail address")));
    }
    if !mailbox_valid(msg.mail.as_str()) {
        return Err(ServiceError::Conflict(String::from_str("Invalid mail address")));
    }
    let resolution = resolve(&msg.direction, &msg.mail, groups);

    let (reply_to, to, allow): (Option<String>, Vec<String>, bool) = match &msg.direction {
        None => (None, resolution.recipients, true),
        Some(_) => {
            let n = resolution.recipients.len();
            let mut i: usize = 0;
            while i < n
                invariant
                    i <= n,
                    n == resolution.recipients.len(),
                    msg.direction is Some,
                    resolution.recipients.deep_view() == spec_routed_mails(
                        groups@,
                        msg.direction->0@,
                        groups@.len() as int,
                    ),
                    forall|j: int|
                        0 <= j < i ==> mailbox_ok(resolution.recipients.deep_view()[j]),
                decreases n - i,
            {
                let addr = resolution.recipients[i].as_str();
                assert(addr@ == resolution.recipients.deep_view()[i as int]) by {
                    assert(resolution.recipients.deep_view()[i as int]
                        == resolution.recipients@[i as int]@);
                }
                if !mailbox_valid(addr) {
                    proof {
                        let d = msg.direction->0;
                        let routed = spec_routed_mails(groups@, d@, groups@.len() as int);
                        assert(resolution.recipients.deep_view() == routed);
                        assert(!mailbox_ok(routed[i as int]));
                    }
                    return Err(ServiceError::Conflict(String::from_str("Invalid mail address")));
                }
                i = i + 1;
            }
            (Some(msg.mail.clone()), resolution.recipients, resolution.allow_html)
        },
    };

    let kind = classify(msg.text.as_str(), allow);
    let body: String = if allow {
        msg.text.clone()
    } else {
        strip_tags(msg.text.as_str())
    };

    let mut attachments: Vec<EncodedAttachment> = Vec::new();
    if let Some(files) = &msg.attachment {
        let n = files.len();
        let mut i: usize = 0;
        while i < n
            invariant
                i <= n,
                n == files.len(),
                attachments@.len() == i,
                forall|j: int|
                    0 <= j < i ==> (#[trigger] attachments@[j]).filename@ == files@[j].0@
                        && attachments@[j].bytes@ == files@[j].1@ && attachments@[j].mime@
                        == spec_mime_or_default(files@[j].1@),
            decreases n - i,
        {
            let filename = files[i].0.clone();
            let bytes = files[i].1.clone();
            assert(bytes@ == files@[i as int].1@);
            let mime: String = match sniff_mime(&bytes) {
                Some(m) => m,
                None => String::from_str("application/octet-stream"),
            };
            attachments.push(EncodedAttachment { filename, bytes, mime });
            i = i + 1;
        }
    }

    Ok(
        ComposedMail {
            from: from_line,
            reply_to,
            to,
            subject: msg.subject.clone(),
            kind,
            body,
            attachments,
        },
    )
}

// ------------------------------------------------------------------
// Dispatch rules
// ------------------------------------------------------------------

/// Whether the archive copy is written: an archive directory is configured
/// and it exists. Whether it exists is observed by the caller.
pub fn archive_enabled(mail_archive: &String, archive_dir_exists: bool) -> (b: bool)
    ensures
        b == (mail_archive@.len() > 0 && archive_dir_exists),
{
    !mail_archive.as_str().is_empty() && archive_dir_exists
}

/// Combines the two transport outcomes of one dispatch. An SMTP failure
/// surfaces as the dispatch failure. An archive failure after a successful
/// send is reported, but the send is not rolled back: archiving is
/// best-effort. Neither transport is ever retried here.
pub fn dispatch_outcome(
    smtp: Result<(), ServiceError>,
    archive: Option<Result<(), ServiceError>>,
) -> (r: Result<(), ServiceError>)
    ensures
        smtp matches Err(e) ==> r == Err::<(), ServiceError>(e),
        (smtp is Ok && archive is Some) ==> r == archive->0,
        (smtp is Ok && archive is None) ==> r is Ok,
{
    match smtp {
        Err(e) => Err(e),
        Ok(()) => match archive {
            Some(a) => a,
            None => Ok(()),
        },
    }
}

} // verus!

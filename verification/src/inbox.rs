use vstd::prelude::*;

use crate::text::push_char;
use mail_parser::{Address, MessageParser, PartType};

/// The decisions and request texts of an IMAP inbox.
pub mod imap_inbox;

verus! {

broadcast use vstd::string::group_string_axioms;

/// An end of a range of message UIDs.
#[derive(Clone, Copy, Debug, PartialEq, Eq)]
pub enum UIDRange {
    UID(u32),
    /// Equivalent to `*`
    Any,
}

/// A folder (mailbox) of an inbox.
#[derive(Debug, PartialEq, Eq, Hash)]
pub struct Folder {
    pub name: String,
}

impl Clone for Folder {
    fn clone(&self) -> (r: Folder)
        ensures
            r.name@ == self.name@,
    {
        Folder { name: self.name.clone() }
    }
}

impl Folder {
    pub fn new(name: String) -> (f: Folder)
        ensures
            f.name == name,
    {
        Folder { name }
    }
}

/// An error reported by an inbox.
#[derive(Debug, Clone, PartialEq, Eq)]
pub struct InboxError {
    pub message: String,
}

/// A request that changes a message, as an inbox was asked it, with the
/// answer it gave (the error's message for a failure).
pub enum InboxRequest {
    /// Delete the message.
    Delete { message: MessageModel, answer: Result<(), Seq<char>> },
    /// Move the message to the folder of this name.
    Move { message: MessageModel, destination: Seq<char>, answer: Result<(), Seq<char>> },
}

/// An inbox's answer, with the error taken by its message.
pub open spec fn answer_view(r: Result<(), InboxError>) -> Result<(), Seq<char>> {
    match r {
        Ok(()) => Ok(()),
        Err(e) => Err(e.message@),
    }
}

/// The requests that changed messages, made of an inbox so far, in order.
pub type InboxRequests = Seq<InboxRequest>;

/// Operations of an e-mail inbox, which the different mail protocols
/// implement.
pub trait Inbox {
    /// The requests that changed messages, made of this inbox so far, in
    /// order, each with the answer given. This is a model for the contracts
    /// below: it exists in proofs only, and compiled code never calls it.
    spec fn requests(&self) -> InboxRequests;

    /// Lists all folders of the inbox session.
    fn list_folders(&mut self) -> Result<Vec<Folder>, InboxError>;

    /// Fetches all messages in a folder, with their bodies: valid messages
    /// of that folder.
    fn fetch_all_messages_in_folder(&mut self, folder: &Folder) -> (r: Result<
        Vec<Message>,
        InboxError,
    >)
        ensures
            r matches Ok(v) ==> fetched_from(v@, folder.name@),
    ;

    /// Fetches the messages of a folder whose UIDs lie in a range: valid
    /// messages of that folder.
    fn fetch_messages_in_folder(
        &mut self,
        folder: &Folder,
        uid_start: UIDRange,
        uid_end: UIDRange,
    ) -> (r: Result<Vec<Message>, InboxError>)
        ensures
            r matches Ok(v) ==> fetched_from(v@, folder.name@),
    ;

    /// Fetches the last `n` messages of a folder (by message number): valid
    /// messages of that folder.
    fn fetch_top_n_messages_in_folder(&mut self, folder: &Folder, n: u32) -> (r: Result<
        Vec<Message>,
        InboxError,
    >)
        ensures
            r matches Ok(v) ==> fetched_from(v@, folder.name@),
    ;

    /// Moves a message to a destination folder: the request, with the
    /// answer returned, is the inbox's next one, and once moved the message
    /// is no longer valid. Moving a message that is no longer valid returns
    /// `Ok` and changes nothing; a move that fails leaves the message as it
    /// was.
    ///
    /// Every implementation owes this contract; it is not proved here.
    fn move_message_to_folder(
        &mut self,
        message: &mut Message,
        destination_folder: &Folder,
    ) -> (r: Result<(), InboxError>)
        ensures
            final(self).requests() == old(self).requests().push(
                InboxRequest::Move {
                    message: old(message)@,
                    destination: destination_folder.name@,
                    answer: answer_view(r),
                },
            ),
            r is Ok ==> final(message)@ == invalidated(old(message)@),
            !old(message).valid ==> r is Ok && *final(message) == *old(message),
            r is Err ==> *final(message) == *old(message),
    ;

    /// Deletes a message from the folder that holds it: the request, with
    /// the answer returned, is the inbox's next one, and once deleted the
    /// message is no longer valid; a delete that fails leaves the message as
    /// it was.
    ///
    /// Every implementation owes this contract; it is not proved here.
    fn delete_message(&mut self, message: &mut Message) -> (r: Result<(), InboxError>)
        ensures
            final(self).requests() == old(self).requests().push(
                InboxRequest::Delete { message: old(message)@, answer: answer_view(r) },
            ),
            r is Ok ==> final(message)@ == invalidated(old(message)@),
            r is Err ==> *final(message) == *old(message),
    ;

    /// Blocks until new messages arrive in a folder, and gives them: valid
    /// messages of that folder.
    fn poll_new_messages(&mut self, folder: &Folder) -> (r: Result<Vec<Message>, InboxError>)
        ensures
            r matches Ok(v) ==> fetched_from(v@, folder.name@),
    ;
}

/// The message as it is once deleted or moved: no longer valid, and
/// otherwise as it was.
pub open spec fn invalidated(m: MessageModel) -> MessageModel {
    MessageModel { valid: false, ..m }
}

/// Every message is valid and held by the folder of this name.
pub open spec fn fetched_from(messages: Seq<Message>, folder: Seq<char>) -> bool {
    forall|i: int|
        0 <= i < messages.len() ==> (#[trigger] messages[i]).valid
            && messages[i].containing_folder.name@ == folder
}

/// A message, with the header fields the rules look at and its text.
#[derive(Debug, Clone)]
pub struct Message {
    pub containing_folder: Folder,
    pub uid: u32,
    /// The text of all text and HTML parts, in order.
    pub body: String,
    /// Subject field
    pub subject: Option<String>,
    /// From field. All the separate addresses are concatenated in the
    /// following format: `name1 <addr1>, name2 <addr2>, ...`.
    pub from: Option<String>,
    /// To field, in the same format as `from`.
    pub to: Option<String>,
    /// Whether the message is still valid. This is set to false once it has
    /// been deleted or moved.
    pub valid: bool,
}

/// Why a message could not be read.
#[derive(Debug, Clone, PartialEq, Eq)]
pub enum MessageError {
    /// The message with this UID could not be parsed.
    ParseFailed(u32),
}

// ---------------------------------------------------------------------------
// Reading raw messages
// ---------------------------------------------------------------------------

/// One address of an address header: a display name and an e-mail address,
/// either of which may be missing.
pub struct MailAddress {
    pub name: Option<String>,
    pub address: Option<String>,
}

/// What the rules need of a parsed message: its subject, its From and To
/// addresses, and the text of each part (`None` for parts that are not text
/// or HTML).
pub struct ParsedMail {
    pub subject: Option<String>,
    pub from: Option<Vec<MailAddress>>,
    pub to: Option<Vec<MailAddress>>,
    pub parts: Vec<Option<String>>,
}

pub struct ParsedMailModel {
    pub subject: Option<Seq<char>>,
    pub from: Option<Seq<(Option<Seq<char>>, Option<Seq<char>>)>>,
    pub to: Option<Seq<(Option<Seq<char>>, Option<Seq<char>>)>>,
    pub parts: Seq<Option<Seq<char>>>,
}

pub open spec fn opt_string_view(s: Option<String>) -> Option<Seq<char>> {
    match s {
        Some(s) => Some(s@),
        None => None,
    }
}

pub open spec fn addresses_view(v: Option<Vec<MailAddress>>) -> Option<
    Seq<(Option<Seq<char>>, Option<Seq<char>>)>,
> {
    match v {
        Some(v) => Some(
            v@.map_values(
                |a: MailAddress| (opt_string_view(a.name), opt_string_view(a.address)),
            ),
        ),
        None => None,
    }
}

impl View for ParsedMail {
    type V = ParsedMailModel;

    open spec fn view(&self) -> ParsedMailModel {
        ParsedMailModel {
            subject: opt_string_view(self.subject),
            from: addresses_view(self.from),
            to: addresses_view(self.to),
            parts: self.parts@.map_values(|p: Option<String>| opt_string_view(p)),
        }
    }
}

/// The result of `mail_parser`'s `MessageParser::parse` on these bytes,
/// reduced to what [`ParsedMail`] holds.
pub uninterp spec fn parsed_mail(raw: Seq<u8>) -> Option<ParsedMailModel>;

/// Parses a raw message with `mail_parser::MessageParser::default().parse`,
/// keeping the subject, the From and To addresses (`Address::iter`, which
/// also lists the members of groups) and the text of the text and HTML
/// parts.
///
/// Trusted: the contract only names the result as a function of the bytes.
#[verifier::external_body]
fn parse_mail(raw: &Vec<u8>) -> (r: Option<ParsedMail>)
    ensures
        match r {
            Some(m) => parsed_mail(raw@) == Some(m@),
            None => parsed_mail(raw@) is None,
        },
{
    let m = MessageParser::default().parse(raw)?;
    let conv = |a: Option<&Address>| a.map(|a| a.iter().map(|x| MailAddress {
        name: x.name().map(String::from),
        address: x.address().map(String::from),
    }).collect());
    let parts = m.parts.iter().map(|p| match &p.body {
        PartType::Text(t) => Some(t.to_string()),
        PartType::Html(t) => Some(t.to_string()),
        _ => None,
    }).collect();
    Some(ParsedMail { subject: m.subject().map(String::from), from: conv(m.from()), to: conv(m.to()), parts })
}

/// One address as `name <address>`, a missing part written as nothing.
pub open spec fn format_address(a: (Option<Seq<char>>, Option<Seq<char>>)) -> Seq<char> {
    let name = match a.0 {
        Some(n) => n,
        None => seq![],
    };
    let address = match a.1 {
        Some(x) => x,
        None => seq![],
    };
    name + " <"@ + address + ">"@
}

/// The addresses, each as `name <address>`, separated by `, `.
pub open spec fn format_addresses(v: Seq<(Option<Seq<char>>, Option<Seq<char>>)>) -> Seq<char>
    decreases v.len(),
{
    if v.len() == 0 {
        seq![]
    } else if v.len() == 1 {
        format_address(v[0])
    } else {
        format_addresses(v.drop_last()) + ", "@ + format_address(v.last())
    }
}

/// The text of all text parts, one after the other.
pub open spec fn concat_parts(parts: Seq<Option<Seq<char>>>) -> Seq<char>
    decreases parts.len(),
{
    if parts.len() == 0 {
        seq![]
    } else {
        concat_parts(parts.drop_last()) + match parts.last() {
            Some(t) => t,
            None => seq![],
        }
    }
}

fn append_opt(s: &mut String, part: &Option<String>)
    ensures
        final(s)@ == old(s)@ + match opt_string_view(*part) {
            Some(t) => t,
            None => seq![],
        },
{
    match part {
        Some(t) => s.append(t.as_str()),
        None => {
            assert(old(s)@ + seq![] =~= old(s)@);
        },
    }
}

fn format_address_exec(a: &MailAddress) -> (r: String)
    ensures
        r@ == format_address((opt_string_view(a.name), opt_string_view(a.address))),
{
    let mut r = String::new();
    append_opt(&mut r, &a.name);
    r.append(" <");
    append_opt(&mut r, &a.address);
    r.append(">");
    r
}

fn format_addresses_exec(v: &Vec<MailAddress>) -> (r: String)
    ensures
        r@ == format_addresses(addresses_view(Some(*v))->0),
{
    let ghost model = addresses_view(Some(*v))->0;
    let mut r = String::new();
    let mut i: usize = 0;
    while i < v.len()
        invariant
            model == addresses_view(Some(*v))->0,
            model.len() == v@.len(),
            i <= v@.len(),
            r@ == format_addresses(model.take(i as int)),
        decreases v@.len() - i,
    {
        assert(model.take(i + 1).drop_last() =~= model.take(i as int));
        if i > 0 {
            r.append(", ");
        } else {
            assert(model.take(1) =~= seq![model[0]]);
        }
        let a = format_address_exec(&v[i]);
        r.append(a.as_str());
        i = i + 1;
    }
    assert(model.take(v@.len() as int) =~= model);
    r
}

/// The mathematical value of a [`Message`].
pub struct MessageModel {
    pub folder: Seq<char>,
    pub uid: u32,
    pub body: Seq<char>,
    pub subject: Option<Seq<char>>,
    pub from: Option<Seq<char>>,
    pub to: Option<Seq<char>>,
    pub valid: bool,
}

impl View for Message {
    type V = MessageModel;

    open spec fn view(&self) -> MessageModel {
        MessageModel {
            folder: self.containing_folder.name@,
            uid: self.uid,
            body: self.body@,
            subject: opt_string_view(self.subject),
            from: opt_string_view(self.from),
            to: opt_string_view(self.to),
            valid: self.valid,
        }
    }
}

/// The decimal digits of `n`.
pub open spec fn decimal(n: nat) -> Seq<char>
    decreases n,
{
    if n < 10 {
        seq![digit_char(n)]
    } else {
        decimal(n / 10).push(digit_char(n % 10))
    }
}

pub open spec fn digit_char(d: nat) -> char {
    if d == 0 {
        '0'
    } else if d == 1 {
        '1'
    } else if d == 2 {
        '2'
    } else if d == 3 {
        '3'
    } else if d == 4 {
        '4'
    } else if d == 5 {
        '5'
    } else if d == 6 {
        '6'
    } else if d == 7 {
        '7'
    } else if d == 8 {
        '8'
    } else {
        '9'
    }
}

/// The value of a base-10 numeral read from its first digit to its last.
pub open spec fn numeral_value(s: Seq<char>) -> int
    decreases s.len(),
{
    if s.len() == 0 {
        0
    } else {
        numeral_value(s.drop_last()) * 10 + ((s.last() as u32) as int - ('0' as u32) as int)
    }
}

/// Each digit character is the ASCII digit of its value: `'0'` moved up by
/// the digit.
pub proof fn lemma_digit_char_is_ascii_digit(d: nat)
    requires
        d < 10,
    ensures
        (digit_char(d) as u32) as int == ('0' as u32) as int + d,
{
    if d == 0 {
    } else if d == 1 {
    } else if d == 2 {
    } else if d == 3 {
    } else if d == 4 {
    } else if d == 5 {
    } else if d == 6 {
    } else if d == 7 {
    } else if d == 8 {
    } else {
    }
}

/// The decimal text of a number is a numeral of that number: it is made of
/// ASCII digits only, it has no leading zero (unless it is `0`), and reading
/// it back in base 10 gives the number.
pub proof fn lemma_decimal_denotes(n: nat)
    ensures
        decimal(n).len() >= 1,
        forall|i: int|
            0 <= i < decimal(n).len() ==> '0' <= #[trigger] decimal(n)[i] && decimal(n)[i] <= '9',
        decimal(n)[0] == '0' ==> n == 0,
        numeral_value(decimal(n)) == n,
    decreases n,
{
    if n < 10 {
        lemma_digit_char_is_ascii_digit(n);
        assert(decimal(n).drop_last() =~= Seq::<char>::empty());
        assert(numeral_value(Seq::<char>::empty()) == 0);
        assert(numeral_value(decimal(n)) == numeral_value(decimal(n).drop_last()) * 10 + ((
        decimal(n).last() as u32) as int - ('0' as u32) as int));
    } else {
        let q = n / 10;
        let r = n % 10;
        lemma_decimal_denotes(q);
        lemma_digit_char_is_ascii_digit(r);
        let s = decimal(n);
        assert(s == decimal(q).push(digit_char(r)));
        assert(s.drop_last() =~= decimal(q));
        assert forall|i: int| 0 <= i < s.len() implies '0' <= #[trigger] s[i] && s[i] <= '9' by {
            if i < s.len() - 1 {
                assert(s[i] == decimal(q)[i]);
            }
        }
        assert(s[0] == decimal(q)[0]);
        assert(n == q * 10 + r);
        assert(numeral_value(s) == numeral_value(decimal(q)) * 10 + ((digit_char(r) as u32) as int
            - ('0' as u32) as int));
    }
}

fn digit_char_exec(d: u32) -> (c: char)
    requires
        d < 10,
    ensures
        c == digit_char(d as nat),
{
    match d {
        0 => '0',
        1 => '1',
        2 => '2',
        3 => '3',
        4 => '4',
        5 => '5',
        6 => '6',
        7 => '7',
        8 => '8',
        _ => '9',
    }
}

/// `n` written in decimal.
pub fn decimal_string(n: u32) -> (s: String)
    ensures
        s@ == decimal(n as nat),
    decreases n,
{
    if n < 10 {
        let mut s = String::new();
        push_char(&mut s, digit_char_exec(n));
        assert(s@ =~= seq![digit_char(n as nat)]);
        s
    } else {
        let mut s = decimal_string(n / 10);
        push_char(&mut s, digit_char_exec(n % 10));
        s
    }
}

/// The message that a parsed message makes in a folder under a UID: the
/// subject as it is, the From and To addresses formatted, the text of the
/// parts one after the other, and valid.
pub open spec fn parsed_message(folder: Seq<char>, uid: u32, pm: ParsedMailModel) -> MessageModel {
    MessageModel {
        folder,
        uid,
        body: concat_parts(pm.parts),
        subject: pm.subject,
        from: match pm.from {
            Some(v) => Some(format_addresses(v)),
            None => None,
        },
        to: match pm.to {
            Some(v) => Some(format_addresses(v)),
            None => None,
        },
        valid: true,
    }
}

impl Message {
    /// Reads a raw message. Fails when `mail_parser` cannot parse it.
    pub fn new(containing_folder: Folder, uid: u32, body: Vec<u8>) -> (r: Result<
        Message,
        MessageError,
    >)
        ensures
            match parsed_mail(body@) {
                None => r == Err::<Message, MessageError>(MessageError::ParseFailed(uid)),
                Some(pm) => r matches Ok(m) && m@ == parsed_message(
                    containing_folder.name@,
                    uid,
                    pm,
                ),
            },
    {
        match parse_mail(&body) {
            Some(parsed) => Ok(Message::from_parsed(containing_folder, uid, parsed)),
            None => Err(MessageError::ParseFailed(uid)),
        }
    }

    /// Builds the message of a parsed message in a folder under a UID.
    pub fn from_parsed(containing_folder: Folder, uid: u32, parsed: ParsedMail) -> (m: Message)
        ensures
            m@ == parsed_message(containing_folder.name@, uid, parsed@),
    {
        let ghost pm = parsed@;
        let from = match &parsed.from {
            Some(v) => Some(format_addresses_exec(v)),
            None => None,
        };
        let to = match &parsed.to {
            Some(v) => Some(format_addresses_exec(v)),
            None => None,
        };
        let mut text = String::new();
        let mut i: usize = 0;
        while i < parsed.parts.len()
            invariant
                pm == parsed@,
                pm.parts.len() == parsed.parts@.len(),
                i <= parsed.parts@.len(),
                text@ == concat_parts(pm.parts.take(i as int)),
            decreases parsed.parts@.len() - i,
        {
            assert(pm.parts.take(i + 1).drop_last() =~= pm.parts.take(i as int));
            append_opt(&mut text, &parsed.parts[i]);
            i = i + 1;
        }
        assert(pm.parts.take(parsed.parts@.len() as int) =~= pm.parts);
        Message {
            containing_folder,
            uid,
            body: text,
            subject: parsed.subject,
            from,
            to,
            valid: true,
        }
    }

    /// The message's UID, while the message is valid.
    pub fn uid(&self) -> (r: Option<u32>)
        ensures
            r == (if self.valid {
                Some(self.uid)
            } else {
                None
            }),
    {
        if !self.valid {
            None
        } else {
            Some(self.uid)
        }
    }

    /// A sequence set holding only this message's UID, while the message is
    /// valid.
    pub fn uid_set(&self) -> (r: Option<String>)
        ensures
            r is Some == self.valid,
            r matches Some(s) ==> s@ == decimal(self.uid as nat),
    {
        if !self.valid {
            None
        } else {
            Some(decimal_string(self.uid))
        }
    }

    /// The folder holding the message, while the message is valid.
    pub fn containing_folder(&self) -> (r: Option<&Folder>)
        ensures
            r == (if self.valid {
                Some(&self.containing_folder)
            } else {
                None
            }),
    {
        if !self.valid {
            None
        } else {
            Some(&self.containing_folder)
        }
    }

    /// Marks the message as no longer valid (deleted or moved).
    pub fn set_invalid(&mut self)
        ensures
            final(self)@ == (MessageModel { valid: false, ..old(self)@ }),
    {
        self.valid = false;
    }
}

} // verus!

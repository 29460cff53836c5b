//! Disposable accounts and their one-line textual record.

use vstd::prelude::*;
use vstd::string::*;
use crate::text::{chars_of, find_first, string_of};

verus! {

/// Separates the mailbox from the secret in a record.
pub const DELIMITER: char = ':';

/// A line with fewer characters than this is never a record.
pub const MIN_RECORD_LEN: usize = 7;

/// One disposable account.
#[derive(Clone, Debug, PartialEq, Eq)]
pub struct Identity {
    /// The account name chosen at registration. It is not part of the record.
    pub handle: String,
    /// The disposable e-mail address.
    pub mailbox: String,
    /// The password.
    pub secret: String,
}

/// What an [`Identity`] is, mathematically: three character sequences.
pub struct IdentityView {
    pub handle: Seq<char>,
    pub mailbox: Seq<char>,
    pub secret: Seq<char>,
}

/// Why a line is not a record.
#[derive(Clone, Copy, Debug, PartialEq, Eq, Structural)]
pub enum ParseError {
    /// The line is shorter than [`MIN_RECORD_LEN`] or has no [`DELIMITER`].
    CorruptRecord,
}

impl View for Identity {
    type V = IdentityView;

    open spec fn view(&self) -> IdentityView {
        IdentityView { handle: self.handle@, mailbox: self.mailbox@, secret: self.secret@ }
    }
}

/// The record of an identity: mailbox, delimiter, secret.
pub open spec fn record_of(id: IdentityView) -> Seq<char> {
    id.mailbox.push(DELIMITER) + id.secret
}

/// The identity as a record keeps it: the handle is dropped.
pub open spec fn persisted(id: IdentityView) -> IdentityView {
    IdentityView { handle: Seq::empty(), mailbox: id.mailbox, secret: id.secret }
}

/// Whether a line is a record: long enough, and with a delimiter.
pub open spec fn is_record(line: Seq<char>) -> bool {
    line.len() >= MIN_RECORD_LEN && line.contains(DELIMITER)
}

/// The identity that a line records, if it is a record. The mailbox is what stands
/// before the first delimiter, the secret is everything after it.
pub open spec fn parse_line(line: Seq<char>) -> Option<IdentityView> {
    match line.index_of_first(DELIMITER) {
        Some(i) => if line.len() >= MIN_RECORD_LEN {
            Some(
                IdentityView {
                    handle: Seq::empty(),
                    mailbox: line.take(i),
                    secret: line.skip(i + 1),
                },
            )
        } else {
            None
        },
        None => None,
    }
}

impl Identity {
    /// An identity from its three parts.
    pub fn new(handle: String, mailbox: String, secret: String) -> (id: Identity)
        ensures
            id@ == (IdentityView { handle: handle@, mailbox: mailbox@, secret: secret@ }),
    {
        Identity { handle, mailbox, secret }
    }

    /// The record of this identity, without a line end.
    pub fn serialize(&self) -> (line: String)
        ensures
            line@ == record_of(self@),
    {
        let mut line = self.mailbox.clone();
        crate::text::push_char(&mut line, DELIMITER);
        line.append(self.secret.as_str());
        line
    }

    /// Reads a record. A line that is too short or has no delimiter is corrupt.
    pub fn parse(line: &str) -> (r: Result<Identity, ParseError>)
        ensures
            match parse_line(line@) {
                Some(id) => r is Ok && r->Ok_0@ == id,
                None => r == Err::<Identity, ParseError>(ParseError::CorruptRecord),
            },
    {
        let chars = chars_of(line);
        if chars.len() < MIN_RECORD_LEN {
            return Err(ParseError::CorruptRecord);
        }
        match find_first(&chars, DELIMITER) {
            None => Err(ParseError::CorruptRecord),
            Some(i) => {
                let mailbox = string_of(&chars, 0, i);
                let secret = string_of(&chars, i + 1, chars.len());
                Ok(Identity { handle: String::new(), mailbox, secret })
            },
        }
    }
}

/// A line is a record exactly when it parses.
pub proof fn lemma_parse_line_some(line: Seq<char>)
    ensures
        parse_line(line) is Some <==> is_record(line),
{
    line.index_of_first_ensures(DELIMITER);
}

/// What parses comes back when it is written again: a record is the mailbox, the
/// delimiter and the secret of the identity it parses to, and that mailbox holds no
/// delimiter.
pub proof fn lemma_parse_then_serialize(line: Seq<char>)
    requires
        parse_line(line) is Some,
    ensures
        record_of(parse_line(line)->Some_0) == line,
        !parse_line(line)->Some_0.mailbox.contains(DELIMITER),
        parse_line(line)->Some_0.handle.len() == 0,
{
    line.index_of_first_ensures(DELIMITER);
    let i = line.index_of_first(DELIMITER)->Some_0;
    let id = parse_line(line)->Some_0;
    assert(record_of(id) =~= line);
    if id.mailbox.contains(DELIMITER) {
        let j = choose|j: int| 0 <= j < id.mailbox.len() && id.mailbox[j] == DELIMITER;
        assert(line[j] == DELIMITER);
    }
}

/// Round trip: the record of an identity parses to that identity without its
/// handle, provided that the mailbox holds no delimiter and the record reaches the
/// minimum length. An identity without a handle comes back unchanged.
pub proof fn lemma_serialize_then_parse(id: IdentityView)
    requires
        !id.mailbox.contains(DELIMITER),
        id.mailbox.len() + 1 + id.secret.len() >= MIN_RECORD_LEN,
    ensures
        parse_line(record_of(id)) == Some(persisted(id)),
        id.handle.len() == 0 ==> parse_line(record_of(id)) == Some(id),
{
    let line = record_of(id);
    let n = id.mailbox.len() as int;
    assert(line[n] == DELIMITER);
    assert(line.contains(DELIMITER));
    line.index_of_first_ensures(DELIMITER);
    let i = line.index_of_first(DELIMITER)->Some_0;
    if i < n {
        assert(id.mailbox[i] == DELIMITER);
        assert(id.mailbox.contains(DELIMITER));
    }
    assert(i == n);
    assert(line.take(i) =~= id.mailbox);
    assert(line.skip(i + 1) =~= id.secret);
    if id.handle.len() == 0 {
        assert(id.handle =~= Seq::<char>::empty());
    }
}

} // verus!

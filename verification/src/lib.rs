use vstd::prelude::*;

pub mod address;
pub mod attachment;
pub mod error;
pub mod json;
pub mod mailmessage;
pub mod message;
pub mod timestamp;

use crate::address::{
    contains_str, email_decomp, is_banned, lemma_split_is_first_at, spec_domain_part,
    spec_email_syntax, spec_is_banned, spec_local_part,
};
use crate::error::{Error, ErrorKind};
use crate::json::{
    parse_first_string, parse_string_list, spec_first_string, spec_parse_string_list,
    FirstElement, FirstStringResult,
};
use crate::mailmessage::{parse_summaries, spec_parse_summaries, MailMessage, MailMessageView};
use crate::message::{parse_message_doc, spec_parse_message_doc, Message};

verus! {

// A disposable mailbox on the remote service. The transport is the
// caller's affair: every operation that the remote API answers takes
// the response body as it came over the wire and is verified from
// there, so an unverified shell around this type only moves bytes.

/// Whether a candidate address passes all three validation steps
/// against the given live domain list: the syntax pattern, the banned
/// local parts, and domain membership.
pub open spec fn spec_address_valid(s: Seq<char>, domains: Seq<Seq<char>>) -> bool {
    &&& spec_email_syntax(s)
    &&& !spec_is_banned(spec_local_part(s))
    &&& domains.contains(spec_domain_part(s))
}

/// A disposable mailbox: its address, and the inbox listing the last
/// successful check returned. The address may still be empty before
/// one is bound or generated.
#[derive(Debug)]
pub struct TempMail {
    email: String,
    mail_messages: Vec<MailMessage>,
}

/// The mathematical content of a `TempMail`.
pub ghost struct TempMailView {
    pub email: Seq<char>,
    pub messages: Seq<MailMessageView>,
}

impl View for TempMail {
    type V = TempMailView;

    closed spec fn view(&self) -> TempMailView {
        TempMailView { email: self.email@, messages: self.mail_messages.deep_view() }
    }
}

impl TempMail {
    /// A fresh client: no address bound, no summaries fetched.
    pub fn new() -> (r: TempMail)
        ensures
            r@.email == Seq::<char>::empty(),
            r@.messages == Seq::<MailMessageView>::empty(),
    {
        let t = TempMail { email: String::new(), mail_messages: Vec::new() };
        proof {
            assert(t@.messages =~= Seq::<MailMessageView>::empty());
        }
        t
    }

    /// Validates a candidate address against the given live domain
    /// list and binds a client to it.
    ///
    /// The checks run in order and short-circuit: a string that does
    /// not match the syntax pattern is `InvalidFormat`; one whose
    /// local part is banned, or whose domain the service does not
    /// carry, is `InvalidAddress`; everything else is accepted.
    pub fn from_string(email: &str, domains: &Vec<String>) -> (r: Result<TempMail, Error>)
        ensures
            match r {
                Ok(t) => spec_address_valid(email@, domains.deep_view()) && t@.email == email@
                    && t@.messages == Seq::<MailMessageView>::empty(),
                Err(e) => {
                    &&& !spec_address_valid(email@, domains.deep_view())
                    &&& (e.spec_kind() == ErrorKind::InvalidFormat <==> !spec_email_syntax(email@))
                    &&& (e.spec_kind() == ErrorKind::InvalidAddress <==> spec_email_syntax(email@)
                        && (spec_is_banned(spec_local_part(email@)) || !domains.deep_view()
                        .contains(spec_domain_part(email@))))
                },
            },
    {
        let (p, q) = match email_decomp(email) {
            None => {
                return Err(Error::new(ErrorKind::InvalidFormat, "not an email address"));
            },
            Some(pq) => pq,
        };
        proof {
            lemma_split_is_first_at(email@, p as int, q as int);
        }
        let n = email.unicode_len();
        let local = email.substring_char(0, p);
        let domain = email.substring_char(p + 1, n);
        if is_banned(local) {
            return Err(Error::new(ErrorKind::InvalidAddress, "not a valid email address"));
        }
        if !contains_str(domains, domain) {
            return Err(Error::new(ErrorKind::InvalidAddress, "not a valid email address"));
        }
        let t = TempMail { email: email.to_owned(), mail_messages: Vec::new() };
        proof {
            assert(t@.messages =~= Seq::<MailMessageView>::empty());
        }
        Ok(t)
    }

    /// The two validation steps that need no network: the syntax
    /// pattern and the banned local parts, in that order. A caller
    /// fetches the live domain list only when this accepts, so
    /// obviously bad input costs no call.
    pub fn precheck_address(email: &str) -> (r: Result<(), Error>)
        ensures
            match r {
                Ok(()) => spec_email_syntax(email@) && !spec_is_banned(spec_local_part(email@)),
                Err(e) => {
                    &&& !(spec_email_syntax(email@) && !spec_is_banned(spec_local_part(email@)))
                    &&& (e.spec_kind() == ErrorKind::InvalidFormat <==> !spec_email_syntax(email@))
                    &&& (e.spec_kind() == ErrorKind::InvalidAddress <==> spec_email_syntax(email@)
                        && spec_is_banned(spec_local_part(email@)))
                },
            },
    {
        let (p, q) = match email_decomp(email) {
            None => {
                return Err(Error::new(ErrorKind::InvalidFormat, "not an email address"));
            },
            Some(pq) => pq,
        };
        proof {
            lemma_split_is_first_at(email@, p as int, q as int);
        }
        let local = email.substring_char(0, p);
        if is_banned(local) {
            return Err(Error::new(ErrorKind::InvalidAddress, "not a valid email address"));
        }
        Ok(())
    }

    /// The address this client is bound to; empty before any is.
    pub fn get_email(&self) -> (r: String)
        ensures
            r@ == self@.email,
    {
        self.email.clone()
    }

    /// Takes the body the address-generation endpoint answered with
    /// and binds this client to the first address it lists.
    ///
    /// The result is fixed for every body: a body that is not valid
    /// JSON is `DecodeError`; valid JSON that does not put a string
    /// first in a top-level array — another kind of document, an
    /// empty array, or a first element of another kind — is
    /// `ApiResponseError`; and when a string stands first it becomes
    /// the address, whatever follows it, with the inbox listing
    /// untouched.
    pub fn generate_email(&mut self, body: &str) -> (r: Result<(), Error>)
        ensures
            r is Ok <==> spec_first_string(body@) is AString,
            match r {
                Ok(()) => {
                    &&& spec_first_string(body@) matches FirstElement::AString(a)
                        && final(self)@.email == a
                    &&& final(self)@.messages == old(self)@.messages
                },
                Err(e) => {
                    &&& final(self)@ == old(self)@
                    &&& (e.spec_kind() == ErrorKind::DecodeError <==> spec_first_string(body@)
                        is NotJson)
                    &&& (e.spec_kind() == ErrorKind::ApiResponseError <==> spec_first_string(
                        body@,
                    ) is NoString)
                },
            },
    {
        match parse_first_string(body) {
            FirstStringResult::NotJson => Err(
                Error::new(ErrorKind::DecodeError, "response body is not valid JSON"),
            ),
            FirstStringResult::NoString => Err(
                Error::new(ErrorKind::ApiResponseError, "Failed to retrieve email from response"),
            ),
            FirstStringResult::AString(a) => {
                self.email = a;
                Ok(())
            },
        }
    }

    /// Decodes the body the domain-list endpoint answered with: the
    /// domains the service currently serves, as a JSON array of
    /// strings. A body of any other shape is `DecodeError`.
    pub fn get_domains(body: &str) -> (r: Result<Vec<String>, Error>)
        ensures
            match r {
                Ok(v) => spec_parse_string_list(body@) == Some(v.deep_view()),
                Err(e) => spec_parse_string_list(body@) is None && e.spec_kind()
                    == ErrorKind::DecodeError,
            },
    {
        match parse_string_list(body) {
            None => Err(
                Error::new(ErrorKind::DecodeError, "response body is not a JSON array of strings"),
            ),
            Some(v) => Ok(v),
        }
    }

    /// How many addresses the generation endpoint is asked for when
    /// the caller names no count.
    pub fn effective_count(count: Option<u32>) -> (r: u32)
        ensures
            r == (match count {
                Some(v) => v,
                None => 1u32,
            }),
    {
        match count {
            Some(v) => v,
            None => 1,
        }
    }

    /// Decodes the body the address-generation endpoint answered with
    /// when asked for a batch of addresses: a JSON array of strings.
    /// A body of any other shape is `DecodeError`.
    pub fn get_adresses(body: &str) -> (r: Result<Vec<String>, Error>)
        ensures
            match r {
                Ok(v) => spec_parse_string_list(body@) == Some(v.deep_view()),
                Err(e) => spec_parse_string_list(body@) is None && e.spec_kind()
                    == ErrorKind::DecodeError,
            },
    {
        match parse_string_list(body) {
            None => Err(
                Error::new(ErrorKind::DecodeError, "response body is not a JSON array of strings"),
            ),
            Some(v) => Ok(v),
        }
    }

    /// Takes the body the inbox endpoint answered with, a JSON array
    /// of summary objects, and replaces the stored listing with it
    /// wholesale — never merged, never appended.
    ///
    /// A body of any other shape is `DecodeError`, and the previous
    /// listing stays untouched.
    pub fn check_inbox(&mut self, body: &str) -> (r: Result<(), Error>)
        ensures
            match r {
                Ok(()) => {
                    &&& spec_parse_summaries(body@) matches Some(v) && final(self)@.messages == v
                    &&& final(self)@.email == old(self)@.email
                },
                Err(e) => final(self)@ == old(self)@ && e.spec_kind() == ErrorKind::DecodeError
                    && spec_parse_summaries(body@) is None,
            },
    {
        let listing = match parse_summaries(body) {
            None => {
                return Err(
                    Error::new(ErrorKind::DecodeError, "response body is not an inbox listing"),
                );
            },
            Some(v) => v,
        };
        self.mail_messages = listing;
        Ok(())
    }

    /// Takes the body the read-message endpoint answered with and
    /// decodes the full message. Any body that is not a well-formed
    /// message object — the service answers so for an unknown id — is
    /// `MessageNotFound`.
    pub fn get_message_by_id(&self, body: &str) -> (r: Result<Message, Error>)
        ensures
            match r {
                Ok(m) => spec_parse_message_doc(body@) == Some(m@),
                Err(e) => spec_parse_message_doc(body@) is None && e.spec_kind()
                    == ErrorKind::MessageNotFound,
            },
    {
        match parse_message_doc(body) {
            None => Err(Error::new(ErrorKind::MessageNotFound, "id not found")),
            Some(m) => Ok(m),
        }
    }

    /// How many summaries the last successful inbox check returned.
    pub fn get_messages_len(&self) -> (r: usize)
        ensures
            r == self@.messages.len(),
    {
        self.mail_messages.len()
    }

    /// The summaries the last successful inbox check returned.
    pub fn get_messages(&self) -> (r: Vec<MailMessage>)
        ensures
            r.deep_view() == self@.messages,
    {
        let mut out: Vec<MailMessage> = Vec::new();
        let mut idx: usize = 0;
        while idx < self.mail_messages.len()
            invariant
                idx <= self.mail_messages.len(),
                out.deep_view().len() == idx,
                forall|k: int|
                    0 <= k < idx ==> out.deep_view()[k] == self.mail_messages.deep_view()[k],
            decreases self.mail_messages.len() - idx,
        {
            let m = &self.mail_messages[idx];
            let copy = MailMessage {
                id: m.id,
                from: m.from.clone(),
                subject: m.subject.clone(),
                date: m.date,
            };
            let ghost dv0 = out.deep_view();
            out.push(copy);
            proof {
                assert forall|k: int|
                    0 <= k < idx + 1 implies out.deep_view()[k] == self.mail_messages.deep_view()[k] by {
                    if k < idx {
                        assert(out.deep_view()[k] == dv0[k]);
                    } else {
                        assert(out.deep_view()[k] == copy@);
                        assert(copy@ == self.mail_messages.deep_view()[k]);
                    }
                }
            }
            idx = idx + 1;
        }
        assert(out.deep_view() =~= self.mail_messages.deep_view());
        out
    }
}

/// A served address, bound by `generate_email`, itself passes the
/// address validator's syntax check: the bound address is the first
/// element of the listing the endpoint answered, so whenever that
/// element matches the pattern — as every address the service hands
/// out does — the client ends up bound to a syntactically valid
/// address.
pub proof fn lemma_generated_address_syntax(body: Seq<char>, a: Seq<char>, t: TempMailView)
    requires
        spec_first_string(body) == FirstElement::AString(a),
        t.email == a,
        spec_email_syntax(a),
    ensures
        spec_email_syntax(t.email),
{
}

/// An inbox check replaces the stored listing and never appends to
/// it: the body `[]` decodes to the empty listing, so a successful
/// `check_inbox` on it leaves zero summaries stored, whatever any
/// earlier check had returned.
pub proof fn lemma_empty_listing_replaces()
    ensures
        spec_parse_summaries("[]"@) == Some(Seq::<MailMessageView>::empty()),
{
    reveal_strlit("[]");
    let s = "[]"@;
    assert(s.len() == 2 && s[0] == '[' && s[1] == ']');
    assert(crate::json::spec_skip_ws(s, 0) == 0);
    assert(crate::json::spec_skip_ws(s, 1) == 1);
    assert(crate::json::spec_skip_ws(s, 2) == 2);
}

/// The concatenation of the chunks, in order.
pub open spec fn spec_concat(bs: Seq<Seq<u8>>) -> Seq<u8>
    decreases bs.len(),
{
    if bs.len() == 0 {
        Seq::<u8>::empty()
    } else {
        bs[0] + spec_concat(bs.drop_first())
    }
}

pub proof fn lemma_concat_push(bs: Seq<Seq<u8>>, x: Seq<u8>)
    ensures
        spec_concat(bs.push(x)) == spec_concat(bs) + x,
    decreases bs.len(),
{
    reveal_with_fuel(spec_concat, 3);
    if bs.len() == 0 {
        assert(bs.push(x).drop_first() =~= Seq::<Seq<u8>>::empty());
        assert(bs.push(x)[0] == x);
        assert(spec_concat(bs.push(x)) =~= spec_concat(bs) + x);
    } else {
        assert(bs.push(x).drop_first() =~= bs.drop_first().push(x));
        lemma_concat_push(bs.drop_first(), x);
        assert(spec_concat(bs.push(x)) =~= spec_concat(bs) + x);
    }
}

/// Assembles a downloaded attachment: the bytes of the streamed
/// chunks, concatenated in the order they arrived. What is written to
/// disk is exactly this buffer.
pub fn assemble_chunks(chunks: &Vec<Vec<u8>>) -> (out: Vec<u8>)
    ensures
        out@ == spec_concat(chunks.deep_view()),
{
    let mut out: Vec<u8> = Vec::new();
    let mut i: usize = 0;
    assert(chunks.deep_view().subrange(0, 0) =~= Seq::<Seq<u8>>::empty());
    while i < chunks.len()
        invariant
            i <= chunks.len(),
            out@ == spec_concat(chunks.deep_view().subrange(0, i as int)),
        decreases chunks.len() - i,
    {
        let chunk = &chunks[i];
        let mut j: usize = 0;
        let ghost out0 = out@;
        while j < chunk.len()
            invariant
                j <= chunk@.len(),
                out@ == out0 + chunk@.subrange(0, j as int),
            decreases chunk.len() - j,
        {
            out.push(chunk[j]);
            assert(out@ =~= out0 + chunk@.subrange(0, j + 1));
            j = j + 1;
        }
        proof {
            assert(chunk@.subrange(0, chunk@.len() as int) =~= chunk@);
            let pre = chunks.deep_view().subrange(0, i as int);
            lemma_concat_push(pre, chunk@);
            assert(chunk@ == chunks.deep_view()[i as int]);
            assert(pre.push(chunk@) =~= chunks.deep_view().subrange(0, i + 1));
        }
        i = i + 1;
    }
    assert(chunks.deep_view().subrange(0, chunks.len() as int) =~= chunks.deep_view());
    out
}

} // verus!


use vstd::prelude::*;

use crate::attachment::{
    lemma_attachment_list_bounds, parse_attachment_list, spec_parse_attachment_list, Attachment,
    AttachmentView,
};
use crate::json::{
    lemma_digits_bounds, lemma_jstring_bounds, lemma_skip_ws_bounds, parse_jstring, parse_number,
    skip_ws, spec_parse_jstring, spec_parse_number, spec_skip_ws, str_eq,
};
use crate::timestamp::{
    parse_timestamp, spec_digit_val, spec_is_digit, spec_parse_timestamp, Timestamp,
};

verus! {

/// One complete message, fetched per id: the summary metadata plus the
/// attachment listing and the three body renderings.
#[derive(Debug)]
pub struct Message {
    pub id: usize,
    pub from: String,
    pub subject: String,
    pub date: Timestamp,
    pub attachments: Vec<Attachment>,
    pub body: String,
    pub text_body: String,
    pub html_body: String,
}

/// The mathematical content of a `Message`.
pub ghost struct MessageView {
    pub id: int,
    pub from: Seq<char>,
    pub subject: Seq<char>,
    pub date: Timestamp,
    pub attachments: Seq<AttachmentView>,
    pub body: Seq<char>,
    pub text_body: Seq<char>,
    pub html_body: Seq<char>,
}

impl View for Message {
    type V = MessageView;

    open spec fn view(&self) -> MessageView {
        MessageView {
            id: self.id as int,
            from: self.from@,
            subject: self.subject@,
            date: self.date,
            attachments: self.attachments.deep_view(),
            body: self.body@,
            text_body: self.text_body@,
            html_body: self.html_body@,
        }
    }
}

/// The member state while a message object is read.
pub ghost struct MessageFields {
    pub id: Option<int>,
    pub from: Option<Seq<char>>,
    pub subject: Option<Seq<char>>,
    pub date: Option<Timestamp>,
    pub attachments: Option<Seq<AttachmentView>>,
    pub body: Option<Seq<char>>,
    pub text_body: Option<Seq<char>>,
    pub html_body: Option<Seq<char>>,
}

/// Parses the value of the member named `key` at position `i` and
/// stores it into `f`. `textBody` and `text_body` name one member, as
/// do `htmlBody` and `html_body`; the `attachments` member holds an
/// array of attachment objects.
pub open spec fn spec_parse_message_value(
    s: Seq<char>,
    i: nat,
    key: Seq<char>,
    f: MessageFields,
) -> Option<(MessageFields, nat)> {
    if key == "id"@ {
        if f.id is Some {
            None
        } else {
            match spec_parse_number(s, i) {
                None => None,
                Some(p) => if p.0 > usize::MAX {
                    None
                } else {
                    Some((MessageFields { id: Some(p.0), ..f }, p.1))
                },
            }
        }
    } else if key == "from"@ {
        if f.from is Some || i >= s.len() || s[i as int] != '"' {
            None
        } else {
            match spec_parse_jstring(s, (i + 1) as nat, Seq::<char>::empty()) {
                None => None,
                Some(p) => Some((MessageFields { from: Some(p.0), ..f }, p.1)),
            }
        }
    } else if key == "subject"@ {
        if f.subject is Some || i >= s.len() || s[i as int] != '"' {
            None
        } else {
            match spec_parse_jstring(s, (i + 1) as nat, Seq::<char>::empty()) {
                None => None,
                Some(p) => Some((MessageFields { subject: Some(p.0), ..f }, p.1)),
            }
        }
    } else if key == "date"@ {
        if f.date is Some || i >= s.len() || s[i as int] != '"' {
            None
        } else {
            match spec_parse_jstring(s, (i + 1) as nat, Seq::<char>::empty()) {
                None => None,
                Some(p) => match spec_parse_timestamp(p.0) {
                    None => None,
                    Some(t) => Some((MessageFields { date: Some(t), ..f }, p.1)),
                },
            }
        }
    } else if key == "attachments"@ {
        if f.attachments is Some {
            None
        } else {
            match spec_parse_attachment_list(s, i) {
                None => None,
                Some(p) => Some((MessageFields { attachments: Some(p.0), ..f }, p.1)),
            }
        }
    } else if key == "body"@ {
        if f.body is Some || i >= s.len() || s[i as int] != '"' {
            None
        } else {
            match spec_parse_jstring(s, (i + 1) as nat, Seq::<char>::empty()) {
                None => None,
                Some(p) => Some((MessageFields { body: Some(p.0), ..f }, p.1)),
            }
        }
    } else if key == "textBody"@ || key == "text_body"@ {
        if f.text_body is Some || i >= s.len() || s[i as int] != '"' {
            None
        } else {
            match spec_parse_jstring(s, (i + 1) as nat, Seq::<char>::empty()) {
                None => None,
                Some(p) => Some((MessageFields { text_body: Some(p.0), ..f }, p.1)),
            }
        }
    } else if key == "htmlBody"@ || key == "html_body"@ {
        if f.html_body is Some || i >= s.len() || s[i as int] != '"' {
            None
        } else {
            match spec_parse_jstring(s, (i + 1) as nat, Seq::<char>::empty()) {
                None => None,
                Some(p) => Some((MessageFields { html_body: Some(p.0), ..f }, p.1)),
            }
        }
    } else {
        None
    }
}

pub proof fn lemma_message_value_bounds(s: Seq<char>, i: nat, key: Seq<char>, f: MessageFields)
    ensures
        spec_parse_message_value(s, i, key, f) matches Some(p) ==> i < p.1 <= s.len(),
{
    if i < s.len() && s[i as int] == '"' {
        lemma_jstring_bounds(s, (i + 1) as nat, Seq::<char>::empty());
    }
    if i < s.len() && spec_is_digit(s[i as int]) && s[i as int] != '0' {
        lemma_digits_bounds(s, i + 1, spec_digit_val(s[i as int]));
    }
    lemma_attachment_list_bounds(s, i);
}

/// Parses the members of a message object, entered just after `{` or
/// `,`, and assembles the record at the closing `}`. An object missing
/// a field is rejected.
pub open spec fn spec_parse_message_members(s: Seq<char>, i: nat, f: MessageFields) -> Option<
    (MessageView, nat),
>
    decreases s.len() - i,
    via spec_parse_message_members_decreases
{
    let j = spec_skip_ws(s, i);
    if j >= s.len() || s[j as int] != '"' {
        None
    } else {
        match spec_parse_jstring(s, (j + 1) as nat, Seq::<char>::empty()) {
            None => None,
            Some(kp) => {
                let c = spec_skip_ws(s, kp.1);
                if c >= s.len() || s[c as int] != ':' {
                    None
                } else {
                    match spec_parse_message_value(s, spec_skip_ws(s, (c + 1) as nat), kp.0, f) {
                        None => None,
                        Some(st) => {
                            let m = spec_skip_ws(s, st.1);
                            if m >= s.len() {
                                None
                            } else if s[m as int] == '}' {
                                spec_assemble_message(st.0, (m + 1) as nat)
                            } else if s[m as int] == ',' {
                                spec_parse_message_members(s, (m + 1) as nat, st.0)
                            } else {
                                None
                            }
                        },
                    }
                }
            },
        }
    }
}

/// Builds the record at the closing `}` if every member has appeared.
pub open spec fn spec_assemble_message(f: MessageFields, end: nat) -> Option<(MessageView, nat)> {
    if f.id is Some && f.from is Some && f.subject is Some && f.date is Some && f.attachments
        is Some && f.body is Some && f.text_body is Some && f.html_body is Some {
        Some(
            (
                MessageView {
                    id: f.id.unwrap(),
                    from: f.from.unwrap(),
                    subject: f.subject.unwrap(),
                    date: f.date.unwrap(),
                    attachments: f.attachments.unwrap(),
                    body: f.body.unwrap(),
                    text_body: f.text_body.unwrap(),
                    html_body: f.html_body.unwrap(),
                },
                end,
            ),
        )
    } else {
        None
    }
}

#[via_fn]
proof fn spec_parse_message_members_decreases(s: Seq<char>, i: nat, f: MessageFields) {
    let j = spec_skip_ws(s, i);
    lemma_skip_ws_bounds(s, i);
    if j < s.len() && s[j as int] == '"' {
        lemma_jstring_bounds(s, (j + 1) as nat, Seq::<char>::empty());
        if let Some(kp) = spec_parse_jstring(s, (j + 1) as nat, Seq::<char>::empty()) {
            let c = spec_skip_ws(s, kp.1);
            lemma_skip_ws_bounds(s, kp.1);
            if c < s.len() && s[c as int] == ':' {
                let v = spec_skip_ws(s, (c + 1) as nat);
                lemma_skip_ws_bounds(s, (c + 1) as nat);
                lemma_message_value_bounds(s, v, kp.0, f);
                if let Some(st) = spec_parse_message_value(s, v, kp.0, f) {
                    lemma_skip_ws_bounds(s, st.1);
                }
            }
        }
    }
}

/// Parses one message object starting at the first non-whitespace
/// position at or after `i`, which must hold `{`.
pub open spec fn spec_parse_message_obj(s: Seq<char>, i: nat) -> Option<(MessageView, nat)> {
    let j = spec_skip_ws(s, i);
    if j >= s.len() || s[j as int] != '{' {
        None
    } else {
        spec_parse_message_members(
            s,
            (j + 1) as nat,
            MessageFields {
                id: None,
                from: None,
                subject: None,
                date: None,
                attachments: None,
                body: None,
                text_body: None,
                html_body: None,
            },
        )
    }
}

/// Parses a whole document holding one message object, provided
/// nothing but whitespace follows.
pub open spec fn spec_parse_message_doc(s: Seq<char>) -> Option<MessageView> {
    match spec_parse_message_obj(s, 0) {
        None => None,
        Some(p) => if spec_skip_ws(s, p.1) == s.len() {
            Some(p.0)
        } else {
            None
        },
    }
}

/// The member state named by the current partial parse.
pub open spec fn message_fields(
    id: Option<usize>,
    from: Option<String>,
    subject: Option<String>,
    date: Option<Timestamp>,
    attachments: Option<Vec<Attachment>>,
    body: Option<String>,
    text_body: Option<String>,
    html_body: Option<String>,
) -> MessageFields {
    MessageFields {
        id: match id {
            Some(v) => Some(v as int),
            None => None,
        },
        from: match from {
            Some(v) => Some(v@),
            None => None,
        },
        subject: match subject {
            Some(v) => Some(v@),
            None => None,
        },
        date: date,
        attachments: match attachments {
            Some(v) => Some(v.deep_view()),
            None => None,
        },
        body: match body {
            Some(v) => Some(v@),
            None => None,
        },
        text_body: match text_body {
            Some(v) => Some(v@),
            None => None,
        },
        html_body: match html_body {
            Some(v) => Some(v@),
            None => None,
        },
    }
}

/// Parses a whole document holding one message object executably.
///
/// Succeeds exactly on the documents `spec_parse_message_doc` accepts,
/// and then returns the decoded message.
pub fn parse_message_doc(s: &str) -> (r: Option<Message>)
    ensures
        match r {
            Some(m) => spec_parse_message_doc(s@) == Some(m@),
            None => spec_parse_message_doc(s@) is None,
        },
{
    let n = s.unicode_len();
    let j = skip_ws(s, n, 0);
    if j >= n {
        return None;
    }
    if s.get_char(j) != '{' {
        return None;
    }
    let mut id: Option<usize> = None;
    let mut from: Option<String> = None;
    let mut subject: Option<String> = None;
    let mut date: Option<Timestamp> = None;
    let mut attachments: Option<Vec<Attachment>> = None;
    let mut body: Option<String> = None;
    let mut text_body: Option<String> = None;
    let mut html_body: Option<String> = None;
    let mut j2 = j + 1;
    loop
        invariant
            n == s@.len(),
            j2 <= n,
            spec_parse_message_obj(s@, 0) == spec_parse_message_members(
                s@,
                j2 as nat,
                message_fields(id, from, subject, date, attachments, body, text_body, html_body),
            ),
        decreases n - j2,
    {
        let ghost fields_at_entry = message_fields(
            id,
            from,
            subject,
            date,
            attachments,
            body,
            text_body,
            html_body,
        );
        let j1 = skip_ws(s, n, j2);
        if j1 >= n {
            return None;
        }
        if s.get_char(j1) != '"' {
            return None;
        }
        let (key, k) = match parse_jstring(s, n, j1 + 1) {
            None => { return None; },
            Some(p) => p,
        };
        let c = skip_ws(s, n, k);
        if c >= n {
            return None;
        }
        if s.get_char(c) != ':' {
            return None;
        }
        let v = skip_ws(s, n, c + 1);
        let end: usize;
        if str_eq(key.as_str(), "id") {
            if id.is_some() {
                return None;
            }
            let (num, _fits) = parse_number(s, n, v);
            let (val, e) = match num {
                None => { return None; },
                Some(p) => p,
            };
            id = Some(val);
            end = e;
        } else if str_eq(key.as_str(), "from") {
            if from.is_some() {
                return None;
            }
            if v >= n {
                return None;
            }
            if s.get_char(v) != '"' {
                return None;
            }
            let (val, e) = match parse_jstring(s, n, v + 1) {
                None => { return None; },
                Some(p) => p,
            };
            from = Some(val);
            end = e;
        } else if str_eq(key.as_str(), "subject") {
            if subject.is_some() {
                return None;
            }
            if v >= n {
                return None;
            }
            if s.get_char(v) != '"' {
                return None;
            }
            let (val, e) = match parse_jstring(s, n, v + 1) {
                None => { return None; },
                Some(p) => p,
            };
            subject = Some(val);
            end = e;
        } else if str_eq(key.as_str(), "date") {
            if date.is_some() {
                return None;
            }
            if v >= n {
                return None;
            }
            if s.get_char(v) != '"' {
                return None;
            }
            let (val, e) = match parse_jstring(s, n, v + 1) {
                None => { return None; },
                Some(p) => p,
            };
            let t = match parse_timestamp(val.as_str()) {
                Ok(t) => t,
                Err(_) => { return None; },
            };
            date = Some(t);
            end = e;
        } else if str_eq(key.as_str(), "attachments") {
            if attachments.is_some() {
                return None;
            }
            let (val, e) = match parse_attachment_list(s, n, v) {
                None => { return None; },
                Some(p) => p,
            };
            attachments = Some(val);
            end = e;
        } else if str_eq(key.as_str(), "body") {
            if body.is_some() {
                return None;
            }
            if v >= n {
                return None;
            }
            if s.get_char(v) != '"' {
                return None;
            }
            let (val, e) = match parse_jstring(s, n, v + 1) {
                None => { return None; },
                Some(p) => p,
            };
            body = Some(val);
            end = e;
        } else if str_eq(key.as_str(), "textBody") || str_eq(key.as_str(), "text_body") {
            if text_body.is_some() {
                return None;
            }
            if v >= n {
                return None;
            }
            if s.get_char(v) != '"' {
                return None;
            }
            let (val, e) = match parse_jstring(s, n, v + 1) {
                None => { return None; },
                Some(p) => p,
            };
            text_body = Some(val);
            end = e;
        } else if str_eq(key.as_str(), "htmlBody") || str_eq(key.as_str(), "html_body") {
            if html_body.is_some() {
                return None;
            }
            if v >= n {
                return None;
            }
            if s.get_char(v) != '"' {
                return None;
            }
            let (val, e) = match parse_jstring(s, n, v + 1) {
                None => { return None; },
                Some(p) => p,
            };
            html_body = Some(val);
            end = e;
        } else {
            return None;
        }
        assert(spec_parse_message_value(s@, v as nat, key@, fields_at_entry) == Some(
            (
                message_fields(id, from, subject, date, attachments, body, text_body, html_body),
                end as nat,
            ),
        ));
        let m = skip_ws(s, n, end);
        if m >= n {
            return None;
        }
        let cm = s.get_char(m);
        if cm == '}' {
            match (id, from, subject, date, attachments, body, text_body, html_body) {
                (
                    Some(idv),
                    Some(fv),
                    Some(sv),
                    Some(dv),
                    Some(av),
                    Some(bv),
                    Some(tv),
                    Some(hv),
                ) => {
                    let msg = Message {
                        id: idv,
                        from: fv,
                        subject: sv,
                        date: dv,
                        attachments: av,
                        body: bv,
                        text_body: tv,
                        html_body: hv,
                    };
                    if skip_ws(s, n, m + 1) == n {
                        return Some(msg);
                    } else {
                        return None;
                    }
                },
                _ => { return None; },
            }
        } else if cm == ',' {
            j2 = m + 1;
        } else {
            return None;
        }
    }
}

} // verus!

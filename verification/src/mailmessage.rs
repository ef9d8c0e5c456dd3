use vstd::prelude::*;

use crate::json::{
    lemma_digits_bounds, lemma_jstring_bounds, lemma_skip_ws_bounds, parse_jstring, parse_number,
    skip_ws, spec_parse_jstring, spec_parse_number, spec_skip_ws, str_eq,
};
use crate::timestamp::{
    parse_timestamp, spec_digit_val, spec_is_digit, spec_parse_timestamp, Timestamp,
};

verus! {

/// One entry of an inbox listing: per-message metadata without a body.
/// A fresh listing supersedes the previous one wholesale.
#[derive(Debug)]
pub struct MailMessage {
    pub id: usize,
    pub from: String,
    pub subject: String,
    pub date: Timestamp,
}

/// The mathematical content of a `MailMessage`.
pub ghost struct MailMessageView {
    pub id: int,
    pub from: Seq<char>,
    pub subject: Seq<char>,
    pub date: Timestamp,
}

impl View for MailMessage {
    type V = MailMessageView;

    open spec fn view(&self) -> MailMessageView {
        MailMessageView {
            id: self.id as int,
            from: self.from@,
            subject: self.subject@,
            date: self.date,
        }
    }
}

impl DeepView for MailMessage {
    type V = MailMessageView;

    open spec fn deep_view(&self) -> MailMessageView {
        self.view()
    }
}

/// The member state while a summary object is read.
pub ghost struct SummaryFields {
    pub id: Option<int>,
    pub from: Option<Seq<char>>,
    pub subject: Option<Seq<char>>,
    pub date: Option<Timestamp>,
}

/// Parses the value of the member named `key` at position `i` and
/// stores it into `f`. The `date` member must hold a string in the
/// exact `YYYY-MM-DD HH:MM:SS` format; an id that does not fit
/// `usize`, a repeated member, an unknown member, or a value of the
/// wrong kind is rejected.
pub open spec fn spec_parse_summary_value(
    s: Seq<char>,
    i: nat,
    key: Seq<char>,
    f: SummaryFields,
) -> Option<(SummaryFields, nat)> {
    if key == "id"@ {
        if f.id is Some {
            None
        } else {
            match spec_parse_number(s, i) {
                None => None,
                Some(p) => if p.0 > usize::MAX {
                    None
                } else {
                    Some((SummaryFields { id: Some(p.0), ..f }, p.1))
                },
            }
        }
    } else if key == "from"@ {
        if f.from is Some || i >= s.len() || s[i as int] != '"' {
            None
        } else {
            match spec_parse_jstring(s, (i + 1) as nat, Seq::<char>::empty()) {
                None => None,
                Some(p) => Some((SummaryFields { from: Some(p.0), ..f }, p.1)),
            }
        }
    } else if key == "subject"@ {
        if f.subject is Some || i >= s.len() || s[i as int] != '"' {
            None
        } else {
            match spec_parse_jstring(s, (i + 1) as nat, Seq::<char>::empty()) {
                None => None,
                Some(p) => Some((SummaryFields { subject: Some(p.0), ..f }, p.1)),
            }
        }
    } else if key == "date"@ {
        if f.date is Some || i >= s.len() || s[i as int] != '"' {
            None
        } else {
            match spec_parse_jstring(s, (i + 1) as nat, Seq::<char>::empty()) {
                None => None,
                Some(p) => match spec_parse_timestamp(p.0) {
                    None => None,
                    Some(t) => Some((SummaryFields { date: Some(t), ..f }, p.1)),
                },
            }
        }
    } else {
        None
    }
}

pub proof fn lemma_summary_value_bounds(s: Seq<char>, i: nat, key: Seq<char>, f: SummaryFields)
    ensures
        spec_parse_summary_value(s, i, key, f) matches Some(p) ==> i < p.1 <= s.len(),
{
    if i < s.len() && s[i as int] == '"' {
        lemma_jstring_bounds(s, (i + 1) as nat, Seq::<char>::empty());
    }
    if i < s.len() && spec_is_digit(s[i as int]) && s[i as int] != '0' {
        lemma_digits_bounds(s, i + 1, spec_digit_val(s[i as int]));
    }
}

/// Parses the members of a summary object, entered just after `{` or
/// `,`, and assembles the record at the closing `}`. An object missing
/// a field is rejected.
pub open spec fn spec_parse_summary_members(s: Seq<char>, i: nat, f: SummaryFields) -> Option<
    (MailMessageView, nat),
>
    decreases s.len() - i,
    via spec_parse_summary_members_decreases
{
    let j = spec_skip_ws(s, i);
    if j >= s.len() || s[j as int] != '"' {
        None
    } else {
        match spec_parse_jstring(s, (j + 1) as nat, Seq::<char>::empty()) {
            None => None,
            Some(kp) => {
                let c = spec_skip_ws(s, kp.1);
                if c >= s.len() || s[c as int] != ':' {
                    None
                } else {
                    match spec_parse_summary_value(s, spec_skip_ws(s, (c + 1) as nat), kp.0, f) {
                        None => None,
                        Some(st) => {
                            let m = spec_skip_ws(s, st.1);
                            if m >= s.len() {
                                None
                            } else if s[m as int] == '}' {
                                match (st.0.id, st.0.from, st.0.subject, st.0.date) {
                                    (Some(id), Some(from), Some(subject), Some(date)) => Some(
                                        (
                                            MailMessageView {
                                                id: id,
                                                from: from,
                                                subject: subject,
                                                date: date,
                                            },
                                            (m + 1) as nat,
                                        ),
                                    ),
                                    _ => None,
                                }
                            } else if s[m as int] == ',' {
                                spec_parse_summary_members(s, (m + 1) as nat, st.0)
                            } else {
                                None
                            }
                        },
                    }
                }
            },
        }
    }
}

#[via_fn]
proof fn spec_parse_summary_members_decreases(s: Seq<char>, i: nat, f: SummaryFields) {
    let j = spec_skip_ws(s, i);
    lemma_skip_ws_bounds(s, i);
    if j < s.len() && s[j as int] == '"' {
        lemma_jstring_bounds(s, (j + 1) as nat, Seq::<char>::empty());
        if let Some(kp) = spec_parse_jstring(s, (j + 1) as nat, Seq::<char>::empty()) {
            let c = spec_skip_ws(s, kp.1);
            lemma_skip_ws_bounds(s, kp.1);
            if c < s.len() && s[c as int] == ':' {
                let v = spec_skip_ws(s, (c + 1) as nat);
                lemma_skip_ws_bounds(s, (c + 1) as nat);
                lemma_summary_value_bounds(s, v, kp.0, f);
                if let Some(st) = spec_parse_summary_value(s, v, kp.0, f) {
                    lemma_skip_ws_bounds(s, st.1);
                }
            }
        }
    }
}

pub proof fn lemma_summary_members_bounds(s: Seq<char>, i: nat, f: SummaryFields)
    ensures
        spec_parse_summary_members(s, i, f) matches Some(p) ==> i < p.1 <= s.len(),
    decreases s.len() - i,
{
    let j = spec_skip_ws(s, i);
    lemma_skip_ws_bounds(s, i);
    if j < s.len() && s[j as int] == '"' {
        lemma_jstring_bounds(s, (j + 1) as nat, Seq::<char>::empty());
        if let Some(kp) = spec_parse_jstring(s, (j + 1) as nat, Seq::<char>::empty()) {
            let c = spec_skip_ws(s, kp.1);
            lemma_skip_ws_bounds(s, kp.1);
            if c < s.len() && s[c as int] == ':' {
                let v = spec_skip_ws(s, (c + 1) as nat);
                lemma_skip_ws_bounds(s, (c + 1) as nat);
                lemma_summary_value_bounds(s, v, kp.0, f);
                if let Some(st) = spec_parse_summary_value(s, v, kp.0, f) {
                    let m = spec_skip_ws(s, st.1);
                    lemma_skip_ws_bounds(s, st.1);
                    if m < s.len() && s[m as int] == ',' {
                        lemma_summary_members_bounds(s, (m + 1) as nat, st.0);
                    }
                }
            }
        }
    }
}

/// Parses one summary object starting at the first non-whitespace
/// position at or after `i`, which must hold `{`.
pub open spec fn spec_parse_summary_obj(s: Seq<char>, i: nat) -> Option<(MailMessageView, nat)> {
    let j = spec_skip_ws(s, i);
    if j >= s.len() || s[j as int] != '{' {
        None
    } else {
        spec_parse_summary_members(
            s,
            (j + 1) as nat,
            SummaryFields { id: None, from: None, subject: None, date: None },
        )
    }
}

pub proof fn lemma_summary_obj_bounds(s: Seq<char>, i: nat)
    ensures
        spec_parse_summary_obj(s, i) matches Some(p) ==> i < p.1 <= s.len(),
{
    let j = spec_skip_ws(s, i);
    lemma_skip_ws_bounds(s, i);
    if j < s.len() && s[j as int] == '{' {
        lemma_summary_members_bounds(
            s,
            (j + 1) as nat,
            SummaryFields { id: None, from: None, subject: None, date: None },
        );
    }
}

/// The member state named by the current partial parse.
pub open spec fn summary_fields(
    id: Option<usize>,
    from: Option<String>,
    subject: Option<String>,
    date: Option<Timestamp>,
) -> SummaryFields {
    SummaryFields {
        id: match id {
            Some(v) => Some(v as int),
            None => None,
        },
        from: match from {
            Some(v) => Some(v@),
            None => None,
        },
        subject: match subject {
            Some(v) => Some(v@),
            None => None,
        },
        date: date,
    }
}

/// Parses one summary object executably.
pub(crate) fn parse_summary_obj(s: &str, n: usize, i: usize) -> (r: Option<(MailMessage, usize)>)
    requires
        n == s@.len(),
        i <= n,
    ensures
        match r {
            Some(p) => spec_parse_summary_obj(s@, i as nat) == Some((p.0@, p.1 as nat)) && i < p.1
                <= n,
            None => spec_parse_summary_obj(s@, i as nat) is None,
        },
{
    let j = skip_ws(s, n, i);
    if j >= n {
        return None;
    }
    if s.get_char(j) != '{' {
        return None;
    }
    let mut id: Option<usize> = None;
    let mut from: Option<String> = None;
    let mut subject: Option<String> = None;
    let mut date: Option<Timestamp> = None;
    let mut j2 = j + 1;
    loop
        invariant
            n == s@.len(),
            i < j2 <= n,
            spec_parse_summary_obj(s@, i as nat) == spec_parse_summary_members(
                s@,
                j2 as nat,
                summary_fields(id, from, subject, date),
            ),
        decreases n - j2,
    {
        let ghost fields_at_entry = summary_fields(id, from, subject, date);
        let j1 = skip_ws(s, n, j2);
        if j1 >= n {
            return None;
        }
        if s.get_char(j1) != '"' {
            return None;
        }
        let (key, k) = match parse_jstring(s, n, j1 + 1) {
            None => { return None; },
            Some(p) => p,
        };
        let c = skip_ws(s, n, k);
        if c >= n {
            return None;
        }
        if s.get_char(c) != ':' {
            return None;
        }
        let v = skip_ws(s, n, c + 1);
        let end: usize;
        if str_eq(key.as_str(), "id") {
            if id.is_some() {
                return None;
            }
            let (num, _fits) = parse_number(s, n, v);
            let (val, e) = match num {
                None => { return None; },
                Some(p) => p,
            };
            id = Some(val);
            end = e;
        } else if str_eq(key.as_str(), "from") {
            if from.is_some() {
                return None;
            }
            if v >= n {
                return None;
            }
            if s.get_char(v) != '"' {
                return None;
            }
            let (val, e) = match parse_jstring(s, n, v + 1) {
                None => { return None; },
                Some(p) => p,
            };
            from = Some(val);
            end = e;
        } else if str_eq(key.as_str(), "subject") {
            if subject.is_some() {
                return None;
            }
            if v >= n {
                return None;
            }
            if s.get_char(v) != '"' {
                return None;
            }
            let (val, e) = match parse_jstring(s, n, v + 1) {
                None => { return None; },
                Some(p) => p,
            };
            subject = Some(val);
            end = e;
        } else if str_eq(key.as_str(), "date") {
            if date.is_some() {
                return None;
            }
            if v >= n {
                return None;
            }
            if s.get_char(v) != '"' {
                return None;
            }
            let (val, e) = match parse_jstring(s, n, v + 1) {
                None => { return None; },
                Some(p) => p,
            };
            let t = match parse_timestamp(val.as_str()) {
                Ok(t) => t,
                Err(_) => { return None; },
            };
            date = Some(t);
            end = e;
        } else {
            return None;
        }
        assert(spec_parse_summary_value(s@, v as nat, key@, fields_at_entry) == Some(
            (summary_fields(id, from, subject, date), end as nat),
        ));
        let m = skip_ws(s, n, end);
        if m >= n {
            return None;
        }
        let cm = s.get_char(m);
        if cm == '}' {
            match (id, from, subject, date) {
                (Some(idv), Some(fv), Some(sv), Some(dv)) => {
                    let msg = MailMessage { id: idv, from: fv, subject: sv, date: dv };
                    return Some((msg, m + 1));
                },
                _ => { return None; },
            }
        } else if cm == ',' {
            j2 = m + 1;
        } else {
            return None;
        }
    }
}

/// Parses the elements of a nonempty JSON array of summary objects,
/// entered just after `[` or `,`.
pub open spec fn spec_parse_summary_items(s: Seq<char>, i: nat, acc: Seq<MailMessageView>) -> Option<
    (Seq<MailMessageView>, nat),
>
    decreases s.len() - i,
    via spec_parse_summary_items_decreases
{
    match spec_parse_summary_obj(s, i) {
        None => None,
        Some(p) => {
            let m = spec_skip_ws(s, p.1);
            if m >= s.len() {
                None
            } else if s[m as int] == ']' {
                Some((acc.push(p.0), (m + 1) as nat))
            } else if s[m as int] == ',' {
                spec_parse_summary_items(s, (m + 1) as nat, acc.push(p.0))
            } else {
                None
            }
        },
    }
}

#[via_fn]
proof fn spec_parse_summary_items_decreases(s: Seq<char>, i: nat, acc: Seq<MailMessageView>) {
    lemma_summary_obj_bounds(s, i);
    if let Some(p) = spec_parse_summary_obj(s, i) {
        lemma_skip_ws_bounds(s, p.1);
    }
}

/// Parses a whole document holding a JSON array of summary objects:
/// the inbox listing, provided nothing but whitespace follows.
pub open spec fn spec_parse_summaries(s: Seq<char>) -> Option<Seq<MailMessageView>> {
    let i = spec_skip_ws(s, 0);
    if i >= s.len() || s[i as int] != '[' {
        None
    } else {
        let j = spec_skip_ws(s, (i + 1) as nat);
        if j < s.len() && s[j as int] == ']' {
            if spec_skip_ws(s, (j + 1) as nat) == s.len() {
                Some(Seq::<MailMessageView>::empty())
            } else {
                None
            }
        } else {
            match spec_parse_summary_items(s, (i + 1) as nat, Seq::<MailMessageView>::empty()) {
                None => None,
                Some(p) => if spec_skip_ws(s, p.1) == s.len() {
                    Some(p.0)
                } else {
                    None
                },
            }
        }
    }
}

/// Parses a whole document holding an inbox listing.
///
/// Succeeds exactly on the documents `spec_parse_summaries` accepts,
/// and then returns the listed summaries in order.
pub fn parse_summaries(s: &str) -> (r: Option<Vec<MailMessage>>)
    ensures
        match r {
            Some(v) => spec_parse_summaries(s@) == Some(v.deep_view()),
            None => spec_parse_summaries(s@) is None,
        },
{
    let n = s.unicode_len();
    let i = skip_ws(s, n, 0);
    if i >= n {
        return None;
    }
    if s.get_char(i) != '[' {
        return None;
    }
    let j = skip_ws(s, n, i + 1);
    if j < n && s.get_char(j) == ']' {
        if skip_ws(s, n, j + 1) == n {
            let empty: Vec<MailMessage> = Vec::new();
            assert(empty.deep_view() =~= Seq::<MailMessageView>::empty());
            return Some(empty);
        } else {
            return None;
        }
    }
    let mut acc: Vec<MailMessage> = Vec::new();
    let mut j2 = i + 1;
    assert(acc.deep_view() =~= Seq::<MailMessageView>::empty());
    loop
        invariant
            n == s@.len(),
            i < j2 <= n,
            spec_parse_summaries(s@) == (match spec_parse_summary_items(
                s@,
                j2 as nat,
                acc.deep_view(),
            ) {
                None => None::<Seq<MailMessageView>>,
                Some(p) => if spec_skip_ws(s@, p.1) == s@.len() {
                    Some(p.0)
                } else {
                    None
                },
            }),
        decreases n - j2,
    {
        let (msg, k) = match parse_summary_obj(s, n, j2) {
            None => { return None; },
            Some(p) => p,
        };
        let m = skip_ws(s, n, k);
        if m >= n {
            return None;
        }
        let cm = s.get_char(m);
        let ghost acc0 = acc.deep_view();
        if cm == ']' {
            acc.push(msg);
            assert(acc.deep_view() =~= acc0.push(msg@));
            if skip_ws(s, n, m + 1) == n {
                return Some(acc);
            } else {
                return None;
            }
        } else if cm == ',' {
            acc.push(msg);
            assert(acc.deep_view() =~= acc0.push(msg@));
            j2 = m + 1;
        } else {
            return None;
        }
    }
}

} // verus!

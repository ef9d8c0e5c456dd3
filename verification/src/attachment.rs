use vstd::prelude::*;

use crate::json::{
    lemma_digits_bounds, lemma_jstring_bounds, lemma_skip_ws_bounds, parse_jstring, parse_number,
    skip_ws, spec_parse_jstring, spec_parse_number, spec_skip_ws, str_eq,
};
use crate::timestamp::{spec_digit_val, spec_is_digit};

verus! {

/// One attachment listed inside a full message: its file name, its
/// content type, and its size in bytes. It has no identity of its own.
#[derive(Debug)]
pub struct Attachment {
    pub filename: String,
    pub content_type: String,
    pub size: usize,
}

/// The mathematical content of an `Attachment`.
pub ghost struct AttachmentView {
    pub filename: Seq<char>,
    pub content_type: Seq<char>,
    pub size: int,
}

impl View for Attachment {
    type V = AttachmentView;

    open spec fn view(&self) -> AttachmentView {
        AttachmentView {
            filename: self.filename@,
            content_type: self.content_type@,
            size: self.size as int,
        }
    }
}

impl DeepView for Attachment {
    type V = AttachmentView;

    open spec fn deep_view(&self) -> AttachmentView {
        self.view()
    }
}

/// The member state while an attachment object is read: each field
/// once it has appeared.
pub ghost struct AttachmentFields {
    pub filename: Option<Seq<char>>,
    pub content_type: Option<Seq<char>>,
    pub size: Option<int>,
}

/// Parses the value of the member named `key` at position `i` and
/// stores it into `f`. A repeated member, a member this record does
/// not have, a size that does not fit `usize`, or a value of the wrong
/// kind is rejected.
pub open spec fn spec_parse_attachment_value(
    s: Seq<char>,
    i: nat,
    key: Seq<char>,
    f: AttachmentFields,
) -> Option<(AttachmentFields, nat)> {
    if key == "filename"@ {
        if f.filename is Some || i >= s.len() || s[i as int] != '"' {
            None
        } else {
            match spec_parse_jstring(s, (i + 1) as nat, Seq::<char>::empty()) {
                None => None,
                Some(p) => Some((AttachmentFields { filename: Some(p.0), ..f }, p.1)),
            }
        }
    } else if key == "contentType"@ || key == "content_type"@ {
        if f.content_type is Some || i >= s.len() || s[i as int] != '"' {
            None
        } else {
            match spec_parse_jstring(s, (i + 1) as nat, Seq::<char>::empty()) {
                None => None,
                Some(p) => Some((AttachmentFields { content_type: Some(p.0), ..f }, p.1)),
            }
        }
    } else if key == "size"@ {
        if f.size is Some {
            None
        } else {
            match spec_parse_number(s, i) {
                None => None,
                Some(p) => if p.0 > usize::MAX {
                    None
                } else {
                    Some((AttachmentFields { size: Some(p.0), ..f }, p.1))
                },
            }
        }
    } else {
        None
    }
}

pub proof fn lemma_attachment_value_bounds(
    s: Seq<char>,
    i: nat,
    key: Seq<char>,
    f: AttachmentFields,
)
    ensures
        spec_parse_attachment_value(s, i, key, f) matches Some(p) ==> i < p.1 <= s.len(),
{
    if i < s.len() && s[i as int] == '"' {
        lemma_jstring_bounds(s, (i + 1) as nat, Seq::<char>::empty());
    }
    if i < s.len() && spec_is_digit(s[i as int]) && s[i as int] != '0' {
        lemma_digits_bounds(s, i + 1, spec_digit_val(s[i as int]));
    }
}

/// Parses the members of an attachment object, entered just after `{`
/// or `,`, and assembles the record at the closing `}`. An object
/// missing a field is rejected.
pub open spec fn spec_parse_attachment_members(s: Seq<char>, i: nat, f: AttachmentFields) -> Option<
    (AttachmentView, nat),
>
    decreases s.len() - i,
    via spec_parse_attachment_members_decreases
{
    let j = spec_skip_ws(s, i);
    if j >= s.len() || s[j as int] != '"' {
        None
    } else {
        match spec_parse_jstring(s, (j + 1) as nat, Seq::<char>::empty()) {
            None => None,
            Some(kp) => {
                let c = spec_skip_ws(s, kp.1);
                if c >= s.len() || s[c as int] != ':' {
                    None
                } else {
                    match spec_parse_attachment_value(s, spec_skip_ws(s, (c + 1) as nat), kp.0, f) {
                        None => None,
                        Some(st) => {
                            let m = spec_skip_ws(s, st.1);
                            if m >= s.len() {
                                None
                            } else if s[m as int] == '}' {
                                match (st.0.filename, st.0.content_type, st.0.size) {
                                    (Some(fname), Some(ctype), Some(size)) => Some(
                                        (
                                            AttachmentView {
                                                filename: fname,
                                                content_type: ctype,
                                                size: size,
                                            },
                                            (m + 1) as nat,
                                        ),
                                    ),
                                    _ => None,
                                }
                            } else if s[m as int] == ',' {
                                spec_parse_attachment_members(s, (m + 1) as nat, st.0)
                            } else {
                                None
                            }
                        },
                    }
                }
            },
        }
    }
}

#[via_fn]
proof fn spec_parse_attachment_members_decreases(s: Seq<char>, i: nat, f: AttachmentFields) {
    let j = spec_skip_ws(s, i);
    lemma_skip_ws_bounds(s, i);
    if j < s.len() && s[j as int] == '"' {
        lemma_jstring_bounds(s, (j + 1) as nat, Seq::<char>::empty());
        if let Some(kp) = spec_parse_jstring(s, (j + 1) as nat, Seq::<char>::empty()) {
            let c = spec_skip_ws(s, kp.1);
            lemma_skip_ws_bounds(s, kp.1);
            if c < s.len() && s[c as int] == ':' {
                let v = spec_skip_ws(s, (c + 1) as nat);
                lemma_skip_ws_bounds(s, (c + 1) as nat);
                lemma_attachment_value_bounds(s, v, kp.0, f);
                if let Some(st) = spec_parse_attachment_value(s, v, kp.0, f) {
                    lemma_skip_ws_bounds(s, st.1);
                }
            }
        }
    }
}

pub proof fn lemma_attachment_members_bounds(s: Seq<char>, i: nat, f: AttachmentFields)
    ensures
        spec_parse_attachment_members(s, i, f) matches Some(p) ==> i < p.1 <= s.len(),
    decreases s.len() - i,
{
    let j = spec_skip_ws(s, i);
    lemma_skip_ws_bounds(s, i);
    if j < s.len() && s[j as int] == '"' {
        lemma_jstring_bounds(s, (j + 1) as nat, Seq::<char>::empty());
        if let Some(kp) = spec_parse_jstring(s, (j + 1) as nat, Seq::<char>::empty()) {
            let c = spec_skip_ws(s, kp.1);
            lemma_skip_ws_bounds(s, kp.1);
            if c < s.len() && s[c as int] == ':' {
                let v = spec_skip_ws(s, (c + 1) as nat);
                lemma_skip_ws_bounds(s, (c + 1) as nat);
                lemma_attachment_value_bounds(s, v, kp.0, f);
                if let Some(st) = spec_parse_attachment_value(s, v, kp.0, f) {
                    let m = spec_skip_ws(s, st.1);
                    lemma_skip_ws_bounds(s, st.1);
                    if m < s.len() && s[m as int] == ',' {
                        lemma_attachment_members_bounds(s, (m + 1) as nat, st.0);
                    }
                }
            }
        }
    }
}

/// Parses one attachment object starting at the first non-whitespace
/// position at or after `i`, which must hold `{`.
pub open spec fn spec_parse_attachment_obj(s: Seq<char>, i: nat) -> Option<(AttachmentView, nat)> {
    let j = spec_skip_ws(s, i);
    if j >= s.len() || s[j as int] != '{' {
        None
    } else {
        spec_parse_attachment_members(
            s,
            (j + 1) as nat,
            AttachmentFields { filename: None, content_type: None, size: None },
        )
    }
}

pub proof fn lemma_attachment_obj_bounds(s: Seq<char>, i: nat)
    ensures
        spec_parse_attachment_obj(s, i) matches Some(p) ==> i < p.1 <= s.len(),
{
    let j = spec_skip_ws(s, i);
    lemma_skip_ws_bounds(s, i);
    if j < s.len() && s[j as int] == '{' {
        lemma_attachment_members_bounds(
            s,
            (j + 1) as nat,
            AttachmentFields { filename: None, content_type: None, size: None },
        );
    }
}

/// The member state named by the current partial parse.
pub open spec fn att_fields(
    filename: Option<String>,
    content_type: Option<String>,
    size: Option<usize>,
) -> AttachmentFields {
    AttachmentFields {
        filename: match filename {
            Some(v) => Some(v@),
            None => None,
        },
        content_type: match content_type {
            Some(v) => Some(v@),
            None => None,
        },
        size: match size {
            Some(v) => Some(v as int),
            None => None,
        },
    }
}

/// Parses one attachment object executably.
pub(crate) fn parse_attachment_obj(s: &str, n: usize, i: usize) -> (r: Option<(Attachment, usize)>)
    requires
        n == s@.len(),
        i <= n,
    ensures
        match r {
            Some(p) => spec_parse_attachment_obj(s@, i as nat) == Some((p.0@, p.1 as nat)) && i
                < p.1 <= n,
            None => spec_parse_attachment_obj(s@, i as nat) is None,
        },
{
    let j = skip_ws(s, n, i);
    if j >= n {
        return None;
    }
    if s.get_char(j) != '{' {
        return None;
    }
    let mut filename: Option<String> = None;
    let mut content_type: Option<String> = None;
    let mut size: Option<usize> = None;
    let mut j2 = j + 1;
    loop
        invariant
            n == s@.len(),
            i < j2 <= n,
            spec_parse_attachment_obj(s@, i as nat) == spec_parse_attachment_members(
                s@,
                j2 as nat,
                att_fields(filename, content_type, size),
            ),
        decreases n - j2,
    {
        let ghost fields_at_entry = att_fields(filename, content_type, size);
        let j1 = skip_ws(s, n, j2);
        if j1 >= n {
            return None;
        }
        if s.get_char(j1) != '"' {
            return None;
        }
        let (key, k) = match parse_jstring(s, n, j1 + 1) {
            None => { return None; },
            Some(p) => p,
        };
        let c = skip_ws(s, n, k);
        if c >= n {
            return None;
        }
        if s.get_char(c) != ':' {
            return None;
        }
        let v = skip_ws(s, n, c + 1);
        let end: usize;
        if str_eq(key.as_str(), "filename") {
            if filename.is_some() {
                return None;
            }
            if v >= n {
                return None;
            }
            if s.get_char(v) != '"' {
                return None;
            }
            let (val, e) = match parse_jstring(s, n, v + 1) {
                None => { return None; },
                Some(p) => p,
            };
            filename = Some(val);
            end = e;
        } else if str_eq(key.as_str(), "contentType") || str_eq(key.as_str(), "content_type") {
            if content_type.is_some() {
                return None;
            }
            if v >= n {
                return None;
            }
            if s.get_char(v) != '"' {
                return None;
            }
            let (val, e) = match parse_jstring(s, n, v + 1) {
                None => { return None; },
                Some(p) => p,
            };
            content_type = Some(val);
            end = e;
        } else if str_eq(key.as_str(), "size") {
            if size.is_some() {
                return None;
            }
            let (num, _fits) = parse_number(s, n, v);
            let (val, e) = match num {
                None => { return None; },
                Some(p) => p,
            };
            size = Some(val);
            end = e;
        } else {
            return None;
        }
        assert(spec_parse_attachment_value(s@, v as nat, key@, fields_at_entry) == Some(
            (att_fields(filename, content_type, size), end as nat),
        ));
        let m = skip_ws(s, n, end);
        if m >= n {
            return None;
        }
        let cm = s.get_char(m);
        if cm == '}' {
            match (filename, content_type, size) {
                (Some(f), Some(ct), Some(sz)) => {
                    let a = Attachment { filename: f, content_type: ct, size: sz };
                    return Some((a, m + 1));
                },
                _ => { return None; },
            }
        } else if cm == ',' {
            j2 = m + 1;
        } else {
            return None;
        }
    }
}

/// Parses the elements of a nonempty JSON array of attachment objects,
/// entered just after `[` or `,`.
pub open spec fn spec_parse_attachment_items(
    s: Seq<char>,
    i: nat,
    acc: Seq<AttachmentView>,
) -> Option<(Seq<AttachmentView>, nat)>
    decreases s.len() - i,
    via spec_parse_attachment_items_decreases
{
    match spec_parse_attachment_obj(s, i) {
        None => None,
        Some(p) => {
            let m = spec_skip_ws(s, p.1);
            if m >= s.len() {
                None
            } else if s[m as int] == ']' {
                Some((acc.push(p.0), (m + 1) as nat))
            } else if s[m as int] == ',' {
                spec_parse_attachment_items(s, (m + 1) as nat, acc.push(p.0))
            } else {
                None
            }
        },
    }
}

#[via_fn]
proof fn spec_parse_attachment_items_decreases(s: Seq<char>, i: nat, acc: Seq<AttachmentView>) {
    lemma_attachment_obj_bounds(s, i);
    if let Some(p) = spec_parse_attachment_obj(s, i) {
        lemma_skip_ws_bounds(s, p.1);
    }
}

pub proof fn lemma_attachment_items_bounds(s: Seq<char>, i: nat, acc: Seq<AttachmentView>)
    ensures
        spec_parse_attachment_items(s, i, acc) matches Some(p) ==> i < p.1 <= s.len(),
    decreases s.len() - i,
{
    lemma_attachment_obj_bounds(s, i);
    if let Some(p) = spec_parse_attachment_obj(s, i) {
        let m = spec_skip_ws(s, p.1);
        lemma_skip_ws_bounds(s, p.1);
        if m < s.len() && s[m as int] == ',' {
            lemma_attachment_items_bounds(s, (m + 1) as nat, acc.push(p.0));
        }
    }
}

/// Parses a JSON array of attachment objects at position `i`: the
/// records and the position after the closing `]`. The array may be
/// empty.
pub open spec fn spec_parse_attachment_list(s: Seq<char>, i: nat) -> Option<
    (Seq<AttachmentView>, nat),
> {
    if i >= s.len() || s[i as int] != '[' {
        None
    } else {
        let j = spec_skip_ws(s, (i + 1) as nat);
        if j < s.len() && s[j as int] == ']' {
            Some((Seq::<AttachmentView>::empty(), (j + 1) as nat))
        } else {
            spec_parse_attachment_items(s, (i + 1) as nat, Seq::<AttachmentView>::empty())
        }
    }
}

pub proof fn lemma_attachment_list_bounds(s: Seq<char>, i: nat)
    ensures
        spec_parse_attachment_list(s, i) matches Some(p) ==> i < p.1 <= s.len(),
{
    if i < s.len() && s[i as int] == '[' {
        lemma_skip_ws_bounds(s, (i + 1) as nat);
        lemma_attachment_items_bounds(s, (i + 1) as nat, Seq::<AttachmentView>::empty());
    }
}

/// Parses a JSON array of attachment objects executably.
pub(crate) fn parse_attachment_list(s: &str, n: usize, i: usize) -> (r: Option<
    (Vec<Attachment>, usize),
>)
    requires
        n == s@.len(),
        i <= n,
    ensures
        match r {
            Some(p) => spec_parse_attachment_list(s@, i as nat) == Some(
                (p.0.deep_view(), p.1 as nat),
            ) && i < p.1 <= n,
            None => spec_parse_attachment_list(s@, i as nat) is None,
        },
{
    if i >= n {
        return None;
    }
    if s.get_char(i) != '[' {
        return None;
    }
    let j = skip_ws(s, n, i + 1);
    if j < n && s.get_char(j) == ']' {
        let empty: Vec<Attachment> = Vec::new();
        assert(empty.deep_view() =~= Seq::<AttachmentView>::empty());
        return Some((empty, j + 1));
    }
    let mut acc: Vec<Attachment> = Vec::new();
    let mut j2 = i + 1;
    assert(acc.deep_view() =~= Seq::<AttachmentView>::empty());
    loop
        invariant
            n == s@.len(),
            i < j2 <= n,
            spec_parse_attachment_list(s@, i as nat) == spec_parse_attachment_items(
                s@,
                j2 as nat,
                acc.deep_view(),
            ),
        decreases n - j2,
    {
        let (a, k) = match parse_attachment_obj(s, n, j2) {
            None => { return None; },
            Some(p) => p,
        };
        let m = skip_ws(s, n, k);
        if m >= n {
            return None;
        }
        let cm = s.get_char(m);
        let ghost acc0 = acc.deep_view();
        if cm == ']' {
            acc.push(a);
            assert(acc.deep_view() =~= acc0.push(a@));
            proof {
                lemma_attachment_items_bounds(
                    s@,
                    (i + 1) as nat,
                    Seq::<AttachmentView>::empty(),
                );
            }
            return Some((acc, m + 1));
        } else if cm == ',' {
            acc.push(a);
            assert(acc.deep_view() =~= acc0.push(a@));
            j2 = m + 1;
        } else {
            return None;
        }
    }
}

} // verus!

use vstd::prelude::*;

use crate::json::str_eq;

verus! {

// A candidate address must match the anchored pattern
// `^[a-zA-Z0-9._%+-]+@[a-zA-Z0-9.-]+\.[a-zA-Z]{2,}$`. Matching means
// that some decomposition `local @ domain . tld` exists with every
// character in its class; the specification states exactly that, and
// the executable test is proved equivalent to it.

/// Whether `c` may appear in the local part.
pub open spec fn is_local_char(c: char) -> bool {
    ||| ('a' <= c && c <= 'z')
    ||| ('A' <= c && c <= 'Z')
    ||| ('0' <= c && c <= '9')
    ||| c == '.'
    ||| c == '_'
    ||| c == '%'
    ||| c == '+'
    ||| c == '-'
}

/// Whether `c` may appear in the domain before the last dot.
pub open spec fn is_domain_char(c: char) -> bool {
    ||| ('a' <= c && c <= 'z')
    ||| ('A' <= c && c <= 'Z')
    ||| ('0' <= c && c <= '9')
    ||| c == '.'
    ||| c == '-'
}

/// Whether `c` is an ASCII letter, as the top-level domain requires.
pub open spec fn is_alpha_char(c: char) -> bool {
    ('a' <= c && c <= 'z') || ('A' <= c && c <= 'Z')
}

/// A decomposition of `s` as `local @ domain . tld`: `p` is the `@`,
/// `q` the dot before the top-level domain, the local part and the
/// domain are nonempty, the top-level domain has at least two letters.
pub open spec fn email_decomp_at(s: Seq<char>, p: int, q: int) -> bool {
    &&& 1 <= p
    &&& p + 2 <= q
    &&& q + 3 <= s.len()
    &&& s[p] == '@'
    &&& s[q] == '.'
    &&& forall|k: int| 0 <= k < p ==> is_local_char(#[trigger] s[k])
    &&& forall|k: int| p < k < q ==> is_domain_char(#[trigger] s[k])
    &&& forall|k: int| q < k < s.len() ==> is_alpha_char(#[trigger] s[k])
}

/// Whether `s` matches the address pattern: some decomposition exists.
pub open spec fn spec_email_syntax(s: Seq<char>) -> bool {
    exists|p: int, q: int| email_decomp_at(s, p, q)
}

/// In any decomposition the `@` is the first `@` of the string.
proof fn lemma_at_is_first(s: Seq<char>, p: int, pp: int, qq: int)
    requires
        email_decomp_at(s, pp, qq),
        0 <= p < s.len(),
        s[p] == '@',
        forall|k: int| 0 <= k < p ==> s[k] != '@',
    ensures
        pp == p,
{
    if pp < p {
        assert(s[pp] == '@');
    } else if pp > p {
        assert(is_local_char(s[p]));
    }
}

/// In any decomposition the dot is the last dot after the `@`.
proof fn lemma_dot_is_last(s: Seq<char>, p: int, q: int, pp: int, qq: int)
    requires
        email_decomp_at(s, pp, qq),
        pp == p,
        p < q < s.len(),
        s[q] == '.',
        forall|t: int| q < t < s.len() ==> s[t] != '.',
    ensures
        qq == q,
{
    if qq > q {
        assert(s[qq] == '.');
    } else if qq < q {
        assert(is_alpha_char(s[q]));
    }
}

/// Whether `c` may appear in the local part, executably.
fn local_char(c: char) -> (r: bool)
    ensures
        r == is_local_char(c),
{
    ('a' <= c && c <= 'z') || ('A' <= c && c <= 'Z') || ('0' <= c && c <= '9') || c == '.' || c
        == '_' || c == '%' || c == '+' || c == '-'
}

/// Whether `c` may appear in the domain, executably.
fn domain_char(c: char) -> (r: bool)
    ensures
        r == is_domain_char(c),
{
    ('a' <= c && c <= 'z') || ('A' <= c && c <= 'Z') || ('0' <= c && c <= '9') || c == '.' || c
        == '-'
}

/// Whether `c` is an ASCII letter, executably.
fn alpha_char(c: char) -> (r: bool)
    ensures
        r == is_alpha_char(c),
{
    ('a' <= c && c <= 'z') || ('A' <= c && c <= 'Z')
}

/// Finds the decomposition of `s` when `s` matches the pattern: the
/// positions of the `@` and of the last dot. `None` exactly when `s`
/// does not match.
pub(crate) fn email_decomp(s: &str) -> (r: Option<(usize, usize)>)
    ensures
        match r {
            Some(pq) => email_decomp_at(s@, pq.0 as int, pq.1 as int) && spec_email_syntax(s@),
            None => !spec_email_syntax(s@),
        },
{
    let n = s.unicode_len();
    let mut p: usize = 0;
    while p < n && s.get_char(p) != '@'
        invariant
            n == s@.len(),
            p <= n,
            forall|k: int| 0 <= k < p ==> s@[k] != '@',
        decreases n - p,
    {
        p = p + 1;
    }
    if p >= n {
        proof {
            assert forall|pp: int, qq: int| !email_decomp_at(s@, pp, qq) by {
                if email_decomp_at(s@, pp, qq) {
                    assert(s@[pp] == '@');
                }
            }
        }
        return None;
    }
    let mut x: usize = 0;
    while x < p && local_char(s.get_char(x))
        invariant
            n == s@.len(),
            p < n,
            x <= p,
            forall|k: int| 0 <= k < x ==> is_local_char(#[trigger] s@[k]),
        decreases p - x,
    {
        x = x + 1;
    }
    if x < p {
        proof {
            assert forall|pp: int, qq: int| !email_decomp_at(s@, pp, qq) by {
                if email_decomp_at(s@, pp, qq) {
                    lemma_at_is_first(s@, p as int, pp, qq);
                    assert(is_local_char(s@[x as int]));
                }
            }
        }
        return None;
    }
    if p == 0 {
        proof {
            assert forall|pp: int, qq: int| !email_decomp_at(s@, pp, qq) by {
                if email_decomp_at(s@, pp, qq) {
                    lemma_at_is_first(s@, 0, pp, qq);
                }
            }
        }
        return None;
    }
    let mut k = p + 1;
    let mut q: usize = 0;
    let mut found_dot = false;
    while k < n
        invariant
            n == s@.len(),
            p < n,
            s@[p as int] == '@',
            forall|t: int| 0 <= t < p ==> s@[t] != '@',
            p + 1 <= k <= n,
            forall|t: int| p < t < k ==> s@[t] != '@',
            found_dot ==> p < q < k && s@[q as int] == '.' && (forall|t: int|
                q < t < k ==> s@[t] != '.'),
            !found_dot ==> (forall|t: int| p < t < k ==> s@[t] != '.'),
        decreases n - k,
    {
        let c = s.get_char(k);
        if c == '@' {
            proof {
                assert forall|pp: int, qq: int| !email_decomp_at(s@, pp, qq) by {
                    if email_decomp_at(s@, pp, qq) {
                        lemma_at_is_first(s@, p as int, pp, qq);
                        if pp < k && k < qq {
                            assert(is_domain_char(s@[k as int]));
                        } else if k == qq {
                            assert(s@[qq] == '.');
                        } else if qq < k {
                            assert(is_alpha_char(s@[k as int]));
                        }
                    }
                }
            }
            return None;
        }
        if c == '.' {
            q = k;
            found_dot = true;
        }
        k = k + 1;
    }
    if !found_dot {
        proof {
            assert forall|pp: int, qq: int| !email_decomp_at(s@, pp, qq) by {
                if email_decomp_at(s@, pp, qq) {
                    lemma_at_is_first(s@, p as int, pp, qq);
                    assert(s@[qq] == '.');
                }
            }
        }
        return None;
    }
    if q < p + 2 {
        proof {
            assert forall|pp: int, qq: int| !email_decomp_at(s@, pp, qq) by {
                if email_decomp_at(s@, pp, qq) {
                    lemma_at_is_first(s@, p as int, pp, qq);
                    lemma_dot_is_last(s@, p as int, q as int, pp, qq);
                }
            }
        }
        return None;
    }
    if n - q < 3 {
        proof {
            assert forall|pp: int, qq: int| !email_decomp_at(s@, pp, qq) by {
                if email_decomp_at(s@, pp, qq) {
                    lemma_at_is_first(s@, p as int, pp, qq);
                    lemma_dot_is_last(s@, p as int, q as int, pp, qq);
                }
            }
        }
        return None;
    }
    let mut y = p + 1;
    while y < q && domain_char(s.get_char(y))
        invariant
            n == s@.len(),
            p + 1 <= y <= q < n,
            forall|k2: int| p < k2 < y ==> is_domain_char(#[trigger] s@[k2]),
        decreases q - y,
    {
        y = y + 1;
    }
    if y < q {
        proof {
            assert forall|pp: int, qq: int| !email_decomp_at(s@, pp, qq) by {
                if email_decomp_at(s@, pp, qq) {
                    lemma_at_is_first(s@, p as int, pp, qq);
                    lemma_dot_is_last(s@, p as int, q as int, pp, qq);
                    assert(is_domain_char(s@[y as int]));
                }
            }
        }
        return None;
    }
    let mut z = q + 1;
    while z < n && alpha_char(s.get_char(z))
        invariant
            n == s@.len(),
            q + 1 <= z <= n,
            q < n,
            forall|k2: int| q < k2 < z ==> is_alpha_char(#[trigger] s@[k2]),
        decreases n - z,
    {
        z = z + 1;
    }
    if z < n {
        proof {
            assert forall|pp: int, qq: int| !email_decomp_at(s@, pp, qq) by {
                if email_decomp_at(s@, pp, qq) {
                    lemma_at_is_first(s@, p as int, pp, qq);
                    lemma_dot_is_last(s@, p as int, q as int, pp, qq);
                    assert(is_alpha_char(s@[z as int]));
                }
            }
        }
        return None;
    }
    assert(email_decomp_at(s@, p as int, q as int));
    Some((p, q))
}

/// Whether the candidate matches the address pattern.
pub fn check_email_syntax(s: &str) -> (r: bool)
    ensures
        r == spec_email_syntax(s@),
{
    email_decomp(s).is_some()
}

/// The position of the first `@` of `s`, where `s` holds one.
pub open spec fn spec_first_at(s: Seq<char>) -> int {
    choose|p: int|
        0 <= p < s.len() && s[p] == '@' && (forall|k: int| 0 <= k < p ==> s[k] != '@')
}

/// The local part of an address: everything before the first `@`.
pub open spec fn spec_local_part(s: Seq<char>) -> Seq<char> {
    s.subrange(0, spec_first_at(s))
}

/// The domain of an address: everything after the first `@`.
pub open spec fn spec_domain_part(s: Seq<char>) -> Seq<char> {
    s.subrange(spec_first_at(s) + 1, s.len() as int)
}

/// For a string matching the pattern, the `@` of any decomposition is
/// the first `@`, so the split into local part and domain is the one
/// `spec_local_part` and `spec_domain_part` name.
pub proof fn lemma_split_is_first_at(s: Seq<char>, p: int, q: int)
    requires
        email_decomp_at(s, p, q),
    ensures
        spec_first_at(s) == p,
{
    assert forall|k: int| 0 <= k < p implies s[k] != '@' by {
        assert(is_local_char(s[k]));
    }
    let w = spec_first_at(s);
    assert(0 <= w < s.len() && s[w] == '@' && (forall|k: int| 0 <= k < w ==> s[k] != '@'));
    if w < p {
        assert(s[w] == '@');
        assert(false);
    } else if w > p {
        assert(s[p] != '@');
        assert(false);
    }
}

/// The six local parts the service reserves; an address bearing one is
/// rejected whatever its domain.
pub open spec fn spec_is_banned(local: Seq<char>) -> bool {
    ||| local == "abuse"@
    ||| local == "webmaster"@
    ||| local == "contact"@
    ||| local == "postmaster"@
    ||| local == "hostmaster"@
    ||| local == "admin"@
}

/// Whether `local` is one of the banned names, case-sensitively.
pub fn is_banned(local: &str) -> (r: bool)
    ensures
        r == spec_is_banned(local@),
{
    str_eq(local, "abuse") || str_eq(local, "webmaster") || str_eq(local, "contact") || str_eq(
        local,
        "postmaster",
    ) || str_eq(local, "hostmaster") || str_eq(local, "admin")
}

/// Whether some element of `v` equals `t` by content.
pub fn contains_str(v: &Vec<String>, t: &str) -> (r: bool)
    ensures
        r == v.deep_view().contains(t@),
{
    let mut idx: usize = 0;
    while idx < v.len()
        invariant
            idx <= v.len(),
            forall|k: int| 0 <= k < idx ==> v.deep_view()[k] != t@,
        decreases v.len() - idx,
    {
        if str_eq(v[idx].as_str(), t) {
            assert(v.deep_view()[idx as int] == t@);
            return true;
        }
        idx = idx + 1;
    }
    assert(!v.deep_view().contains(t@));
    false
}

} // verus!

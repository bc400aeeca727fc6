//! Recipient routing: resolve an address to a webhook entry.
//!
//! A pattern is either a literal address (exact match) or `*@<domain>`,
//! which matches any address ending in `<domain>` (a plain byte-suffix
//! comparison, deliberately not anchored at the `@`). Exact matches win
//! over wildcard matches; among entries of the same kind the earliest in
//! the table wins.

use vstd::prelude::*;
use crate::config::WebhookConfig;
use crate::text::{ends_with, ends_with_spec, str_eq, starts_with, starts_with_spec};
use vstd::string::StrSliceExecFns;

verus! {

pub open spec fn is_wildcard(p: Seq<char>) -> bool {
    p.len() >= 2 && p[0] == '*' && p[1] == '@'
}

/// `p` is a wildcard pattern whose domain part is a suffix of `addr`.
pub open spec fn wildcard_matches(p: Seq<char>, addr: Seq<char>) -> bool {
    is_wildcard(p) && ends_with_spec(addr, p.subrange(2, p.len() as int))
}

/// Index of the first entry whose pattern equals `addr`, or -1.
pub open spec fn exact_idx(addr: Seq<char>, t: Seq<(String, WebhookConfig)>) -> int
    decreases t.len(),
{
    if t.len() == 0 {
        -1
    } else if t[0].0@ == addr {
        0
    } else if exact_idx(addr, t.drop_first()) == -1 {
        -1
    } else {
        exact_idx(addr, t.drop_first()) + 1
    }
}

/// Index of the first wildcard entry matching `addr`, or -1.
pub open spec fn wildcard_idx(addr: Seq<char>, t: Seq<(String, WebhookConfig)>) -> int
    decreases t.len(),
{
    if t.len() == 0 {
        -1
    } else if wildcard_matches(t[0].0@, addr) {
        0
    } else if wildcard_idx(addr, t.drop_first()) == -1 {
        -1
    } else {
        wildcard_idx(addr, t.drop_first()) + 1
    }
}

/// The index of the table entry `addr` resolves to, if any: the first
/// exact match, else the first matching wildcard.
pub open spec fn resolve_spec(addr: Seq<char>, t: Seq<(String, WebhookConfig)>) -> Option<int> {
    if exact_idx(addr, t) != -1 {
        Some(exact_idx(addr, t))
    } else if wildcard_idx(addr, t) != -1 {
        Some(wildcard_idx(addr, t))
    } else {
        None
    }
}

pub proof fn lemma_exact_idx(addr: Seq<char>, t: Seq<(String, WebhookConfig)>)
    ensures
        exact_idx(addr, t) == -1 ==> forall|j: int| 0 <= j < t.len() ==> t[j].0@ != addr,
        exact_idx(addr, t) != -1 ==> {
            let i = exact_idx(addr, t);
            0 <= i < t.len() && t[i].0@ == addr
                && forall|j: int| 0 <= j < i ==> t[j].0@ != addr
        },
    decreases t.len(),
{
    if t.len() > 0 && t[0].0@ != addr {
        let s = t.drop_first();
        lemma_exact_idx(addr, s);
        if exact_idx(addr, s) == -1 {
            assert forall|j: int| 0 <= j < t.len() implies t[j].0@ != addr by {
                if j > 0 {
                    assert(t[j] == s[j - 1]);
                }
            }
        } else {
            let i = exact_idx(addr, s);
            assert(t[i + 1] == s[i]);
            assert forall|j: int| 0 <= j < i + 1 implies t[j].0@ != addr by {
                if j > 0 {
                    assert(t[j] == s[j - 1]);
                }
            }
        }
    }
}

pub proof fn lemma_wildcard_idx(addr: Seq<char>, t: Seq<(String, WebhookConfig)>)
    ensures
        wildcard_idx(addr, t) == -1
            ==> forall|j: int| 0 <= j < t.len() ==> !wildcard_matches(t[j].0@, addr),
        wildcard_idx(addr, t) != -1 ==> {
            let i = wildcard_idx(addr, t);
            0 <= i < t.len() && wildcard_matches(t[i].0@, addr)
                && forall|j: int| 0 <= j < i ==> !wildcard_matches(t[j].0@, addr)
        },
    decreases t.len(),
{
    if t.len() > 0 && !wildcard_matches(t[0].0@, addr) {
        let s = t.drop_first();
        lemma_wildcard_idx(addr, s);
        if wildcard_idx(addr, s) == -1 {
            assert forall|j: int| 0 <= j < t.len() implies !wildcard_matches(t[j].0@, addr) by {
                if j > 0 {
                    assert(t[j] == s[j - 1]);
                }
            }
        } else {
            let i = wildcard_idx(addr, s);
            assert(t[i + 1] == s[i]);
            assert forall|j: int| 0 <= j < i + 1 implies !wildcard_matches(t[j].0@, addr) by {
                if j > 0 {
                    assert(t[j] == s[j - 1]);
                }
            }
        }
    }
}

/// Resolve `recipient` against the routing table: first an exact lookup,
/// then a scan of the `*@domain` wildcard entries by suffix.
pub fn get_webhook_for_recipient<'a>(
    recipient: &str,
    webhook_mapping: &'a Vec<(String, WebhookConfig)>,
) -> (r: Option<&'a WebhookConfig>)
    ensures
        r is Some <==> resolve_spec(recipient@, webhook_mapping@) is Some,
        r is Some ==> *(r->0) == webhook_mapping@[resolve_spec(recipient@, webhook_mapping@)->0].1,
{
    let n = webhook_mapping.len();
    let mut i: usize = 0;
    while i < n
        invariant
            n == webhook_mapping@.len(),
            0 <= i <= n,
            forall|j: int| 0 <= j < i ==> webhook_mapping@[j].0@ != recipient@,
        decreases n - i,
    {
        if str_eq(recipient, webhook_mapping[i].0.as_str()) {
            proof {
                lemma_exact_idx(recipient@, webhook_mapping@);
                assert(exact_idx(recipient@, webhook_mapping@) == i as int);
            }
            return Some(&webhook_mapping[i].1);
        }
        i += 1;
    }
    let mut k: usize = 0;
    while k < n
        invariant
            n == webhook_mapping@.len(),
            0 <= k <= n,
            forall|j: int| 0 <= j < k ==> !wildcard_matches(webhook_mapping@[j].0@, recipient@),
            forall|j: int| 0 <= j < n ==> webhook_mapping@[j].0@ != recipient@,
        decreases n - k,
    {
        let pattern = webhook_mapping[k].0.as_str();
        let plen = pattern.unicode_len();
        if starts_with(pattern, "*@") {
            proof {
                reveal_strlit("*@");
                assert(pattern@.subrange(0, 2)[0] == pattern@[0]);
                assert(pattern@.subrange(0, 2)[1] == pattern@[1]);
            }
            let domain = pattern.substring_char(2, plen);
            if ends_with(recipient, domain) {
                proof {
                    assert(wildcard_matches(webhook_mapping@[k as int].0@, recipient@));
                    lemma_wildcard_idx(recipient@, webhook_mapping@);
                    lemma_exact_idx(recipient@, webhook_mapping@);
                    assert(exact_idx(recipient@, webhook_mapping@) == -1);
                    assert(wildcard_idx(recipient@, webhook_mapping@) == k as int);
                }
                return Some(&webhook_mapping[k].1);
            }
        } else {
            proof {
                reveal_strlit("*@");
                if is_wildcard(pattern@) {
                    assert(pattern@.subrange(0, 2) =~= "*@"@);
                }
            }
        }
        k += 1;
    }
    proof {
        lemma_wildcard_idx(recipient@, webhook_mapping@);
        lemma_exact_idx(recipient@, webhook_mapping@);
    }
    None
}

} // verus!

use vstd::prelude::*;

use crate::text::{
    lemma_trim_ends, lemma_trim_idempotent_when_clean,
    ascii_lower, chars_of, is_white_space, starts_with_ci, starts_with_ignore_ascii_case,
    string_from_chars, trim, trim_bounds, trim_end, trim_start,
};

verus! {

pub open spec fn www_prefix() -> Seq<char> {
    seq!['w', 'w', 'w', '.']
}

pub open spec fn http_prefix() -> Seq<char> {
    seq!['h', 't', 't', 'p', ':', '/', '/']
}

pub open spec fn https_prefix() -> Seq<char> {
    seq!['h', 't', 't', 'p', 's', ':', '/', '/']
}

/// Message for an empty link.
pub open spec fn empty_link_message() -> Seq<char> {
    "链接不能为空"@
}

/// Message for a link that is neither HTTP nor HTTPS.
pub open spec fn scheme_message() -> Seq<char> {
    "只允许打开 HTTP 或 HTTPS 链接"@
}

/// The link that may be opened for `value`: trimmed, `https://` put in front
/// of a bare `www.` address, and only `http://` or `https://` links
/// (ASCII case ignored) accepted. `Err` carries the reason.
pub open spec fn web_url(value: Seq<char>) -> Result<Seq<char>, Seq<char>> {
    let t = trim(value);
    if t.len() == 0 {
        Err(empty_link_message())
    } else {
        let normalized = if starts_with_ci(t, www_prefix()) {
            https_prefix() + t
        } else {
            t
        };
        if starts_with_ci(normalized, https_prefix()) || starts_with_ci(normalized, http_prefix()) {
            Ok(normalized)
        } else {
            Err(scheme_message())
        }
    }
}

fn web_url_chars(value: &str) -> (r: Result<Vec<char>, String>)
    ensures
        match web_url(value@) {
            Ok(u) => r matches Ok(v) && v@ == u,
            Err(m) => r matches Err(e) && e@ == m,
        },
{
    let v = chars_of(value);
    let (a, b) = trim_bounds(&v);
    if a == b {
        return Err(String::from_str("链接不能为空"));
    }
    let www: Vec<char> = vec!['w', 'w', 'w', '.'];
    let http: Vec<char> = vec!['h', 't', 't', 'p', ':', '/', '/'];
    let https: Vec<char> = vec!['h', 't', 't', 'p', 's', ':', '/', '/'];
    assert(www@ =~= www_prefix());
    assert(http@ =~= http_prefix());
    assert(https@ =~= https_prefix());
    let mut t: Vec<char> = Vec::new();
    let mut k = a;
    while k < b
        invariant
            a <= k <= b <= v.len(),
            t@ == v@.subrange(a as int, k as int),
        decreases b - k,
    {
        t.push(v[k]);
        assert(t@ =~= v@.subrange(a as int, k + 1));
        k = k + 1;
    }
    let normalized = if starts_with_ignore_ascii_case(&t, &www) {
        let mut n = https.clone();
        let mut j: usize = 0;
        while j < t.len()
            invariant
                j <= t.len(),
                n@ == https_prefix() + t@.subrange(0, j as int),
            decreases t.len() - j,
        {
            n.push(t[j]);
            assert(n@ =~= https_prefix() + t@.subrange(0, j + 1));
            j = j + 1;
        }
        assert(t@.subrange(0, t.len() as int) =~= t@);
        n
    } else {
        t
    };
    if starts_with_ignore_ascii_case(&normalized, &https) || starts_with_ignore_ascii_case(&normalized, &http) {
        Ok(normalized)
    } else {
        Err(String::from_str("只允许打开 HTTP 或 HTTPS 链接"))
    }
}

/// Checks and normalises a link before the default browser opens it.
pub fn normalize_external_url(value: &str) -> (r: Result<String, String>)
    ensures
        match web_url(value@) {
            Ok(u) => r matches Ok(s) && s@ == u,
            Err(m) => r matches Err(e) && e@ == m,
        },
{
    match web_url_chars(value) {
        Ok(v) => Ok(string_from_chars(v.as_slice())),
        Err(e) => Err(e),
    }
}

/// Checks and normalises a link before the system opens it (the same rule
/// as [`normalize_external_url`]).
pub fn normalize_web_url(value: &str) -> (r: Result<String, String>)
    ensures
        match web_url(value@) {
            Ok(u) => r matches Ok(s) && s@ == u,
            Err(m) => r matches Err(e) && e@ == m,
        },
{
    normalize_external_url(value)
}

/// Normalising an accepted link again changes nothing.
pub proof fn web_url_idempotent(value: Seq<char>)
    requires
        web_url(value) is Ok,
    ensures
        web_url(web_url(value)->Ok_0) == web_url(value),
{
    let t = trim(value);
    lemma_trim_ends(value);
    let u = web_url(value)->Ok_0;
    if starts_with_ci(t, www_prefix()) {
        assert(u == https_prefix() + t);
        assert(u[0] == 'h');
        assert(u.last() == t.last());
        assert(!is_white_space(u[0]));
    } else {
        assert(u == t);
    }
    lemma_trim_idempotent_when_clean(u);
    assert(trim(u) == u);
    // A link that starts with an HTTP scheme does not start with `www.`.
    assert(ascii_lower(u[0]) == 'h');
    assert(!starts_with_ci(u, www_prefix())) by {
        assert(ascii_lower(u[0]) != ascii_lower(www_prefix()[0]));
    }
}

} // verus!

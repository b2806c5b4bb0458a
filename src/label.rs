//! Host labels: a fully-qualified name split into the label(s) before a
//! registered domain and that domain.

use crate::error::TargetError;
use vstd::prelude::*;

verus! {

/// The fully-qualified name of `host` under `domain`: `host.domain`.
pub open spec fn fqdn_of(host: Seq<char>, domain: Seq<char>) -> Seq<char> {
    host + seq!['.'] + domain
}

/// Whether `fqdn` ends with `.` followed by `domain`.
pub open spec fn under_domain(fqdn: Seq<char>, domain: Seq<char>) -> bool {
    (seq!['.'] + domain).is_suffix_of(fqdn)
}

/// `fqdn` without its trailing `.domain`.
pub open spec fn host_label_of(fqdn: Seq<char>, domain: Seq<char>) -> Seq<char> {
    fqdn.subrange(0, fqdn.len() - domain.len() - 1)
}

/// Whether `suffix` is a suffix of `s`.
pub fn ends_with(s: &str, suffix: &str) -> (r: bool)
    ensures
        r == suffix@.is_suffix_of(s@),
{
    let n = s.unicode_len();
    let m = suffix.unicode_len();
    if m > n {
        return false;
    }
    let off = n - m;
    let mut i: usize = 0;
    while i < m
        invariant
            n == s@.len(),
            m == suffix@.len(),
            off == n - m,
            i <= m,
            forall|k: int| 0 <= k < i ==> suffix@[k] == s@[off + k],
        decreases m - i,
    {
        if s.get_char(off + i) != suffix.get_char(i) {
            assert(suffix@[i as int] != s@.subrange(off as int, n as int)[i as int]);
            return false;
        }
        i = i + 1;
    }
    assert(suffix@ =~= s@.subrange(off as int, n as int));
    true
}

/// The name `host.domain`.
pub fn make_fqdn(host: &str, domain: &str) -> (r: String)
    ensures
        r@ == fqdn_of(host@, domain@),
{
    proof {
        reveal_strlit(".");
    }
    let mut s = String::from_str(host);
    s.append(".");
    s.append(domain);
    s
}

/// The host label of `fqdn` under the registrar domain `domain`: `fqdn`
/// without its trailing `.domain`. Fails with `SuffixMismatch` where `fqdn`
/// does not end that way.
pub fn derive_host_label(fqdn: &str, domain: &str) -> (r: Result<String, TargetError>)
    ensures
        r is Ok <==> under_domain(fqdn@, domain@),
        r matches Ok(h) ==> h@ == host_label_of(fqdn@, domain@),
        r matches Err(e) ==> e == TargetError::SuffixMismatch,
{
    proof {
        reveal_strlit(".");
    }
    let mut tail = String::from_str(".");
    tail.append(domain);
    if !ends_with(fqdn, tail.as_str()) {
        return Err(TargetError::SuffixMismatch);
    }
    let n = fqdn.unicode_len();
    let m = tail.as_str().unicode_len();
    let head = fqdn.substring_char(0, n - m);
    Ok(String::from_str(head))
}

/// Splitting a name under a domain and joining the parts again gives the
/// name back; and the label of `host.domain` under `domain` is `host`.
pub proof fn lemma_label_round_trip(fqdn: Seq<char>, host: Seq<char>, domain: Seq<char>)
    ensures
        under_domain(fqdn, domain) ==> fqdn_of(host_label_of(fqdn, domain), domain) == fqdn,
        under_domain(fqdn_of(host, domain), domain),
        host_label_of(fqdn_of(host, domain), domain) == host,
{
    if under_domain(fqdn, domain) {
        let k = fqdn.len() - domain.len() - 1;
        assert(fqdn =~= fqdn.subrange(0, k) + fqdn.subrange(k, fqdn.len() as int));
        assert(fqdn_of(host_label_of(fqdn, domain), domain) =~= fqdn.subrange(0, k) + (seq!['.']
            + domain));
    }
    let f = fqdn_of(host, domain);
    assert((seq!['.'] + domain) =~= f.subrange(f.len() - domain.len() - 1, f.len() as int));
    assert(host_label_of(f, domain) =~= host);
}

} // verus!

//! Normalisation and filtering of `href` values.

use vstd::prelude::*;

verus! {

/// The characters `//`, which open a protocol-relative reference.
pub open spec fn double_slash() -> Seq<char> {
    seq!['/', '/']
}

/// The characters `https://`, put in front of a protocol-relative reference.
pub open spec fn https_scheme() -> Seq<char> {
    seq!['h', 't', 't', 'p', 's', ':', '/', '/']
}

/// The characters `http`, with which every kept link begins.
pub open spec fn http_prefix() -> Seq<char> {
    seq!['h', 't', 't', 'p']
}

/// `s` without its leading slashes.
pub open spec fn strip_slashes(s: Seq<char>) -> Seq<char>
    decreases s.len(),
{
    if s.len() > 0 && s[0] == '/' {
        strip_slashes(s.drop_first())
    } else {
        s
    }
}

/// The normal form of an `href` value: a value that begins with `//` loses
/// all its leading slashes and gets `https://` in front; any other value is
/// left as it is.
pub open spec fn normalized(href: Seq<char>) -> Seq<char> {
    if double_slash().is_prefix_of(href) {
        https_scheme() + strip_slashes(href)
    } else {
        href
    }
}

/// Whether `url` is kept as a link: it begins with `http`.
pub open spec fn is_link(url: Seq<char>) -> bool {
    http_prefix().is_prefix_of(url)
}

/// The link that an `href` value stands for, if any: its normal form, where
/// that is kept.
pub open spec fn link_of(href: Seq<char>) -> Option<Seq<char>> {
    if is_link(normalized(href)) {
        Some(normalized(href))
    } else {
        None
    }
}

/// Dropping `n` leading slashes one by one is dropping them at once.
proof fn lemma_strip_skip(s: Seq<char>, n: int)
    requires
        0 <= n <= s.len(),
        forall|i: int| 0 <= i < n ==> s[i] == '/',
    ensures
        strip_slashes(s) == strip_slashes(s.skip(n)),
    decreases n,
{
    if n == 0 {
        assert(s.skip(0) =~= s);
    } else {
        lemma_strip_skip(s.drop_first(), n - 1);
        assert(s.drop_first().skip(n - 1) =~= s.skip(n));
    }
}

/// What is left when the leading slashes are gone does not begin with a
/// slash, and it is the end of what was there.
pub proof fn lemma_strip_slashes(s: Seq<char>)
    ensures
        strip_slashes(s).len() > 0 ==> strip_slashes(s)[0] != '/',
        strip_slashes(s).len() <= s.len(),
        strip_slashes(s) == s.skip(s.len() - strip_slashes(s).len()),
        forall|i: int| 0 <= i < s.len() - strip_slashes(s).len() ==> s[i] == '/',
    decreases s.len(),
{
    if s.len() > 0 && s[0] == '/' {
        let rest = s.drop_first();
        lemma_strip_slashes(rest);
        let kept = strip_slashes(rest);
        assert(rest.skip(rest.len() - kept.len()) =~= s.skip(s.len() - kept.len()));
        assert forall|i: int| 0 <= i < s.len() - kept.len() implies s[i] == '/' by {
            if i > 0 {
                assert(rest[i - 1] == s[i]);
            }
        }
    } else {
        assert(s.skip(0) =~= s);
    }
}

/// A protocol-relative reference becomes an `https` URL, which is kept as a
/// link; the host follows the scheme at once, with no slash left between.
pub proof fn lemma_protocol_relative_becomes_https(href: Seq<char>)
    requires
        double_slash().is_prefix_of(href),
    ensures
        https_scheme().is_prefix_of(normalized(href)),
        link_of(href) == Some(normalized(href)),
        normalized(href).len() > https_scheme().len() ==> normalized(href)[
            https_scheme().len() as int
        ] != '/',
{
    lemma_strip_slashes(href);
    let url = normalized(href);
    assert(url.subrange(0, 8) =~= https_scheme());
    assert(url.subrange(0, 4) =~= http_prefix());
}

/// Whether `s` begins with `prefix`.
pub fn starts_with(s: &str, prefix: &str) -> (b: bool)
    ensures
        b == prefix@.is_prefix_of(s@),
{
    let n = s.unicode_len();
    let m = prefix.unicode_len();
    if m > n {
        return false;
    }
    let mut i: usize = 0;
    while i < m
        invariant
            i <= m <= n,
            n == s@.len(),
            m == prefix@.len(),
            forall|j: int| 0 <= j < i ==> s@[j] == prefix@[j],
        decreases m - i,
    {
        if s.get_char(i) != prefix.get_char(i) {
            assert(s@.subrange(0, m as int)[i as int] != prefix@[i as int]);
            return false;
        }
        i += 1;
    }
    assert(prefix@ =~= s@.subrange(0, m as int));
    true
}

/// `s` without its leading slashes.
pub fn trim_leading_slashes(s: &str) -> (r: &str)
    ensures
        r@ == strip_slashes(s@),
{
    let n = s.unicode_len();
    let mut i: usize = 0;
    while i < n && s.get_char(i) == '/'
        invariant
            i <= n,
            n == s@.len(),
            forall|j: int| 0 <= j < i ==> s@[j] == '/',
        decreases n - i,
    {
        i += 1;
    }
    proof {
        lemma_strip_skip(s@, i as int);
        assert(s@.skip(i as int) =~= s@.subrange(i as int, n as int));
    }
    s.substring_char(i, n)
}

/// Normalises an `href` value: `//host/path` becomes `https://host/path`.
pub fn normalize(href: String) -> (url: String)
    ensures
        url@ == normalized(href@),
{
    proof {
        reveal_strlit("//");
        reveal_strlit("https://");
        assert("//"@ =~= double_slash());
        assert("https://"@ =~= https_scheme());
    }
    if starts_with(href.as_str(), "//") {
        let rest = trim_leading_slashes(href.as_str());
        String::from_str("https://").concat(rest)
    } else {
        href
    }
}

/// Whether `url` is kept as a link.
pub fn keeps(url: &str) -> (b: bool)
    ensures
        b == is_link(url@),
{
    proof {
        reveal_strlit("http");
        assert("http"@ =~= http_prefix());
    }
    starts_with(url, "http")
}

} // verus!

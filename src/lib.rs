//! Breaks a URL down into its parts: protocol, host, path, query string,
//! query parameters and fragment. Every part is a slice of the input.
use vstd::prelude::*;
use vstd::string::StringSliceAdditionalSpecFns;

pub mod laws;
pub mod trim;
pub mod utils;

use crate::trim::{trim_chars, trim_white_space};
use crate::utils::{first_match, opt_bytes, split_first, truncate, truncated};

verus! {

/// The protocols that are recognised.
pub open spec fn is_known_scheme(x: Seq<u8>) -> bool {
    ||| x == "http".spec_bytes()
    ||| x == "https".spec_bytes()
    ||| x == "ftp".spec_bytes()
}

/// The text before the first `://`, when it names a known protocol.
pub open spec fn protocol_of(t: Seq<u8>) -> Option<Seq<u8>> {
    match truncated(t, "://".spec_bytes(), 0) {
        Some(x) => if is_known_scheme(x) {
            Some(x)
        } else {
            None
        },
        None => None,
    }
}

/// The text after the first `://`, or all of `t` when nothing follows one.
pub open spec fn after_scheme(t: Seq<u8>) -> Seq<u8> {
    match truncated(t, "://".spec_bytes(), 1) {
        Some(rest) => rest,
        None => t,
    }
}

/// The host: what follows the scheme, up to the first `/`.
pub open spec fn host_of(t: Seq<u8>) -> Option<Seq<u8>> {
    truncated(after_scheme(t), "/".spec_bytes(), 0)
}

/// The path: what follows the host's `/`, up to the first `?` and then up to
/// the first `#`.
pub open spec fn path_of(t: Seq<u8>) -> Option<Seq<u8>> {
    match truncated(after_scheme(t), "/".spec_bytes(), 1) {
        Some(p) => match truncated(p, "?".spec_bytes(), 0) {
            Some(q) => truncated(q, "#".spec_bytes(), 0),
            None => None,
        },
        None => None,
    }
}

/// The query string: what follows the first `?`, up to the first `#`.
pub open spec fn search_of(t: Seq<u8>) -> Option<Seq<u8>> {
    match truncated(t, "?".spec_bytes(), 1) {
        Some(s) => truncated(s, "#".spec_bytes(), 0),
        None => None,
    }
}

/// The fragment: what follows the first `#`.
pub open spec fn fragment_of(t: Seq<u8>) -> Option<Seq<u8>> {
    truncated(t, "#".spec_bytes(), 1)
}

/// The key and value of a `key=value` token, split on its first `=`; no
/// pair when the token holds no `=`.
pub open spec fn pair_in(token: Seq<u8>) -> Seq<(Seq<u8>, Seq<u8>)> {
    match first_match(token, "=".spec_bytes()) {
        Some(q) => seq![
            (
                token.subrange(0, q),
                token.subrange(q + "=".spec_bytes().len(), token.len() as int),
            ),
        ],
        None => seq![],
    }
}

/// The pairs of the `&`-separated tokens of a query string, in order.
pub open spec fn params_in(s: Seq<u8>) -> Seq<(Seq<u8>, Seq<u8>)>
    decreases s.len(),
    via params_in_decreases
{
    match first_match(s, "&".spec_bytes()) {
        Some(p) => pair_in(s.subrange(0, p)) + params_in(
            s.subrange(p + "&".spec_bytes().len(), s.len() as int),
        ),
        None => pair_in(s),
    }
}

#[via_fn]
proof fn params_in_decreases(s: Seq<u8>) {
    utils::lemma_first_match_occurs(s, "&".spec_bytes());
    lemma_separator_lengths();
}

/// The `&`-separated tokens of a query string, in order.
pub open spec fn tokens_in(s: Seq<u8>) -> Seq<Seq<u8>>
    decreases s.len(),
    via tokens_in_decreases
{
    match first_match(s, "&".spec_bytes()) {
        Some(p) => seq![s.subrange(0, p)] + tokens_in(
            s.subrange(p + "&".spec_bytes().len(), s.len() as int),
        ),
        None => seq![s],
    }
}

#[via_fn]
proof fn tokens_in_decreases(s: Seq<u8>) {
    utils::lemma_first_match_occurs(s, "&".spec_bytes());
    lemma_separator_lengths();
}

/// The query parameters of `t`; none when it has no query string.
pub open spec fn params_of(t: Seq<u8>) -> Seq<(Seq<u8>, Seq<u8>)> {
    match search_of(t) {
        Some(s) => params_in(s),
        None => seq![],
    }
}

pub proof fn lemma_separator_lengths()
    ensures
        "&".spec_bytes().len() == 1,
        "=".spec_bytes().len() == 1,
{
    reveal_strlit("&");
    reveal_strlit("=");
    vstd::string::is_ascii_spec_bytes("&");
    vstd::string::is_ascii_spec_bytes("=");
}

/// The parts of a URL, each as the bytes it holds.
pub struct UrlView {
    pub protocol: Option<Seq<u8>>,
    pub host: Option<Seq<u8>>,
    pub path: Option<Seq<u8>>,
    pub search: Option<Seq<u8>>,
    pub fragment: Option<Seq<u8>>,
    pub params: Seq<(Seq<u8>, Seq<u8>)>,
}

/// The parts of the (already trimmed) URL `t`.
pub open spec fn parts_of(t: Seq<u8>) -> UrlView {
    UrlView {
        protocol: protocol_of(t),
        host: host_of(t),
        path: path_of(t),
        search: search_of(t),
        fragment: fragment_of(t),
        params: params_of(t),
    }
}

/// The bytes of `raw` once its surrounding white space is trimmed.
pub open spec fn trimmed_bytes(raw: Seq<char>) -> Seq<u8> {
    vstd::utf8::encode_utf8(trim_chars(raw))
}

/// What `parse_url` gives for the characters `raw`.
pub open spec fn parse_model(raw: Seq<char>) -> UrlView {
    parts_of(trimmed_bytes(raw))
}

/// The bytes of each key and value.
pub open spec fn pairs_bytes(v: Seq<(&str, &str)>) -> Seq<(Seq<u8>, Seq<u8>)> {
    v.map_values(|p: (&str, &str)| (p.0.spec_bytes(), p.1.spec_bytes()))
}

/// A URL broken into parts, each a slice of the URL.
pub struct URLParts<'a> {
    pub protocol: Option<&'a str>,
    pub host: Option<&'a str>,
    pub path: Option<&'a str>,
    pub search: Option<&'a str>,
    pub fragment: Option<&'a str>,
    pub params: Vec<(&'a str, &'a str)>,
}

impl<'a> View for URLParts<'a> {
    type V = UrlView;

    open spec fn view(&self) -> UrlView {
        UrlView {
            protocol: opt_bytes(self.protocol),
            host: opt_bytes(self.host),
            path: opt_bytes(self.path),
            search: opt_bytes(self.search),
            fragment: opt_bytes(self.fragment),
            params: pairs_bytes(self.params@),
        }
    }
}

/// The protocol of `url`: the text before the first `://` when it is
/// `http`, `https` or `ftp`.
pub fn get_protocol(url: &str) -> (r: Option<&str>)
    ensures
        opt_bytes(r) == protocol_of(url.spec_bytes()),
{
    match truncate(url, "://", 0) {
        Some(scheme) => {
            if utils::same_bytes(scheme, "http") || utils::same_bytes(scheme, "https")
                || utils::same_bytes(scheme, "ftp") {
                Some(scheme)
            } else {
                None
            }
        },
        None => None,
    }
}

/// The host of `url`: what follows the first `://` (or all of `url` when
/// nothing follows one), up to the first `/`.
pub fn get_host(url: &str) -> (r: Option<&str>)
    ensures
        opt_bytes(r) == host_of(url.spec_bytes()),
{
    match truncate(url, "://", 1) {
        Some(rest) => truncate(rest, "/", 0),
        None => truncate(url, "/", 0),
    }
}

/// The path of `url`: what follows the host's `/`, without the query string
/// and the fragment.
pub fn get_path(url: &str) -> (r: Option<&str>)
    ensures
        opt_bytes(r) == path_of(url.spec_bytes()),
{
    let path = match truncate(url, "://", 1) {
        Some(rest) => truncate(rest, "/", 1),
        None => truncate(url, "/", 1),
    };
    match path {
        Some(p) => match truncate(p, "?", 0) {
            Some(q) => truncate(q, "#", 0),
            None => None,
        },
        None => None,
    }
}

/// The query string of `url`: what follows the first `?`, up to the first
/// `#`.
pub fn get_search_string(url: &str) -> (r: Option<&str>)
    ensures
        opt_bytes(r) == search_of(url.spec_bytes()),
{
    match truncate(url, "?", 1) {
        Some(search) => truncate(search, "#", 0),
        None => None,
    }
}

/// The fragment of `url`: what follows the first `#`.
pub fn get_fragment(url: &str) -> (r: Option<&str>)
    ensures
        opt_bytes(r) == fragment_of(url.spec_bytes()),
{
    truncate(url, "#", 1)
}

/// Appends the pair of `token` to `pairs`, if it holds an `=`.
fn push_pair<'a>(pairs: &mut Vec<(&'a str, &'a str)>, token: &'a str)
    ensures
        pairs_bytes(final(pairs)@) == pairs_bytes(old(pairs)@) + pair_in(token.spec_bytes()),
{
    let ghost before = old(pairs)@;
    match split_first(token, "=") {
        Some((key, value)) => {
            pairs.push((key, value));
            assert(pairs_bytes(pairs@) =~= pairs_bytes(before) + pair_in(token.spec_bytes()));
        },
        None => {
            assert(pairs_bytes(pairs@) =~= pairs_bytes(before) + pair_in(token.spec_bytes()));
        },
    }
}

/// The query parameters of `url`: each `&`-separated token of its query
/// string that holds an `=`, split on its first `=` into key and value, in
/// order. Tokens without `=` are left out.
pub fn get_params(url: &str) -> (r: Vec<(&str, &str)>)
    ensures
        pairs_bytes(r@) == params_of(url.spec_bytes()),
{
    let mut result: Vec<(&str, &str)> = Vec::new();
    match get_search_string(url) {
        Some(search) => {
            let mut rest: &str = search;
            proof {
                lemma_separator_lengths();
                assert(pairs_bytes(result@) =~= seq![]);
                assert(params_in(search.spec_bytes()) =~= pairs_bytes(result@) + params_in(
                    rest.spec_bytes(),
                ));
            }
            loop
                invariant_except_break
                    params_in(search.spec_bytes()) == pairs_bytes(result@) + params_in(
                        rest.spec_bytes(),
                    ),
                invariant
                    "&".spec_bytes().len() == 1,
                ensures
                    params_in(search.spec_bytes()) == pairs_bytes(result@),
                decreases rest.spec_bytes().len(),
            {
                let ghost r0 = rest.spec_bytes();
                let ghost acc = pairs_bytes(result@);
                match split_first(rest, "&") {
                    Some((token, after)) => {
                        proof {
                            utils::lemma_first_match_occurs(r0, "&".spec_bytes());
                        }
                        push_pair(&mut result, token);
                        rest = after;
                        assert(pairs_bytes(result@) + params_in(rest.spec_bytes()) =~= acc
                            + params_in(r0));
                    },
                    None => {
                        push_pair(&mut result, rest);
                        assert(pairs_bytes(result@) =~= acc + params_in(r0));
                        break ;
                    },
                }
            }
        },
        None => {
            assert(pairs_bytes(result@) =~= seq![]);
        },
    }
    result
}

/// Breaks `url` into its parts, once its leading and trailing white space
/// is trimmed.
pub fn parse_url(url: &str) -> (r: URLParts)
    ensures
        r@ == parse_model(url@),
{
    let url: &str = trim_white_space(url);
    URLParts {
        protocol: get_protocol(url),
        host: get_host(url),
        path: get_path(url),
        search: get_search_string(url),
        fragment: get_fragment(url),
        params: get_params(url),
    }
}

} // verus!

use vstd::prelude::*;
use vstd::string::StringSliceAdditionalSpecFns;

use crate::trim::{all_white_space, lemma_trim_idempotent, lemma_trim_padded, trim_chars};
use crate::utils::{first_match, is_slice_of, lemma_first_match_occurs, lemma_truncated_is_slice};
use crate::{
    after_scheme, is_known_scheme, lemma_separator_lengths, pair_in, params_in, params_of,
    parse_model, protocol_of, search_of, tokens_in, trimmed_bytes, parts_of, host_of, path_of,
    fragment_of,
};
use vstd::utf8::encode_utf8;

verus! {

/// Every pair of `ps` is made of two parts of `s`.
pub open spec fn pairs_within(ps: Seq<(Seq<u8>, Seq<u8>)>, s: Seq<u8>) -> bool {
    forall|i: int|
        0 <= i < ps.len() ==> is_slice_of(#[trigger] ps[i].0, s) && is_slice_of(ps[i].1, s)
}

/// Whether an optional part is a part of `s`.
pub open spec fn opt_within(o: Option<Seq<u8>>, s: Seq<u8>) -> bool {
    match o {
        Some(x) => is_slice_of(x, s),
        None => true,
    }
}

/// A token holds a key and a value when it holds an `=`.
pub open spec fn has_assignment(token: Seq<u8>) -> bool {
    first_match(token, "=".spec_bytes()).is_some()
}

proof fn lemma_slice_of_slice(x: Seq<u8>, y: Seq<u8>, z: Seq<u8>)
    requires
        is_slice_of(x, y),
        is_slice_of(y, z),
    ensures
        is_slice_of(x, z),
{
    let (i, j) = choose|i: int, j: int| 0 <= i <= j <= y.len() && x == y.subrange(i, j);
    let (k, l) = choose|k: int, l: int| 0 <= k <= l <= z.len() && y == z.subrange(k, l);
    assert(x =~= z.subrange(k + i, k + j));
}

proof fn lemma_slice_of_self(s: Seq<u8>)
    ensures
        is_slice_of(s, s),
{
    assert(s =~= s.subrange(0, s.len() as int));
}

proof fn lemma_opt_within_trans(o: Option<Seq<u8>>, y: Seq<u8>, z: Seq<u8>)
    requires
        opt_within(o, y),
        is_slice_of(y, z),
    ensures
        opt_within(o, z),
{
    if let Some(x) = o {
        lemma_slice_of_slice(x, y, z);
    }
}

proof fn lemma_after_scheme_within(t: Seq<u8>)
    ensures
        is_slice_of(after_scheme(t), t),
{
    lemma_truncated_is_slice(t, "://".spec_bytes(), 1);
    lemma_slice_of_self(t);
}

proof fn lemma_pair_within(token: Seq<u8>)
    ensures
        pairs_within(pair_in(token), token),
{
    lemma_first_match_occurs(token, "=".spec_bytes());
    if let Some(q) = first_match(token, "=".spec_bytes()) {
        let k = token.subrange(0, q);
        let v = token.subrange(q + "=".spec_bytes().len(), token.len() as int);
        assert(is_slice_of(k, token));
        assert(is_slice_of(v, token));
    }
}

proof fn lemma_pairs_within_trans(ps: Seq<(Seq<u8>, Seq<u8>)>, y: Seq<u8>, z: Seq<u8>)
    requires
        pairs_within(ps, y),
        is_slice_of(y, z),
    ensures
        pairs_within(ps, z),
{
    assert forall|i: int| 0 <= i < ps.len() implies is_slice_of(#[trigger] ps[i].0, z)
        && is_slice_of(ps[i].1, z) by {
        lemma_slice_of_slice(ps[i].0, y, z);
        lemma_slice_of_slice(ps[i].1, y, z);
    }
}

proof fn lemma_params_in_within(s: Seq<u8>)
    ensures
        pairs_within(params_in(s), s),
    decreases s.len(),
{
    lemma_first_match_occurs(s, "&".spec_bytes());
    lemma_separator_lengths();
    match first_match(s, "&".spec_bytes()) {
        Some(p) => {
            let token = s.subrange(0, p);
            let rest = s.subrange(p + 1, s.len() as int);
            lemma_pair_within(token);
            assert(is_slice_of(token, s));
            lemma_pairs_within_trans(pair_in(token), token, s);
            lemma_params_in_within(rest);
            assert(is_slice_of(rest, s));
            lemma_pairs_within_trans(params_in(rest), rest, s);
            let all = pair_in(token) + params_in(rest);
            assert forall|i: int| 0 <= i < all.len() implies is_slice_of(#[trigger] all[i].0, s)
                && is_slice_of(all[i].1, s) by {
                if i >= pair_in(token).len() {
                    assert(all[i] == params_in(rest)[i - pair_in(token).len()]);
                }
            }
        },
        None => {
            lemma_pair_within(s);
        },
    }
}

/// `parse_url` depends on the characters of its input alone, and each part
/// it gives, each key and each value included, is a slice of the trimmed
/// input.
pub proof fn lemma_parts_within_trimmed(raw: Seq<char>)
    ensures
        ({
            let t = trimmed_bytes(raw);
            let m = parse_model(raw);
            &&& opt_within(m.protocol, t)
            &&& opt_within(m.host, t)
            &&& opt_within(m.path, t)
            &&& opt_within(m.search, t)
            &&& opt_within(m.fragment, t)
            &&& pairs_within(m.params, t)
        }),
{
    let t = trimmed_bytes(raw);
    let a = after_scheme(t);
    lemma_after_scheme_within(t);
    lemma_truncated_is_slice(t, "://".spec_bytes(), 0);
    lemma_truncated_is_slice(a, "/".spec_bytes(), 0);
    lemma_opt_within_trans(host_of(t), a, t);
    lemma_truncated_is_slice(a, "/".spec_bytes(), 1);
    if let Some(p) = crate::utils::truncated(a, "/".spec_bytes(), 1) {
        lemma_truncated_is_slice(p, "?".spec_bytes(), 0);
        if let Some(q) = crate::utils::truncated(p, "?".spec_bytes(), 0) {
            lemma_truncated_is_slice(q, "#".spec_bytes(), 0);
            lemma_opt_within_trans(path_of(t), q, p);
            lemma_opt_within_trans(path_of(t), p, a);
            lemma_opt_within_trans(path_of(t), a, t);
        }
    }
    lemma_truncated_is_slice(t, "?".spec_bytes(), 1);
    if let Some(s) = crate::utils::truncated(t, "?".spec_bytes(), 1) {
        lemma_truncated_is_slice(s, "#".spec_bytes(), 0);
        lemma_opt_within_trans(search_of(t), s, t);
    }
    lemma_truncated_is_slice(t, "#".spec_bytes(), 1);
    if let Some(s) = search_of(t) {
        lemma_params_in_within(s);
        lemma_pairs_within_trans(params_in(s), s, t);
    }
}

/// On an input with no surrounding white space, `parse_url` gives what each
/// of the extractors gives on it.
pub proof fn lemma_parse_agrees_with_extractors(url: Seq<char>)
    requires
        trim_chars(url) == url,
    ensures
        parse_model(url) == parts_of(encode_utf8(url)),
        parse_model(url).protocol == protocol_of(encode_utf8(url)),
        parse_model(url).host == host_of(encode_utf8(url)),
        parse_model(url).path == path_of(encode_utf8(url)),
        parse_model(url).search == search_of(encode_utf8(url)),
        parse_model(url).fragment == fragment_of(encode_utf8(url)),
        parse_model(url).params == params_of(encode_utf8(url)),
{
}

/// Trimming the input before it is parsed changes none of its parts.
pub proof fn lemma_trim_again(raw: Seq<char>)
    ensures
        trimmed_bytes(trim_chars(raw)) == trimmed_bytes(raw),
        parse_model(trim_chars(raw)) == parse_model(raw),
{
    lemma_trim_idempotent(raw);
}

/// White space around the input appears in none of its parts: they are
/// those of the input without it.
pub proof fn lemma_surrounding_white_space(lead: Seq<char>, url: Seq<char>, trail: Seq<char>)
    requires
        all_white_space(lead),
        all_white_space(trail),
    ensures
        trimmed_bytes(lead + url + trail) == trimmed_bytes(url),
        parse_model(lead + url + trail) == parse_model(url),
{
    lemma_trim_padded(lead, url, trail);
}

proof fn lemma_scheme_lengths()
    ensures
        "http".spec_bytes().len() > 0,
        "https".spec_bytes().len() > 0,
        "ftp".spec_bytes().len() > 0,
{
    reveal_strlit("http");
    reveal_strlit("https");
    reveal_strlit("ftp");
    vstd::string::is_ascii_spec_bytes("http");
    vstd::string::is_ascii_spec_bytes("https");
    vstd::string::is_ascii_spec_bytes("ftp");
}

/// The protocol is present exactly when the text before the first `://` is
/// `http`, `https` or `ftp`. (A text without `://` that is itself one of
/// those names is its own protocol, and is left out here.)
pub proof fn lemma_protocol_present(t: Seq<u8>)
    requires
        first_match(t, "://".spec_bytes()).is_some() || !is_known_scheme(t),
    ensures
        protocol_of(t).is_some() <==> match first_match(t, "://".spec_bytes()) {
            Some(p) => is_known_scheme(t.subrange(0, p)),
            None => false,
        },
{
    lemma_scheme_lengths();
}

proof fn lemma_params_in_count(s: Seq<u8>)
    ensures
        params_in(s).len() == tokens_in(s).filter(|x: Seq<u8>| has_assignment(x)).len(),
    decreases s.len(),
{
    let f = |x: Seq<u8>| has_assignment(x);
    lemma_first_match_occurs(s, "&".spec_bytes());
    lemma_separator_lengths();
    reveal_with_fuel(Seq::filter, 2);
    match first_match(s, "&".spec_bytes()) {
        Some(p) => {
            let token = s.subrange(0, p);
            let rest = s.subrange(p + 1, s.len() as int);
            lemma_params_in_count(rest);
            Seq::filter_distributes_over_add(seq![token], tokens_in(rest), f);
            assert(seq![token].drop_last() =~= Seq::<Seq<u8>>::empty());
        },
        None => {
            assert(seq![s].drop_last() =~= Seq::<Seq<u8>>::empty());
        },
    }
}

/// There are as many parameters as `&`-separated tokens of the query string
/// that hold an `=`.
pub proof fn lemma_params_count(t: Seq<u8>)
    ensures
        params_of(t).len() == match search_of(t) {
            Some(s) => tokens_in(s).filter(|x: Seq<u8>| has_assignment(x)).len(),
            None => 0,
        },
{
    if let Some(s) = search_of(t) {
        lemma_params_in_count(s);
    }
}

} // verus!

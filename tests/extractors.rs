use parse_url::utils::truncate;
use parse_url::{
    get_fragment, get_host, get_params, get_path, get_protocol, get_search_string, parse_url,
    URLParts,
};

fn same_parts(a: &URLParts, b: &URLParts) -> bool {
    a.protocol == b.protocol
        && a.host == b.host
        && a.path == b.path
        && a.search == b.search
        && a.fragment == b.fragment
        && a.params == b.params
}

fn lies_within(part: &str, whole: &str) -> bool {
    let start = whole.as_ptr() as usize;
    let p = part.as_ptr() as usize;
    p >= start && p + part.len() <= start + whole.len()
}

#[test]
fn truncate_takes_first_occurrence() {
    assert_eq!(Some("a"), truncate("a/b/c", "/", 0));
    assert_eq!(Some("b/c"), truncate("a/b/c", "/", 1));
    assert_eq!(Some("x"), truncate("x://y://z", "://", 0));
    assert_eq!(Some("y://z"), truncate("x://y://z", "://", 1));
}

#[test]
fn truncate_without_separator() {
    assert_eq!(Some("abc"), truncate("abc", "/", 0));
    assert_eq!(None, truncate("abc", "/", 1));
    assert_eq!(None, truncate("", "/", 0));
}

#[test]
fn truncate_empty_pieces_are_absent() {
    assert_eq!(None, truncate("/abc", "/", 0));
    assert_eq!(None, truncate("abc/", "/", 1));
    assert_eq!(None, truncate("a/b", "/", 2));
}

#[test]
fn truncate_keeps_text_that_reads_none() {
    assert_eq!(Some("None"), truncate("None/x", "/", 0));
    assert_eq!(Some("None"), get_host("None/x"));
}

#[test]
fn truncate_multibyte_text() {
    assert_eq!(Some("ä"), truncate("ä€ö", "€", 0));
    assert_eq!(Some("ö"), truncate("ä€ö", "€", 1));
}

#[test]
fn scenario_full_url() {
    let parts = parse_url("https://www.example.com/en-US/page/sub/?pre=2&foo=bar#fuzz");
    assert_eq!(Some("https"), parts.protocol);
    assert_eq!(Some("www.example.com"), parts.host);
    assert_eq!(Some("en-US/page/sub/"), parts.path);
    assert_eq!(Some("pre=2&foo=bar"), parts.search);
    assert_eq!(vec![("pre", "2"), ("foo", "bar")], parts.params);
    assert_eq!(Some("fuzz"), parts.fragment);
}

#[test]
fn scenario_host_only() {
    let parts = parse_url("https://www.example.com/");
    assert_eq!(Some("https"), parts.protocol);
    assert_eq!(Some("www.example.com"), parts.host);
    assert_eq!(None, parts.path);
    assert_eq!(None, parts.search);
    assert!(parts.params.is_empty());
    assert_eq!(None, parts.fragment);
}

#[test]
fn scenario_flag_token_dropped() {
    let parts = parse_url("https://www.example.com/en-US/page/sub/?pre=2&flag&foo=bar");
    assert_eq!(vec![("pre", "2"), ("foo", "bar")], parts.params);
    assert_eq!(Some("pre=2&flag&foo=bar"), parts.search);
    assert_eq!(None, parts.fragment);
}

#[test]
fn scenario_surrounding_space_ignored() {
    let padded = parse_url("  https://www.example.com/en-US/page/sub/#fuzz  ");
    let bare = parse_url("https://www.example.com/en-US/page/sub/#fuzz");
    assert!(same_parts(&padded, &bare));
    assert_eq!(Some("fuzz"), padded.fragment);
}

#[test]
fn protocol_recognised_set() {
    assert_eq!(Some("http"), get_protocol("http://a.com"));
    assert_eq!(Some("https"), get_protocol("https://a.com"));
    assert_eq!(Some("ftp"), get_protocol("ftp://a.com"));
    assert_eq!(None, get_protocol("HTTP://a.com"));
    assert_eq!(None, get_protocol("ftps://a.com"));
    assert_eq!(None, get_protocol("://a.com"));
    assert_eq!(None, get_protocol("a.com/http://b"));
}

#[test]
fn protocol_without_separator_is_whole_text() {
    assert_eq!(Some("http"), get_protocol("http"));
    assert_eq!(None, get_protocol("www.example.com"));
}

#[test]
fn host_edge_cases() {
    assert_eq!(Some("a.com"), get_host("a.com"));
    assert_eq!(Some("http:"), get_host("http://"));
    assert_eq!(None, get_host("https:///path"));
    assert_eq!(Some("a.com?x=1"), get_host("a.com?x=1"));
    assert_eq!(None, get_host(""));
}

#[test]
fn path_edge_cases() {
    assert_eq!(None, get_path("https://a.com/?q=1"));
    assert_eq!(None, get_path("https://a.com/#top"));
    assert_eq!(Some("x/y"), get_path("https://a.com/x/y?q=1#top"));
    assert_eq!(Some("x"), get_path("https://a.com/x#a?b"));
    assert_eq!(None, get_path("https://a.com"));
}

#[test]
fn search_and_fragment_edge_cases() {
    assert_eq!(Some("a=1"), get_search_string("x?a=1#f?g"));
    assert_eq!(None, get_search_string("x?#f"));
    assert_eq!(None, get_search_string("x?"));
    assert_eq!(Some("f?g"), get_fragment("x?a=1#f?g"));
    assert_eq!(Some("b#c"), get_fragment("a#b#c"));
    assert_eq!(None, get_fragment("a#"));
}

#[test]
fn params_count_tokens_with_equals() {
    let ps = get_params("h/?a=1&b&c=&=d&e=f=g&&");
    assert_eq!(vec![("a", "1"), ("c", ""), ("", "d"), ("e", "f=g")], ps);
    assert_eq!(4, ps.len());
}

#[test]
fn params_keep_duplicates_in_order() {
    let ps = get_params("h?k=1&k=2&j=3");
    assert_eq!(vec![("k", "1"), ("k", "2"), ("j", "3")], ps);
    assert!(get_params("h/p").is_empty());
}

#[test]
fn parts_are_views_of_trimmed_input() {
    let raw = String::from(" \t https://h.org/p/q?x=1&y=2#frag \n");
    let trimmed = raw.trim();
    let parts = parse_url(&raw);
    for part in [parts.protocol, parts.host, parts.path, parts.search, parts.fragment] {
        let part = part.unwrap();
        assert!(lies_within(part, trimmed));
    }
    for (k, v) in parts.params {
        assert!(lies_within(k, trimmed));
        assert!(lies_within(v, trimmed));
    }
}

#[test]
fn trimming_again_changes_nothing() {
    let raw = "\u{3000} ftp://files.net/a?b=c#d \u{2028}";
    let once = raw.trim();
    assert!(same_parts(&parse_url(raw), &parse_url(once)));
    assert_eq!(get_host(once), get_host(once.trim()));
    assert_eq!(get_fragment(once), get_fragment(once.trim()));
    assert_eq!(Some("d"), parse_url(raw).fragment);
}

#[test]
fn surrounding_white_space_never_kept() {
    let parts = parse_url("\t\n http://a.com/p#frag \r\n");
    assert_eq!(Some("http"), parts.protocol);
    assert_eq!(Some("frag"), parts.fragment);
    assert_eq!(Some("p"), parts.path);
    let blank = parse_url(" \t ");
    assert_eq!(None, blank.protocol);
    assert_eq!(None, blank.host);
    assert!(blank.params.is_empty());
}

#[test]
fn parse_matches_each_extractor() {
    let url = "https://exämple.com/päth/?ß=ü&x#frägment";
    let parts = parse_url(url);
    assert_eq!(get_protocol(url), parts.protocol);
    assert_eq!(get_host(url), parts.host);
    assert_eq!(Some("exämple.com"), parts.host);
    assert_eq!(get_path(url), parts.path);
    assert_eq!(Some("päth/"), parts.path);
    assert_eq!(get_search_string(url), parts.search);
    assert_eq!(get_fragment(url), parts.fragment);
    assert_eq!(vec![("ß", "ü")], parts.params);
    assert_eq!(get_params(url), parts.params);
}

#[test]
fn empty_input() {
    let parts = parse_url("");
    assert_eq!(None, parts.protocol);
    assert_eq!(None, parts.host);
    assert_eq!(None, parts.path);
    assert_eq!(None, parts.search);
    assert_eq!(None, parts.fragment);
    assert!(parts.params.is_empty());
}

use vstd::prelude::*;
use crate::text::{int_text, push_int, push_text};

verus! {

/// Where the query endpoint is and the key it wants.
pub struct Config {
    pub api_url: String,
    pub api_key: String,
}

/// `text` without the `/` characters at its end.
pub open spec fn trim_slashes(text: Seq<char>) -> Seq<char>
    decreases text.len(),
{
    if text.len() > 0 && text.last() == '/' {
        trim_slashes(text.drop_last())
    } else {
        text
    }
}

/// `s.trim_end_matches('/')`.
pub fn trim_end_slashes(s: &str) -> (r: String)
    ensures
        r@ == trim_slashes(s@),
{
    let mut n = s.unicode_len();
    assert(s@.take(n as int) =~= s@);
    while n > 0 && s.get_char(n - 1) == '/'
        invariant
            n <= s@.len(),
            trim_slashes(s@) == trim_slashes(s@.take(n as int)),
        decreases n,
    {
        assert(s@.take(n as int).drop_last() =~= s@.take(n - 1));
        n -= 1;
    }
    let r = s.substring_char(0, n);
    assert(r@ =~= s@.take(n as int));
    r.to_owned()
}

/// The configuration as loaded: the endpoint without trailing slashes, so that paths append
/// cleanly.
pub fn normalize_config(cfg: Config) -> (r: Config)
    ensures
        r.api_url@ == trim_slashes(cfg.api_url@),
        r.api_key@ == cfg.api_key@,
{
    let api_url = trim_end_slashes(cfg.api_url.as_str());
    Config { api_url, api_key: cfg.api_key }
}

/// Trimming twice is trimming once, and a trimmed endpoint never ends with `/`.
pub proof fn law_trim_slashes(text: Seq<char>)
    ensures
        trim_slashes(trim_slashes(text)) == trim_slashes(text),
        trim_slashes(text).len() == 0 || trim_slashes(text).last() != '/',
    decreases text.len(),
{
    if text.len() > 0 && text.last() == '/' {
        law_trim_slashes(text.drop_last());
    }
}

/// `{api_url}/quotes?from={from}&to={to}`, followed by `&symbol={symbol}` when one is given.
pub open spec fn quotes_url_text(api_url: Seq<char>, symbol: Option<&str>, from: int, to: int) -> Seq<char> {
    api_url + "/quotes?from="@ + int_text(from) + "&to="@ + int_text(to) + match symbol {
        Some(s) => "&symbol="@ + s@,
        None => Seq::<char>::empty(),
    }
}

/// The request URL for the quotes of `[from, to]`, of one symbol or of all.
pub fn quotes_url(api_url: &str, symbol: Option<&str>, from: i64, to: i64) -> (r: String)
    ensures
        r@ == quotes_url_text(api_url@, symbol, from as int, to as int),
{
    let mut url: String = api_url.to_owned();
    push_text(&mut url, "/quotes?from=");
    push_int(&mut url, from);
    push_text(&mut url, "&to=");
    push_int(&mut url, to);
    if let Some(s) = symbol {
        push_text(&mut url, "&symbol=");
        push_text(&mut url, s);
    }
    assert(url@ =~= quotes_url_text(api_url@, symbol, from as int, to as int));
    url
}

/// `{api_url}/collect-log?from={from}&to={to}`: the collector's run log for a window.
pub open spec fn collect_log_url_text(api_url: Seq<char>, from: int, to: int) -> Seq<char> {
    api_url + "/collect-log?from="@ + int_text(from) + "&to="@ + int_text(to)
}

/// The request URL for the collector's run log over `[from, to]`.
pub fn collect_log_url(api_url: &str, from: i64, to: i64) -> (r: String)
    ensures
        r@ == collect_log_url_text(api_url@, from as int, to as int),
{
    let mut url: String = api_url.to_owned();
    push_text(&mut url, "/collect-log?from=");
    push_int(&mut url, from);
    push_text(&mut url, "&to=");
    push_int(&mut url, to);
    assert(url@ =~= collect_log_url_text(api_url@, from as int, to as int));
    url
}

/// The `Authorization` header value: `Bearer {api_key}`.
pub fn bearer(api_key: &str) -> (r: String)
    ensures
        r@ == "Bearer "@ + api_key@,
{
    let mut h: String = "Bearer ".to_owned();
    push_text(&mut h, api_key);
    h
}

} // verus!

use vstd::prelude::*;
use vstd::utf8::is_ascii_chars;
use crate::error::Error;
use crate::text::same_text;

verus! {

/// What std's `str::to_uppercase` gives for `text` (Unicode upper-casing).
pub uninterp spec fn upper_text(text: Seq<char>) -> Seq<char>;

/// ASCII upper-casing of one character.
pub open spec fn ascii_upper(c: char) -> char {
    if 'a' <= c <= 'z' {
        ((c as int) - 32) as char
    } else {
        c
    }
}

pub open spec fn ascii_upper_text(text: Seq<char>) -> Seq<char> {
    text.map_values(|c: char| ascii_upper(c))
}

/// std's `str::to_uppercase`. Upper-casing in Unicode takes tables to state, so the result is
/// named; on ASCII text it maps `a`-`z` to `A`-`Z` and keeps every other character.
#[verifier::external_body]
fn to_upper(s: &str) -> (r: String)
    ensures
        r@ == upper_text(s@),
        is_ascii_chars(s@) ==> r@ == ascii_upper_text(s@),
{
    s.to_uppercase()
}

/// The three symbols that are collected.
pub open spec fn is_symbol(s: Seq<char>) -> bool {
    s == "KOSPI"@ || s == "KOSDAQ"@ || s == "USDKRW"@
}

/// Whether an already upper-cased text is one of the collected symbols.
pub fn known_symbol(u: &str) -> (r: bool)
    ensures
        r == is_symbol(u@),
{
    same_text(u, "KOSPI") || same_text(u, "KOSDAQ") || same_text(u, "USDKRW")
}

/// What `norm_symbol` returns for `text`.
pub open spec fn norm_symbol_post(text: Seq<char>, r: Result<String, Error>) -> bool {
    &&& (r is Ok <==> is_symbol(upper_text(text)))
    &&& r matches Ok(u) ==> u@ == upper_text(text)
    &&& r matches Err(e) ==> e matches Error::UnsupportedSymbol(t) && t@ == text
    &&& is_ascii_chars(text) ==> upper_text(text) == ascii_upper_text(text)
}

/// The upper-cased symbol if it is collected, else an error naming the given text.
pub fn norm_symbol(s: &str) -> (r: Result<String, Error>)
    ensures
        norm_symbol_post(s@, r),
{
    let u = to_upper(s);
    if known_symbol(u.as_str()) {
        Ok(u)
    } else {
        Err(Error::UnsupportedSymbol(s.to_owned()))
    }
}

/// A collected symbol is its own normal form: normalizing it again gives it back unchanged.
pub proof fn law_norm_symbol_fixes_symbols(text: Seq<char>, r: Result<String, Error>)
    requires
        is_symbol(text),
        norm_symbol_post(text, r),
    ensures
        r matches Ok(u) && u@ == text,
{
    reveal_strlit("KOSPI");
    reveal_strlit("KOSDAQ");
    reveal_strlit("USDKRW");
    assert(is_ascii_chars(text));
    assert(ascii_upper_text(text) =~= text);
}

/// Case does not matter: two ASCII texts that differ only in case normalize alike.
pub proof fn law_norm_symbol_ignores_ascii_case(
    a: Seq<char>,
    b: Seq<char>,
    ra: Result<String, Error>,
    rb: Result<String, Error>,
)
    requires
        is_ascii_chars(a),
        is_ascii_chars(b),
        ascii_upper_text(a) == ascii_upper_text(b),
        norm_symbol_post(a, ra),
        norm_symbol_post(b, rb),
    ensures
        ra is Ok <==> rb is Ok,
        ra matches Ok(u) ==> rb matches Ok(v) && u@ == v@,
{
}

} // verus!

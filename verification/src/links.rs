//! The recognized domains, their replacements, and the rewrite of one URL.

use vstd::prelude::*;

use crate::text::contains_bare;
use crate::text::contains_bare_sub;
use crate::text::contains_seq;
use crate::text::contains_sub;
use crate::text::replace_seq;
use crate::text::replace_sub;

verus! {

/// The first recognized domain substring.
pub open spec fn twitter_pat() -> Seq<char> {
    "twitter.com"@
}

/// The replacement for the first recognized domain.
pub open spec fn fxtwitter_pat() -> Seq<char> {
    "fxtwitter.com"@
}

/// The second recognized domain substring.
pub open spec fn x_pat() -> Seq<char> {
    "x.com"@
}

/// The replacement for the second recognized domain.
pub open spec fn fixvx_pat() -> Seq<char> {
    "fixvx.com"@
}

/// The line terminator appended after each rewritten URL.
pub open spec fn line_break() -> Seq<char> {
    "\n"@
}

/// A token is a candidate URL when it holds an occurrence of a recognized
/// domain that is not already part of that domain's replacement: an
/// already-rewritten link is never re-matched.  `"fxtwitter.com"` holds
/// `"twitter.com"` at offset 2, and `"fixvx.com"` holds `"x.com"` at offset
/// 4, so an occurrence is counted only when it lies outside those forms.
pub open spec fn is_candidate(t: Seq<char>) -> bool {
    ||| contains_bare(t, twitter_pat(), fxtwitter_pat(), 2)
    ||| contains_bare(t, x_pat(), fixvx_pat(), 4)
}

/// The candidate URLs among `toks`, in order, duplicates preserved.
pub open spec fn candidates_of(toks: Seq<Seq<char>>) -> Seq<Seq<char>>
    decreases toks.len(),
{
    if toks.len() == 0 {
        Seq::empty()
    } else if is_candidate(toks[0]) {
        seq![toks[0]] + candidates_of(toks.skip(1))
    } else {
        candidates_of(toks.skip(1))
    }
}

/// What one URL contributes to the output block: its rewritten form and a
/// line terminator when a rule matches, nothing otherwise.  The rules are
/// tried in a fixed priority order, the `twitter.com` rule first, and only
/// the first matching rule is applied.
pub open spec fn rewrite_one(u: Seq<char>) -> Seq<char> {
    if contains_seq(u, twitter_pat()) {
        replace_seq(u, twitter_pat(), fxtwitter_pat()) + line_break()
    } else if contains_seq(u, x_pat()) {
        replace_seq(u, x_pat(), fixvx_pat()) + line_break()
    } else {
        Seq::empty()
    }
}

/// The output block for a list of URLs: each URL's contribution, concatenated
/// in input order.
pub open spec fn rewrite_spec(urls: Seq<Seq<char>>) -> Seq<char>
    decreases urls.len(),
{
    if urls.len() == 0 {
        Seq::empty()
    } else {
        rewrite_one(urls[0]) + rewrite_spec(urls.skip(1))
    }
}

/// The character sequences held by a list of strings.
pub open spec fn views_of(urls: Seq<String>) -> Seq<Seq<char>> {
    urls.map_values(|u: String| u@)
}

/// Whether `t` holds a recognized domain occurrence of its own, outside the
/// already-rewritten forms; decides `is_candidate`.
pub fn is_candidate_url(t: &str) -> (r: bool)
    ensures
        r == is_candidate(t@),
{
    contains_bare_sub(t, "twitter.com", "fxtwitter.com", 2) || contains_bare_sub(
        t,
        "x.com",
        "fixvx.com",
        4,
    )
}

/// The contribution of one URL to the output block; computes `rewrite_one`.
pub fn rewrite_url(url: &str) -> (r: String)
    ensures
        r@ == rewrite_one(url@),
{
    proof {
        reveal_strlit("twitter.com");
        reveal_strlit("x.com");
    }
    if contains_sub(url, "twitter.com") {
        let mut w = replace_sub(url, "twitter.com", "fxtwitter.com");
        w.append("\n");
        w
    } else if contains_sub(url, "x.com") {
        let mut w = replace_sub(url, "x.com", "fixvx.com");
        w.append("\n");
        w
    } else {
        let w = String::new();
        proof {
            assert(w@ =~= rewrite_one(url@));
        }
        w
    }
}

} // verus!

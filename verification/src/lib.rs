//! Recognizing and rewriting social-media links in chat messages.
//!
//! The library scans free-form message text for whitespace-delimited tokens
//! that mention a recognized domain, and rewrites each recognized domain to a
//! replacement domain that renders richer previews.

pub mod laws;
pub mod links;
pub mod pipeline;
pub mod text;

use vstd::prelude::*;

use crate::links::candidates_of;
use crate::links::is_candidate_url;
use crate::links::rewrite_spec;
use crate::links::rewrite_url;
use crate::links::views_of;
use crate::text::is_space;
use crate::text::lemma_token_len_is;
use crate::text::tokens;

verus! {

/// The candidate URLs of a message: the whitespace-delimited tokens, in
/// source order, that hold a recognized domain substring.
pub open spec fn extract_spec(s: Seq<char>) -> Seq<Seq<char>> {
    candidates_of(tokens(s))
}

/// Whether `c` delimits tokens; decides `is_space`.
fn is_space_char(c: char) -> (r: bool)
    ensures
        r == is_space(c),
{
    c == ' ' || c == '\t' || c == '\n' || c == '\r'
}

/// Extracts the candidate URLs from a message: the whitespace-delimited
/// tokens that hold `"twitter.com"` or `"x.com"` outside the rewritten forms
/// `"fxtwitter.com"` and `"fixvx.com"`, in source order, with duplicates
/// preserved.  A link that was already rewritten is not matched again.
pub fn get_all_urls(message: &str) -> (urls: Vec<String>)
    ensures
        views_of(urls@) == extract_spec(message@),
{
    let n: usize = message.unicode_len();
    let mut urls: Vec<String> = Vec::new();
    let mut i: usize = 0;
    proof {
        assert(message@.skip(0) =~= message@);
        assert(views_of(urls@) =~= Seq::<Seq<char>>::empty());
        assert(views_of(urls@) + candidates_of(tokens(message@)) =~= extract_spec(message@));
    }
    while i < n
        invariant
            n == message@.len(),
            0 <= i <= n,
            extract_spec(message@) == views_of(urls@) + candidates_of(
                tokens(message@.skip(i as int)),
            ),
        decreases n - i,
    {
        let c = message.get_char(i);
        if is_space_char(c) {
            proof {
                let sub = message@.skip(i as int);
                assert(sub[0] == message@[i as int]);
                assert(sub.skip(1) =~= message@.skip(i + 1));
                assert(tokens(sub) == tokens(message@.skip(i + 1)));
            }
            i = i + 1;
        } else {
            let mut j: usize = i + 1;
            loop
                invariant
                    n == message@.len(),
                    i < j <= n,
                    forall|k: int| i <= k < j ==> !is_space(message@[k]),
                ensures
                    i < j <= n,
                    forall|k: int| i <= k < j ==> !is_space(message@[k]),
                    j == n || is_space(message@[j as int]),
                decreases n - j,
            {
                if j == n {
                    break ;
                }
                let c2 = message.get_char(j);
                if is_space_char(c2) {
                    break ;
                }
                j = j + 1;
            }
            proof {
                let sub = message@.skip(i as int);
                assert forall|k: int| 0 <= k < j - i implies !is_space(sub[k]) by {
                    assert(sub[k] == message@[i + k]);
                }
                if j < n {
                    assert(sub[j - i] == message@[j as int]);
                }
                lemma_token_len_is(sub, j - i);
                assert(!is_space(sub[0]));
                assert(tokens(sub) == seq![sub.subrange(0, (j - i) as int)] + tokens(
                    sub.skip((j - i) as int),
                ));
                assert(sub.subrange(0, (j - i) as int) =~= message@.subrange(i as int, j as int));
                assert(sub.skip((j - i) as int) =~= message@.skip(j as int));
            }
            let tok = message.substring_char(i, j);
            let ghost head = message@.subrange(i as int, j as int);
            let ghost rest = tokens(message@.skip(j as int));
            proof {
                let all = seq![head] + rest;
                assert(all[0] == head);
                assert(all.skip(1) =~= rest);
            }
            if is_candidate_url(tok) {
                let ghost old_urls = urls@;
                urls.push(tok.to_owned());
                proof {
                    assert(views_of(urls@) =~= views_of(old_urls).push(head));
                    assert(views_of(old_urls).push(head) =~= views_of(old_urls) + seq![head]);
                    assert(candidates_of(seq![head] + rest) == seq![head] + candidates_of(rest));
                }
            } else {
                proof {
                    assert(candidates_of(seq![head] + rest) == candidates_of(rest));
                }
            }
            i = j;
        }
    }
    proof {
        assert(message@.skip(i as int) =~= Seq::<char>::empty());
        assert(candidates_of(tokens(message@.skip(i as int))).len() == 0);
        assert(views_of(urls@) + candidates_of(tokens(message@.skip(i as int))) =~= views_of(
            urls@,
        ));
    }
    urls
}

/// Rewrites each recognized URL by its rule, the `"twitter.com"` rule taking
/// priority over the `"x.com"` rule, and concatenates the rewritten URLs in
/// input order, each followed by a line terminator; URLs that match no rule
/// contribute nothing.
pub fn replace_all_urls(urls: Vec<String>) -> (r: String)
    ensures
        r@ == rewrite_spec(views_of(urls@)),
{
    let mut res = String::new();
    let mut k: usize = 0;
    proof {
        assert(views_of(urls@).skip(0) =~= views_of(urls@));
        assert(res@ + rewrite_spec(views_of(urls@)) =~= rewrite_spec(views_of(urls@)));
    }
    while k < urls.len()
        invariant
            0 <= k <= urls@.len(),
            rewrite_spec(views_of(urls@)) == res@ + rewrite_spec(views_of(urls@).skip(k as int)),
        decreases urls@.len() - k,
    {
        proof {
            let v = views_of(urls@);
            assert(v.skip(k as int)[0] == v[k as int]);
            assert(v.skip(k as int).skip(1) =~= v.skip(k + 1));
            assert(rewrite_spec(v.skip(k as int)) == crate::links::rewrite_one(v[k as int])
                + rewrite_spec(v.skip(k + 1)));
        }
        let w = rewrite_url(urls[k].as_str());
        res.append(w.as_str());
        k = k + 1;
    }
    proof {
        assert(views_of(urls@).skip(k as int) =~= Seq::<Seq<char>>::empty());
        assert(res@ + rewrite_spec(views_of(urls@).skip(k as int)) =~= res@);
    }
    res
}

} // verus!

//! The properties promised of the extraction-and-rewrite pipeline, stated
//! and proved over the same specification functions that the executable
//! functions' contracts use.

use vstd::prelude::*;

use crate::extract_spec;
use crate::links::candidates_of;
use crate::links::fixvx_pat;
use crate::links::fxtwitter_pat;
use crate::links::is_candidate;
use crate::links::line_break;
use crate::links::rewrite_one;
use crate::links::rewrite_spec;
use crate::links::twitter_pat;
use crate::links::x_pat;
use crate::pipeline::retain_flagged;
use crate::pipeline::should_send_spec;
use crate::text::contains_bare;
use crate::text::contains_seq;
use crate::text::is_space;
use crate::text::lemma_bare_implies_contains;
use crate::text::lemma_contains_subrange;
use crate::text::lemma_token_len_le;
use crate::text::lemma_tokens_space_free;
use crate::text::replace_seq;
use crate::text::space_free_token;
use crate::text::token_len;
use crate::text::tokens;

verus! {

/// A message that nowhere holds a recognized domain substring yields no
/// candidate URLs at all.
pub proof fn lemma_no_recognized_substring_extracts_nothing(m: Seq<char>)
    requires
        !contains_seq(m, twitter_pat()),
        !contains_seq(m, x_pat()),
    ensures
        extract_spec(m) == Seq::<Seq<char>>::empty(),
    decreases m.len(),
{
    if m.len() == 0 {
        assert(tokens(m) =~= Seq::<Seq<char>>::empty());
    } else if is_space(m[0]) {
        assert(m.skip(1) =~= m.subrange(1, m.len() as int));
        if contains_seq(m.skip(1), twitter_pat()) {
            lemma_contains_subrange(m, twitter_pat(), 1, m.len() as int);
        }
        if contains_seq(m.skip(1), x_pat()) {
            lemma_contains_subrange(m, x_pat(), 1, m.len() as int);
        }
        lemma_no_recognized_substring_extracts_nothing(m.skip(1));
        assert(tokens(m) == tokens(m.skip(1)));
    } else {
        lemma_token_len_le(m);
        let tl = token_len(m) as int;
        let head = m.subrange(0, tl);
        let rest = tokens(m.skip(tl));
        if contains_bare(head, twitter_pat(), fxtwitter_pat(), 2) {
            lemma_bare_implies_contains(head, twitter_pat(), fxtwitter_pat(), 2);
            lemma_contains_subrange(m, twitter_pat(), 0, tl);
        }
        if contains_bare(head, x_pat(), fixvx_pat(), 4) {
            lemma_bare_implies_contains(head, x_pat(), fixvx_pat(), 4);
            lemma_contains_subrange(m, x_pat(), 0, tl);
        }
        assert(!is_candidate(head));
        assert(m.skip(tl) =~= m.subrange(tl, m.len() as int));
        if contains_seq(m.skip(tl), twitter_pat()) {
            lemma_contains_subrange(m, twitter_pat(), tl, m.len() as int);
        }
        if contains_seq(m.skip(tl), x_pat()) {
            lemma_contains_subrange(m, x_pat(), tl, m.len() as int);
        }
        lemma_no_recognized_substring_extracts_nothing(m.skip(tl));
        let all = seq![head] + rest;
        assert(tokens(m) == all);
        assert(all[0] == head);
        assert(all.skip(1) =~= rest);
        assert(candidates_of(all) == candidates_of(rest));
    }
}

/// A single URL that holds no recognized domain substring contributes
/// nothing: the block rewritten from it alone is empty.
pub proof fn lemma_unrecognized_url_rewrites_to_empty(u: Seq<char>)
    requires
        !contains_seq(u, twitter_pat()),
        !contains_seq(u, x_pat()),
    ensures
        rewrite_spec(seq![u]) == Seq::<char>::empty(),
{
    let l = seq![u];
    assert(l[0] == u);
    assert(l.skip(1) =~= Seq::<Seq<char>>::empty());
    assert(rewrite_one(u) == Seq::<char>::empty());
    assert(rewrite_spec(Seq::<Seq<char>>::empty()) == Seq::<char>::empty());
    assert(rewrite_spec(l) == rewrite_one(u) + rewrite_spec(l.skip(1)));
    assert(rewrite_one(u) + rewrite_spec(l.skip(1)) =~= Seq::<char>::empty());
}

/// Extraction followed by rewriting is a function of the message alone: two
/// runs over the same message always produce the same block.
pub proof fn lemma_pipeline_deterministic(m: Seq<char>, r1: Seq<char>, r2: Seq<char>)
    requires
        r1 == rewrite_spec(extract_spec(m)),
        r2 == rewrite_spec(extract_spec(m)),
    ensures
        r1 == r2,
{
}

/// Any URL holding `"twitter.com"` is rewritten by the twitter rule, whatever
/// else the URL — or any other URL in the list — may hold.
pub proof fn lemma_twitter_rule_priority(u: Seq<char>)
    requires
        contains_seq(u, twitter_pat()),
    ensures
        rewrite_one(u) == replace_seq(u, twitter_pat(), fxtwitter_pat()) + line_break(),
{
}

/// Rewriting treats each URL independently: the block of a concatenated list
/// is the concatenation of the blocks.
pub proof fn lemma_rewrite_per_url(a: Seq<Seq<char>>, b: Seq<Seq<char>>)
    ensures
        rewrite_spec(a + b) == rewrite_spec(a) + rewrite_spec(b),
    decreases a.len(),
{
    if a.len() == 0 {
        assert(a + b =~= b);
        assert(rewrite_spec(a) =~= Seq::<char>::empty());
        assert(rewrite_spec(a) + rewrite_spec(b) =~= rewrite_spec(b));
    } else {
        assert((a + b)[0] == a[0]);
        assert((a + b).skip(1) =~= a.skip(1) + b);
        lemma_rewrite_per_url(a.skip(1), b);
        assert(rewrite_one(a[0]) + (rewrite_spec(a.skip(1)) + rewrite_spec(b)) =~= (rewrite_one(
            a[0],
        ) + rewrite_spec(a.skip(1))) + rewrite_spec(b));
    }
}

/// Splitting is on whitespace alone: every candidate URL that extraction
/// yields is a non-empty token in which no character is a space, so any
/// non-space character adjacent to a link stays part of its token.
pub proof fn lemma_extract_space_free(m: Seq<char>)
    ensures
        forall|i: int|
            0 <= i < extract_spec(m).len() ==> space_free_token(#[trigger] extract_spec(m)[i]),
{
    lemma_tokens_space_free(m);
    lemma_candidates_space_free(tokens(m));
}

/// Filtering for candidates keeps only tokens, so it preserves their shape.
proof fn lemma_candidates_space_free(toks: Seq<Seq<char>>)
    requires
        forall|i: int| 0 <= i < toks.len() ==> space_free_token(#[trigger] toks[i]),
    ensures
        forall|i: int|
            0 <= i < candidates_of(toks).len() ==> space_free_token(
                #[trigger] candidates_of(toks)[i],
            ),
    decreases toks.len(),
{
    if toks.len() == 0 {
    } else {
        assert forall|i: int| 0 <= i < toks.skip(1).len() implies space_free_token(
            #[trigger] toks.skip(1)[i],
        ) by {
            assert(toks.skip(1)[i] == toks[i + 1]);
        }
        lemma_candidates_space_free(toks.skip(1));
        if is_candidate(toks[0]) {
            let all = seq![toks[0]] + candidates_of(toks.skip(1));
            assert(candidates_of(toks) == all);
            assert forall|i: int| 0 <= i < all.len() implies space_free_token(
                #[trigger] all[i],
            ) by {
                if i == 0 {
                    assert(all[0] == toks[0]);
                } else {
                    assert(all[i] == candidates_of(toks.skip(1))[i - 1]);
                }
            }
        }
    }
}

/// Extraction yields candidates only: every URL it returns holds a
/// recognized domain occurrence of its own.
pub proof fn lemma_extract_all_candidates(m: Seq<char>)
    ensures
        forall|i: int|
            0 <= i < extract_spec(m).len() ==> is_candidate(#[trigger] extract_spec(m)[i]),
{
    lemma_candidates_all_candidates(tokens(m));
}

proof fn lemma_candidates_all_candidates(toks: Seq<Seq<char>>)
    ensures
        forall|i: int|
            0 <= i < candidates_of(toks).len() ==> is_candidate(#[trigger] candidates_of(toks)[i]),
    decreases toks.len(),
{
    if toks.len() == 0 {
    } else {
        lemma_candidates_all_candidates(toks.skip(1));
        if is_candidate(toks[0]) {
            let all = seq![toks[0]] + candidates_of(toks.skip(1));
            assert(candidates_of(toks) == all);
            assert forall|i: int| 0 <= i < all.len() implies is_candidate(#[trigger] all[i]) by {
                if i == 0 {
                    assert(all[0] == toks[0]);
                } else {
                    assert(all[i] == candidates_of(toks.skip(1))[i - 1]);
                }
            }
        }
    }
}

/// When every candidate URL fails its reachability check, the surviving list
/// is empty, the block rewritten from it is empty, and an empty block is
/// never sent.
pub proof fn lemma_all_unreachable_suppresses_send(urls: Seq<Seq<char>>, keep: Seq<bool>)
    requires
        keep.len() == urls.len(),
        forall|i: int| 0 <= i < keep.len() ==> !keep[i],
    ensures
        retain_flagged(urls, keep) == Seq::<Seq<char>>::empty(),
        rewrite_spec(retain_flagged(urls, keep)) == Seq::<char>::empty(),
        !should_send_spec(rewrite_spec(retain_flagged(urls, keep))),
    decreases urls.len(),
{
    if urls.len() == 0 {
        assert(retain_flagged(urls, keep) =~= Seq::<Seq<char>>::empty());
    } else {
        assert(!keep[0]);
        assert forall|i: int| 0 <= i < keep.skip(1).len() implies !keep.skip(1)[i] by {
            assert(keep.skip(1)[i] == keep[i + 1]);
        }
        lemma_all_unreachable_suppresses_send(urls.skip(1), keep.skip(1));
    }
}

} // verus!

//! The decisions of the message-handling pipeline: whether a message is
//! worth processing, which extracted URLs survive a reachability check, and
//! whether the finished block is sent.  The network and chat-platform calls
//! themselves stay with the integration layer, which feeds their outcomes in
//! as plain values.

use vstd::prelude::*;

use crate::links::twitter_pat;
use crate::links::views_of;
use crate::links::x_pat;
use crate::text::contains_seq;
use crate::text::contains_sub;

verus! {

/// The scheme prefix that the cheap pre-filter looks for.
pub open spec fn https_pat() -> Seq<char> {
    "https://"@
}

/// A message is processed only when its author is not an automated account
/// and its text holds `"https://"` and at least one recognized domain.
pub open spec fn should_process_spec(content: Seq<char>, author_is_bot: bool) -> bool {
    &&& !author_is_bot
    &&& contains_seq(content, https_pat())
    &&& (contains_seq(content, twitter_pat()) || contains_seq(content, x_pat()))
}

/// Decides `should_process_spec` for an inbound message.
pub fn should_process(content: &str, author_is_bot: bool) -> (r: bool)
    ensures
        r == should_process_spec(content@, author_is_bot),
{
    if author_is_bot {
        return false;
    }
    contains_sub(content, "https://") && (contains_sub(content, "twitter.com") || contains_sub(
        content,
        "x.com",
    ))
}

/// The URLs whose reachability check succeeded, in order, judging the URL at
/// each position by the flag at the same position.
pub open spec fn retain_flagged(urls: Seq<Seq<char>>, keep: Seq<bool>) -> Seq<Seq<char>>
    decreases urls.len(),
{
    if urls.len() == 0 || keep.len() == 0 {
        Seq::empty()
    } else if keep[0] {
        seq![urls[0]] + retain_flagged(urls.skip(1), keep.skip(1))
    } else {
        retain_flagged(urls.skip(1), keep.skip(1))
    }
}

/// Keeps the URLs whose reachability flag is set, preserving relative order;
/// computes `retain_flagged`.  The flags come from the integration layer,
/// one per URL: whether that URL's network check completed with any response.
pub fn retain_reachable(urls: &Vec<String>, keep: &Vec<bool>) -> (r: Vec<String>)
    requires
        urls@.len() == keep@.len(),
    ensures
        views_of(r@) == retain_flagged(views_of(urls@), keep@),
{
    let mut r: Vec<String> = Vec::new();
    let mut k: usize = 0;
    proof {
        assert(views_of(urls@).skip(0) =~= views_of(urls@));
        assert(keep@.skip(0) =~= keep@);
        assert(views_of(r@) =~= Seq::<Seq<char>>::empty());
        assert(views_of(r@) + retain_flagged(views_of(urls@), keep@) =~= retain_flagged(
            views_of(urls@),
            keep@,
        ));
    }
    while k < urls.len()
        invariant
            urls@.len() == keep@.len(),
            0 <= k <= urls@.len(),
            retain_flagged(views_of(urls@), keep@) == views_of(r@) + retain_flagged(
                views_of(urls@).skip(k as int),
                keep@.skip(k as int),
            ),
        decreases urls@.len() - k,
    {
        proof {
            let v = views_of(urls@);
            assert(v.skip(k as int)[0] == v[k as int]);
            assert(keep@.skip(k as int)[0] == keep@[k as int]);
            assert(v.skip(k as int).skip(1) =~= v.skip(k + 1));
            assert(keep@.skip(k as int).skip(1) =~= keep@.skip(k + 1));
        }
        if keep[k] {
            let ghost old_r = r@;
            r.push(urls[k].clone());
            proof {
                assert(views_of(r@) =~= views_of(old_r) + seq![views_of(urls@)[k as int]]);
            }
        }
        k = k + 1;
    }
    proof {
        assert(retain_flagged(views_of(urls@).skip(k as int), keep@.skip(k as int)).len() == 0);
        assert(views_of(r@) + retain_flagged(
            views_of(urls@).skip(k as int),
            keep@.skip(k as int),
        ) =~= views_of(r@));
    }
    r
}

/// A finished block is sent only when it is non-empty: a message whose every
/// candidate fell away stays unanswered.
pub open spec fn should_send_spec(block: Seq<char>) -> bool {
    block.len() > 0
}

/// Decides `should_send_spec` for a finished block.
pub fn should_send(block: &str) -> (r: bool)
    ensures
        r == should_send_spec(block@),
{
    !block.is_empty()
}

} // verus!

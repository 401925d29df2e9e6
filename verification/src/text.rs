//! Plain-text primitives: substring containment, substring replacement, and
//! whitespace tokenization, each specified over `Seq<char>`.

use vstd::prelude::*;

verus! {

/// A character that delimits tokens: a space, tab, or line break.
pub open spec fn is_space(c: char) -> bool {
    c == ' ' || c == '\t' || c == '\n' || c == '\r'
}

/// `p` occurs in `s` as the contiguous run starting at position `i`.
pub open spec fn match_at(s: Seq<char>, p: Seq<char>, i: int) -> bool {
    &&& 0 <= i
    &&& i + p.len() <= s.len()
    &&& s.subrange(i, i + p.len() as int) == p
}

/// `p` occurs somewhere in `s` as a contiguous substring.
pub open spec fn contains_seq(s: Seq<char>, p: Seq<char>) -> bool {
    exists|i: int| match_at(s, p, i)
}

/// Whether `p` occurs in `s` starting exactly at position `i`.
fn check_match(s: &str, p: &str, i: usize) -> (r: bool)
    requires
        i + p@.len() <= s@.len(),
    ensures
        r == match_at(s@, p@, i as int),
{
    let s_len: usize = s.unicode_len();
    let p_len: usize = p.unicode_len();
    let mut j: usize = 0;
    while j < p_len
        invariant
            i + p_len <= s_len,
            s_len == s@.len(),
            p_len == p@.len(),
            0 <= j <= p_len,
            forall|k: int| 0 <= k <= j - 1 ==> s@[i + k] == p@[k],
        decreases p_len - j,
    {
        let cs = s.get_char(i + j);
        let cp = p.get_char(j);
        if cs != cp {
            proof {
                assert(s@.subrange(i as int, i + p@.len() as int)[j as int] == s@[i + j]);
            }
            return false;
        }
        j = j + 1;
    }
    proof {
        assert(s@.subrange(i as int, i + p@.len() as int) =~= p@);
    }
    true
}

/// Whether `p` occurs anywhere in `s`; decides `contains_seq`.
pub fn contains_sub(s: &str, p: &str) -> (r: bool)
    ensures
        r == contains_seq(s@, p@),
{
    let s_len: usize = s.unicode_len();
    let p_len: usize = p.unicode_len();
    if p_len > s_len {
        proof {
            assert(forall|k: int| !match_at(s@, p@, k));
        }
        return false;
    }
    let bound: usize = s_len - p_len;
    let mut i: usize = 0;
    loop
        invariant
            s_len == s@.len(),
            p_len == p@.len(),
            p_len <= s_len,
            bound == s_len - p_len,
            0 <= i <= bound,
            forall|k: int| 0 <= k < i ==> !match_at(s@, p@, k),
        decreases bound - i,
    {
        if check_match(s, p, i) {
            proof {
                assert(match_at(s@, p@, i as int));
            }
            return true;
        }
        if i == bound {
            proof {
                assert forall|k: int| !match_at(s@, p@, k) by {
                    if 0 <= k <= bound {
                        assert(!match_at(s@, p@, k));
                    }
                }
            }
            return false;
        }
        i = i + 1;
    }
}

/// The left-to-right replacement of every non-overlapping occurrence of
/// `from` in `s` by `to`; `s` itself when `from` is empty.
pub open spec fn replace_seq(s: Seq<char>, from: Seq<char>, to: Seq<char>) -> Seq<char>
    decreases s.len(),
{
    if from.len() == 0 || s.len() < from.len() {
        s
    } else if s.subrange(0, from.len() as int) == from {
        to + replace_seq(s.skip(from.len() as int), from, to)
    } else {
        seq![s[0]] + replace_seq(s.skip(1), from, to)
    }
}

/// The string with every occurrence of `from` replaced by `to`, scanning left
/// to right over non-overlapping occurrences; computes `replace_seq`.
pub fn replace_sub(s: &str, from: &str, to: &str) -> (r: String)
    requires
        from@.len() > 0,
    ensures
        r@ == replace_seq(s@, from@, to@),
{
    let s_len: usize = s.unicode_len();
    let from_len: usize = from.unicode_len();
    let mut res = String::new();
    let mut i: usize = 0;
    proof {
        assert(s@.skip(0) =~= s@);
        assert(res@ + replace_seq(s@, from@, to@) =~= replace_seq(s@, from@, to@));
    }
    while i < s_len
        invariant
            s_len == s@.len(),
            from_len == from@.len(),
            from_len > 0,
            0 <= i <= s_len,
            replace_seq(s@, from@, to@) == res@ + replace_seq(
                s@.skip(i as int),
                from@,
                to@,
            ),
        decreases s_len - i,
    {
        let ghost sub = s@.skip(i as int);
        if from_len <= s_len - i && check_match(s, from, i) {
            proof {
                assert(sub.subrange(0, from@.len() as int) =~= s@.subrange(
                    i as int,
                    i + from@.len() as int,
                ));
                assert(sub.skip(from@.len() as int) =~= s@.skip(i + from@.len()));
                assert(replace_seq(sub, from@, to@) == to@ + replace_seq(
                    s@.skip(i + from@.len()),
                    from@,
                    to@,
                ));
            }
            res.append(to);
            i = i + from_len;
        } else {
            proof {
                assert(sub[0] == s@[i as int]);
                assert(seq![sub[0]] =~= s@.subrange(i as int, i + 1));
                assert(sub.skip(1) =~= s@.skip(i + 1));
                if from_len <= s_len - i {
                    assert(sub.subrange(0, from@.len() as int) =~= s@.subrange(
                        i as int,
                        i + from@.len() as int,
                    ));
                    assert(sub.subrange(0, from@.len() as int) != from@);
                    assert(replace_seq(sub, from@, to@) == seq![sub[0]] + replace_seq(
                        sub.skip(1),
                        from@,
                        to@,
                    ));
                } else {
                    assert(sub.len() < from@.len());
                    assert(replace_seq(sub, from@, to@) == sub);
                    assert(s@.skip(i + 1).len() < from@.len());
                    assert(replace_seq(s@.skip(i + 1), from@, to@) == s@.skip(i + 1));
                    assert(sub =~= seq![sub[0]] + sub.skip(1));
                }
            }
            let c = s.substring_char(i, i + 1);
            res.append(c);
            i = i + 1;
        }
    }
    proof {
        assert(s@.skip(i as int) =~= Seq::<char>::empty());
        assert(replace_seq(s@.skip(i as int), from@, to@) == Seq::<char>::empty());
        assert(res@ + Seq::<char>::empty() =~= res@);
    }
    res
}

/// `p` occurs in `s` at `i`, and that occurrence does not lie inside an
/// occurrence of the longer pattern `w`, within which `p` sits at offset `d`.
pub open spec fn bare_match_at(s: Seq<char>, p: Seq<char>, w: Seq<char>, d: int, i: int) -> bool {
    &&& match_at(s, p, i)
    &&& !match_at(s, w, i - d)
}

/// Some occurrence of `p` in `s` stands on its own, outside any occurrence
/// of `w` holding `p` at offset `d`.
pub open spec fn contains_bare(s: Seq<char>, p: Seq<char>, w: Seq<char>, d: int) -> bool {
    exists|i: int| bare_match_at(s, p, w, d, i)
}

/// A bare occurrence is in particular an occurrence.
pub proof fn lemma_bare_implies_contains(s: Seq<char>, p: Seq<char>, w: Seq<char>, d: int)
    requires
        contains_bare(s, p, w, d),
    ensures
        contains_seq(s, p),
{
    let i = choose|i: int| bare_match_at(s, p, w, d, i);
    assert(match_at(s, p, i));
}

/// Whether some occurrence of `p` in `s` lies outside any occurrence of `w`
/// holding `p` at offset `d`; decides `contains_bare`.
pub fn contains_bare_sub(s: &str, p: &str, w: &str, d: usize) -> (r: bool)
    ensures
        r == contains_bare(s@, p@, w@, d as int),
{
    let s_len: usize = s.unicode_len();
    let p_len: usize = p.unicode_len();
    let w_len: usize = w.unicode_len();
    if p_len > s_len {
        proof {
            assert(forall|k: int| !bare_match_at(s@, p@, w@, d as int, k));
        }
        return false;
    }
    let bound: usize = s_len - p_len;
    let mut i: usize = 0;
    loop
        invariant
            s_len == s@.len(),
            p_len == p@.len(),
            w_len == w@.len(),
            p_len <= s_len,
            bound == s_len - p_len,
            0 <= i <= bound,
            forall|k: int| 0 <= k < i ==> !bare_match_at(s@, p@, w@, d as int, k),
        decreases bound - i,
    {
        if check_match(s, p, i) {
            let covered = i >= d && w_len <= s_len - (i - d) && check_match(s, w, i - d);
            proof {
                assert(covered == match_at(s@, w@, i as int - d as int));
            }
            if !covered {
                proof {
                    assert(bare_match_at(s@, p@, w@, d as int, i as int));
                }
                return true;
            }
        }
        proof {
            assert(!bare_match_at(s@, p@, w@, d as int, i as int));
        }
        if i == bound {
            proof {
                assert forall|k: int| !bare_match_at(s@, p@, w@, d as int, k) by {
                    if 0 <= k <= bound {
                        assert(!bare_match_at(s@, p@, w@, d as int, k));
                    }
                }
            }
            return false;
        }
        i = i + 1;
    }
}

/// A substring of a part of `s` is a substring of `s` itself.
pub proof fn lemma_contains_subrange(s: Seq<char>, p: Seq<char>, a: int, b: int)
    requires
        0 <= a <= b <= s.len(),
        contains_seq(s.subrange(a, b), p),
    ensures
        contains_seq(s, p),
{
    let part = s.subrange(a, b);
    let i = choose|i: int| match_at(part, p, i);
    assert(s.subrange(a + i, a + i + p.len() as int) =~= part.subrange(i, i + p.len() as int));
    assert(match_at(s, p, a + i));
}

/// Length of the leading run of non-space characters of `s`.
pub open spec fn token_len(s: Seq<char>) -> nat
    decreases s.len(),
{
    if s.len() == 0 || is_space(s[0]) {
        0
    } else {
        1 + token_len(s.skip(1))
    }
}

pub proof fn lemma_token_len_le(s: Seq<char>)
    ensures
        token_len(s) <= s.len(),
    decreases s.len(),
{
    if s.len() == 0 || is_space(s[0]) {
    } else {
        lemma_token_len_le(s.skip(1));
    }
}

/// The leading run counted by `token_len` holds no space, and it is maximal:
/// it ends only at a space or at the end of `s`.
pub proof fn lemma_token_len_run(s: Seq<char>)
    ensures
        token_len(s) <= s.len(),
        forall|k: int| 0 <= k < token_len(s) ==> !is_space(s[k]),
        token_len(s) == s.len() || is_space(s[token_len(s) as int]),
    decreases s.len(),
{
    lemma_token_len_le(s);
    if s.len() == 0 || is_space(s[0]) {
    } else {
        lemma_token_len_run(s.skip(1));
        assert forall|k: int| 0 <= k < token_len(s) implies !is_space(s[k]) by {
            if k > 0 {
                assert(s.skip(1)[k - 1] == s[k]);
            }
        }
        if token_len(s) < s.len() {
            assert(s.skip(1)[token_len(s) - 1] == s[token_len(s) as int]);
        }
    }
}

/// A scan that stops at position `m` has found exactly the leading run.
pub proof fn lemma_token_len_is(s: Seq<char>, m: int)
    requires
        0 <= m <= s.len(),
        forall|k: int| 0 <= k < m ==> !is_space(s[k]),
        m == s.len() || is_space(s[m]),
    ensures
        token_len(s) == m,
    decreases s.len(),
{
    if m == 0 {
    } else {
        assert(!is_space(s[0]));
        assert forall|k: int| 0 <= k < m - 1 implies !is_space(s.skip(1)[k]) by {
            assert(s.skip(1)[k] == s[k + 1]);
        }
        if m < s.len() {
            assert(s.skip(1)[m - 1] == s[m]);
        }
        lemma_token_len_is(s.skip(1), m - 1);
    }
}

/// The whitespace-delimited tokens of `s`, in source order: the maximal runs
/// of non-space characters.  Runs of spaces produce no empty tokens.
pub open spec fn tokens(s: Seq<char>) -> Seq<Seq<char>>
    decreases s.len(),
{
    if s.len() == 0 {
        Seq::empty()
    } else if is_space(s[0]) {
        tokens(s.skip(1))
    } else {
        proof {
            lemma_token_len_le(s);
        }
        seq![s.subrange(0, token_len(s) as int)] + tokens(s.skip(token_len(s) as int))
    }
}

/// A non-empty token in which no character is a space.
pub open spec fn space_free_token(t: Seq<char>) -> bool {
    &&& t.len() > 0
    &&& forall|k: int| 0 <= k < t.len() ==> !is_space(t[k])
}

/// Every token is non-empty and holds no space character.
pub proof fn lemma_tokens_space_free(s: Seq<char>)
    ensures
        forall|i: int| 0 <= i < tokens(s).len() ==> space_free_token(#[trigger] tokens(s)[i]),
    decreases s.len(),
{
    if s.len() == 0 {
        assert(tokens(s).len() == 0);
    } else if is_space(s[0]) {
        lemma_tokens_space_free(s.skip(1));
        assert(tokens(s) == tokens(s.skip(1)));
    } else {
        lemma_token_len_run(s);
        lemma_tokens_space_free(s.skip(token_len(s) as int));
        let head = s.subrange(0, token_len(s) as int);
        let rest = tokens(s.skip(token_len(s) as int));
        assert(forall|k: int| 0 <= k < head.len() ==> head[k] == s[k]);
        assert(space_free_token(head));
        assert forall|i: int| 0 <= i < tokens(s).len() implies space_free_token(
            #[trigger] tokens(s)[i],
        ) by {
            if i == 0 {
                assert(tokens(s)[0] == head);
            } else {
                assert(tokens(s)[i] == rest[i - 1]);
            }
        }
    }
}

} // verus!

//! Lexical attribute extraction: Strong's numbers and transliteration-source
//! lemmas pulled out of attribute-encoded strings.

use vstd::prelude::*;

use crate::text::{has_prefix, split_whitespace, split_ws, starts_with_str, str_eq,
    strip_all_prefix, strip_prefix_all};

verus! {

/// The elements of `s` with later repetitions removed: each element keeps
/// its first occurrence's place.
pub open spec fn dedup_keep_first(s: Seq<Seq<char>>) -> Seq<Seq<char>>
    decreases s.len(),
{
    if s.len() == 0 {
        Seq::empty()
    } else {
        let init = dedup_keep_first(s.drop_last());
        if s.drop_last().contains(s.last()) {
            init
        } else {
            init.push(s.last())
        }
    }
}

/// Removing later repetitions keeps exactly the original elements.
pub proof fn lemma_dedup_keeps_elements(s: Seq<Seq<char>>, x: Seq<char>)
    ensures
        dedup_keep_first(s).contains(x) == s.contains(x),
    decreases s.len(),
{
    if s.len() > 0 {
        let t = s.drop_last();
        lemma_dedup_keeps_elements(t, x);
        if s.contains(x) {
            let i = choose|i: int| 0 <= i < s.len() && s[i] == x;
            if i < s.len() - 1 {
                assert(t[i] == x);
                assert(t.contains(x));
            } else {
                if t.contains(x) {
                } else {
                    assert(dedup_keep_first(s).last() == x);
                }
            }
            assert(dedup_keep_first(s).contains(x)) by {
                if t.contains(x) {
                    let j = choose|j: int| 0 <= j < dedup_keep_first(t).len() && dedup_keep_first(
                        t,
                    )[j] == x;
                    assert(dedup_keep_first(s)[j] == x);
                }
            }
        }
        if dedup_keep_first(s).contains(x) {
            let j = choose|j: int|
                0 <= j < dedup_keep_first(s).len() && dedup_keep_first(s)[j] == x;
            if j < dedup_keep_first(t).len() {
                assert(dedup_keep_first(t)[j] == x);
                assert(t.contains(x));
                let i = choose|i: int| 0 <= i < t.len() && t[i] == x;
                assert(s[i] == x);
            } else {
                assert(s[s.len() - 1] == x);
            }
            assert(s.contains(x));
        }
    }
}

/// The Strong's numbers of a `lemma` attribute: its whitespace-delimited
/// tokens prefixed `strong:`, with every leading copy of the prefix
/// stripped, in input order, a repeated number keeping only its first
/// occurrence within the one attribute.
pub open spec fn strongs_of_lemma(lemma: Seq<char>) -> Seq<Seq<char>> {
    dedup_keep_first(
        split_ws(lemma).filter(|t: Seq<char>| has_prefix(t, "strong:"@)).map_values(
            |t: Seq<char>| strip_all_prefix(t, "strong:"@),
        ),
    )
}

/// Tests whether a list of strings holds one equal to `s`.
pub fn vec_contains_string(v: &Vec<String>, s: &str) -> (r: bool)
    ensures
        r == v.deep_view().contains(s@),
{
    let n = v.len();
    let mut i: usize = 0;
    while i < n
        invariant
            n == v.len(),
            i <= n,
            forall|k: int| 0 <= k < i ==> v.deep_view()[k] != s@,
        decreases n - i,
    {
        if str_eq(v[i].as_str(), s) {
            proof {
                assert(v.deep_view()[i as int] == s@);
            }
            return true;
        }
        i = i + 1;
    }
    false
}

/// The first element of `parts` that starts with `p`, if any.
pub open spec fn first_with_prefix(parts: Seq<Seq<char>>, p: Seq<char>) -> Option<Seq<char>>
    decreases parts.len(),
{
    if parts.len() == 0 {
        None
    } else if has_prefix(parts[0], p) {
        Some(parts[0])
    } else {
        first_with_prefix(parts.drop_first(), p)
    }
}

/// The transliteration-source lemma of a `lemma` attribute: the first token
/// prefixed `lemma.TR:`, with every leading copy of the prefix stripped.
pub open spec fn tr_lemma_of(lemma: Seq<char>) -> Option<Seq<char>> {
    match first_with_prefix(split_ws(lemma), "lemma.TR:"@) {
        Some(t) => Some(strip_all_prefix(t, "lemma.TR:"@)),
        None => None,
    }
}

/// Extracts the Strong's numbers from a `lemma` attribute.
pub fn extract_strongs(lemma: &str) -> (r: Vec<String>)
    ensures
        r.deep_view() == strongs_of_lemma(lemma@),
{
    proof {
        reveal_strlit("strong:");
    }
    let pieces = split_whitespace(lemma);
    let ghost all = pieces.deep_view();
    let n = pieces.len();
    let mut out: Vec<String> = Vec::new();
    let mut j: usize = 0;
    proof {
        reveal(Seq::filter);
        assert(all.subrange(0, 0).filter(|t: Seq<char>| has_prefix(t, "strong:"@)).map_values(
            |t: Seq<char>| strip_all_prefix(t, "strong:"@),
        ) =~= out.deep_view());
    }
    while j < n
        invariant
            n == pieces.len(),
            j <= n,
            all == pieces.deep_view(),
            "strong:"@.len() > 0,
            out.deep_view() == dedup_keep_first(
                all.subrange(0, j as int).filter(|t: Seq<char>| has_prefix(t, "strong:"@))
                    .map_values(|t: Seq<char>| strip_all_prefix(t, "strong:"@)),
            ),
        decreases n - j,
    {
        let ghost pre = all.subrange(0, j as int);
        let ghost post = all.subrange(0, j as int + 1);
        let ghost f = |t: Seq<char>| strip_all_prefix(t, "strong:"@);
        let ghost p = |t: Seq<char>| has_prefix(t, "strong:"@);
        let ghost dv0 = out.deep_view();
        proof {
            reveal(Seq::filter);
            assert(post.drop_last() =~= pre);
            assert(post.last() == all[j as int]);
        }
        if starts_with_str(pieces[j].as_str(), "strong:") {
            let stripped = strip_prefix_all(pieces[j].as_str(), "strong:");
            let ghost sv = stripped@;
            proof {
                assert(post.filter(p) =~= pre.filter(p).push(all[j as int]));
                assert(post.filter(p).map_values(f) =~= pre.filter(p).map_values(f).push(sv));
                assert(post.filter(p).map_values(f).drop_last() =~= pre.filter(p).map_values(f));
                lemma_dedup_keeps_elements(pre.filter(p).map_values(f), sv);
            }
            if !vec_contains_string(&out, stripped.as_str()) {
                out.push(stripped);
                proof {
                    assert(out.deep_view() =~= dv0.push(sv));
                }
            }
        } else {
            proof {
                assert(post.filter(p) =~= pre.filter(p));
            }
        }
        j = j + 1;
    }
    proof {
        assert(all.subrange(0, n as int) =~= all);
    }
    out
}

/// Extracts the transliteration-source lemma from a `lemma` attribute.
pub fn extract_tr_lemma(lemma: &str) -> (r: Option<String>)
    ensures
        r.deep_view() == tr_lemma_of(lemma@),
{
    proof {
        reveal_strlit("lemma.TR:");
    }
    let pieces = split_whitespace(lemma);
    let ghost all = pieces.deep_view();
    let n = pieces.len();
    let mut j: usize = 0;
    proof {
        assert(all.subrange(0, n as int) =~= all);
    }
    while j < n
        invariant
            n == pieces.len(),
            j <= n,
            all == pieces.deep_view(),
            all == split_ws(lemma@),
            "lemma.TR:"@.len() > 0,
            first_with_prefix(all, "lemma.TR:"@) == first_with_prefix(
                all.subrange(j as int, n as int),
                "lemma.TR:"@,
            ),
        decreases n - j,
    {
        let ghost pre = all.subrange(j as int, n as int);
        proof {
            assert(pre[0] == all[j as int]);
            assert(pre.drop_first() =~= all.subrange(j as int + 1, n as int));
        }
        if starts_with_str(pieces[j].as_str(), "lemma.TR:") {
            let stripped = strip_prefix_all(pieces[j].as_str(), "lemma.TR:");
            return Some(stripped);
        }
        j = j + 1;
    }
    proof {
        assert(all.subrange(n as int, n as int).len() == 0);
    }
    None
}

} // verus!

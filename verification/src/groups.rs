//! Group boundary marking: a single forward pass that flags the first and
//! last token of each contiguous styled span.

use vstd::prelude::*;

use crate::model::{SegmentStyle, Word, WordV};

verus! {

/// The word at position `i` with its group flags settled. Added-style
/// grouping is checked first; only a word that is not Added is considered
/// for red-letter grouping. A word at the list's edge has no qualifying
/// neighbor on the missing side. Flags are only ever set, never cleared.
pub open spec fn grouped_word(ws: Seq<WordV>, i: int) -> WordV {
    let w = ws[i];
    if w.style == SegmentStyle::Added {
        let prev_added = i > 0 && ws[i - 1].style == SegmentStyle::Added;
        let next_added = i < ws.len() - 1 && ws[i + 1].style == SegmentStyle::Added;
        WordV {
            text: w.text,
            style: w.style,
            is_red: w.is_red,
            is_italic: w.is_italic,
            is_bold_text: w.is_bold_text,
            lex: w.lex,
            note: w.note,
            is_first_in_group: w.is_first_in_group || !prev_added,
            is_last_in_group: w.is_last_in_group || !next_added,
            is_punctuation: w.is_punctuation,
        }
    } else if w.is_red {
        let prev_red = i > 0 && ws[i - 1].is_red;
        let next_red = i < ws.len() - 1 && ws[i + 1].is_red;
        WordV {
            text: w.text,
            style: w.style,
            is_red: w.is_red,
            is_italic: w.is_italic,
            is_bold_text: w.is_bold_text,
            lex: w.lex,
            note: w.note,
            is_first_in_group: w.is_first_in_group || !prev_red,
            is_last_in_group: w.is_last_in_group || !next_red,
            is_punctuation: w.is_punctuation,
        }
    } else {
        w
    }
}

/// The whole list with group flags settled; each position is judged against
/// its neighbors as they stood before the pass.
pub open spec fn apply_groups_spec(ws: Seq<WordV>) -> Seq<WordV> {
    Seq::new(ws.len(), |i: int| grouped_word(ws, i))
}

/// Marks the first and last word of each contiguous Added span, and of each
/// contiguous red-letter span among words that are not Added.
pub fn apply_group_metadata(words: &mut Vec<Word>)
    ensures
        final(words).deep_view() == apply_groups_spec(old(words).deep_view()),
{
    let ghost w0 = words.deep_view();
    let len = words.len();
    if len == 0 {
        proof {
            assert(words.deep_view() =~= apply_groups_spec(w0));
        }
        return;
    }
    let mut i: usize = 0;
    while i < len
        invariant
            len == words.len(),
            w0.len() == len,
            i <= len,
            forall|k: int| 0 <= k < i ==> #[trigger] words.deep_view()[k] == grouped_word(w0, k),
            forall|k: int| i <= k < len ==> #[trigger] words.deep_view()[k] == w0[k],
        decreases len - i,
    {
        let ghost wv = words.deep_view();
        let is_added = words[i].style == SegmentStyle::Added;
        let is_red = words[i].is_red;
        proof {
            assert(wv[i as int] == w0[i as int]);
            if i > 0 {
                assert(words.deep_view()[i - 1] == grouped_word(w0, i - 1));
                assert(grouped_word(w0, i - 1).style == w0[i - 1].style);
                assert(grouped_word(w0, i - 1).is_red == w0[i - 1].is_red);
            }
            if i + 1 < len {
                assert(words.deep_view()[i + 1] == w0[i + 1]);
            }
        }
        if is_added {
            let prev_added = if i > 0 {
                words[i - 1].style == SegmentStyle::Added
            } else {
                false
            };
            let next_added = if i + 1 < len {
                words[i + 1].style == SegmentStyle::Added
            } else {
                false
            };
            let mut w = words.remove(i);
            if !prev_added {
                w.is_first_in_group = true;
            }
            if !next_added {
                w.is_last_in_group = true;
            }
            proof {
                assert(w@ == grouped_word(w0, i as int));
            }
            words.insert(i, w);
            proof {
                assert(words.deep_view() =~= wv.update(i as int, grouped_word(w0, i as int)));
            }
        } else if is_red {
            let prev_red = if i > 0 {
                words[i - 1].is_red
            } else {
                false
            };
            let next_red = if i + 1 < len {
                words[i + 1].is_red
            } else {
                false
            };
            let mut w = words.remove(i);
            if !prev_red {
                w.is_first_in_group = true;
            }
            if !next_red {
                w.is_last_in_group = true;
            }
            proof {
                assert(w@ == grouped_word(w0, i as int));
            }
            words.insert(i, w);
            proof {
                assert(words.deep_view() =~= wv.update(i as int, grouped_word(w0, i as int)));
            }
        } else {
            proof {
                assert(grouped_word(w0, i as int) == w0[i as int]);
            }
        }
        i = i + 1;
    }
    proof {
        assert(words.deep_view() =~= apply_groups_spec(w0));
    }
}

/// A word first in its group at a position after the start differs from its
/// left neighbor in the grouping-relevant dimension: an Added word follows a
/// word that is not Added; a red-letter word that is not Added follows one
/// that is not red-letter. This holds when no word was flagged beforehand,
/// as the walker emits them.
pub proof fn lemma_group_boundaries(ws: Seq<WordV>)
    requires
        forall|k: int| 0 <= k < ws.len() ==> !(#[trigger] ws[k]).is_first_in_group,
    ensures
        forall|i: int|
            0 < i < ws.len() && (#[trigger] apply_groups_spec(ws)[i]).is_first_in_group ==> {
                let out = apply_groups_spec(ws);
                (out[i].style == SegmentStyle::Added ==> out[i - 1].style != SegmentStyle::Added)
                    && (out[i].style != SegmentStyle::Added ==> out[i].is_red && !out[i
                    - 1].is_red)
            },
{
    assert forall|i: int|
        0 < i < ws.len() && (#[trigger] apply_groups_spec(ws)[i]).is_first_in_group implies {
        let out = apply_groups_spec(ws);
        (out[i].style == SegmentStyle::Added ==> out[i - 1].style != SegmentStyle::Added) && (
        out[i].style != SegmentStyle::Added ==> out[i].is_red && !out[i - 1].is_red)
    } by {
        let out = apply_groups_spec(ws);
        assert(out[i] == grouped_word(ws, i));
        assert(out[i - 1] == grouped_word(ws, i - 1));
        assert(grouped_word(ws, i - 1).style == ws[i - 1].style);
        assert(grouped_word(ws, i - 1).is_red == ws[i - 1].is_red);
    }
}

} // verus!

//! Morphology decoding: positional grammatical-code table lookup.

use vstd::prelude::*;

use crate::text::{join_spec, join_with, last_colon_segment, take_after_last_colon};

verus! {

/// The part-of-speech name a code's first character denotes, if any.
pub open spec fn pos_name(c: char) -> Option<Seq<char>> {
    if c == 'N' {
        Some("Noun"@)
    } else if c == 'V' {
        Some("Verb"@)
    } else if c == 'A' {
        Some("Adjective"@)
    } else if c == 'R' {
        Some("Pronoun"@)
    } else if c == 'D' {
        Some("Adverb"@)
    } else if c == 'P' {
        Some("Preposition"@)
    } else if c == 'C' {
        Some("Conjunction"@)
    } else if c == 'I' {
        Some("Interjection"@)
    } else {
        None
    }
}

/// One positional marker appended to the decoded parts. `noun` says whether
/// "Noun" is already present in the parts — which happens exactly when the
/// code's first character decoded to Noun, the only way that name enters the
/// list. An `N` then decodes as Neuter rather than Nominative; this
/// positional ambiguity is inherent to the code scheme and is preserved
/// exactly. Unrecognized characters add nothing.
pub open spec fn morph_step(acc: Seq<Seq<char>>, c: char, noun: bool) -> Seq<Seq<char>> {
    if c == 'N' {
        if noun {
            acc.push("Neuter"@)
        } else {
            acc.push("Nominative"@)
        }
    } else if c == 'G' {
        acc.push("Genitive"@)
    } else if c == 'D' {
        acc.push("Dative"@)
    } else if c == 'A' {
        acc.push("Accusative"@)
    } else if c == 'S' {
        acc.push("Singular"@)
    } else if c == 'P' {
        acc.push("Plural"@)
    } else if c == 'M' {
        acc.push("Masculine"@)
    } else if c == 'F' {
        acc.push("Feminine"@)
    } else {
        acc
    }
}

/// The decoded parts after folding the rest of the code over `acc`.
pub open spec fn morph_rest(rest: Seq<char>, acc: Seq<Seq<char>>, noun: bool) -> Seq<Seq<char>>
    decreases rest.len(),
{
    if rest.len() == 0 {
        acc
    } else {
        morph_rest(rest.drop_first(), morph_step(acc, rest[0], noun), noun)
    }
}

/// The decoded parts of a nonempty bare code: the part of speech from the
/// first character, then one marker per recognized later character.
pub open spec fn morph_parts(code: Seq<char>) -> Seq<Seq<char>> {
    let init = match pos_name(code[0]) {
        Some(p) => seq![p],
        None => Seq::empty(),
    };
    morph_rest(code.skip(1), init, code[0] == 'N')
}

/// The decoded display string of a morphology attribute: the part after the
/// final `:` is decoded positionally and the parts joined with ", "; an
/// empty code is returned unchanged.
pub open spec fn decode_morph_spec(morph: Seq<char>) -> Seq<char> {
    let code = last_colon_segment(morph);
    if code.len() == 0 {
        code
    } else {
        join_spec(morph_parts(code), ", "@)
    }
}

/// Decodes a morphology code for display: `"N-DSM"` becomes
/// `"Noun, Dative, Singular, Masculine"`.
pub fn decode_morph(morph: &str) -> (r: String)
    ensures
        r@ == decode_morph_spec(morph@),
{
    let code: String = take_after_last_colon(morph);
    let cs = code.as_str();
    let n = cs.unicode_len();
    if n == 0 {
        return code;
    }
    let ghost cv = code@;
    let c0 = cs.get_char(0);
    let has_noun = c0 == 'N';
    let mut parts: Vec<String> = Vec::new();
    if c0 == 'N' {
        parts.push("Noun".to_owned());
    } else if c0 == 'V' {
        parts.push("Verb".to_owned());
    } else if c0 == 'A' {
        parts.push("Adjective".to_owned());
    } else if c0 == 'R' {
        parts.push("Pronoun".to_owned());
    } else if c0 == 'D' {
        parts.push("Adverb".to_owned());
    } else if c0 == 'P' {
        parts.push("Preposition".to_owned());
    } else if c0 == 'C' {
        parts.push("Conjunction".to_owned());
    } else if c0 == 'I' {
        parts.push("Interjection".to_owned());
    }
    proof {
        let init = match pos_name(cv[0]) {
            Some(p) => seq![p],
            None => Seq::<Seq<char>>::empty(),
        };
        assert(parts.deep_view() =~= init);
    }
    let mut i: usize = 1;
    while i < n
        invariant
            n == cv.len(),
            cv == code@,
            cs@ == cv,
            1 <= i <= n,
            has_noun == (cv[0] == 'N'),
            morph_rest(cv.skip(i as int), parts.deep_view(), has_noun) == morph_parts(cv),
        decreases n - i,
    {
        let ghost rest = cv.skip(i as int);
        let ghost acc = parts.deep_view();
        proof {
            assert(rest[0] == cv[i as int]);
            assert(rest.drop_first() =~= cv.skip(i as int + 1));
        }
        let c = cs.get_char(i);
        if c == 'N' {
            if has_noun {
                parts.push("Neuter".to_owned());
            } else {
                parts.push("Nominative".to_owned());
            }
        } else if c == 'G' {
            parts.push("Genitive".to_owned());
        } else if c == 'D' {
            parts.push("Dative".to_owned());
        } else if c == 'A' {
            parts.push("Accusative".to_owned());
        } else if c == 'S' {
            parts.push("Singular".to_owned());
        } else if c == 'P' {
            parts.push("Plural".to_owned());
        } else if c == 'M' {
            parts.push("Masculine".to_owned());
        } else if c == 'F' {
            parts.push("Feminine".to_owned());
        }
        proof {
            assert(parts.deep_view() =~= morph_step(acc, cv[i as int], has_noun));
        }
        i = i + 1;
    }
    proof {
        assert(cv.skip(n as int).len() == 0);
    }
    join_with(&parts, ", ")
}

} // verus!

//! Character classes and string primitives used throughout the engine.
//!
//! All executable functions here are specified against `Seq<char>` views.

use vstd::prelude::*;

verus! {

/// The Unicode `White_Space` characters, the set `char::is_whitespace` accepts.
pub open spec fn is_space(c: char) -> bool {
    (0x9 <= c as u32 && c as u32 <= 0xd) || c as u32 == 0x20 || c as u32 == 0x85
        || c as u32 == 0xa0 || c as u32 == 0x1680
        || (0x2000 <= c as u32 && c as u32 <= 0x200a)
        || c as u32 == 0x2028 || c as u32 == 0x2029 || c as u32 == 0x202f
        || c as u32 == 0x205f || c as u32 == 0x3000
}

/// The ASCII punctuation characters, the set `char::is_ascii_punctuation` accepts.
pub open spec fn is_ascii_punct(c: char) -> bool {
    (0x21 <= c as u32 && c as u32 <= 0x2f) || (0x3a <= c as u32 && c as u32 <= 0x40)
        || (0x5b <= c as u32 && c as u32 <= 0x60) || (0x7b <= c as u32 && c as u32 <= 0x7e)
}

/// Whitespace test for one character.
pub fn char_is_space(c: char) -> (r: bool)
    ensures
        r == is_space(c),
{
    let u = c as u32;
    (0x9 <= u && u <= 0xd) || u == 0x20 || u == 0x85 || u == 0xa0 || u == 0x1680
        || (0x2000 <= u && u <= 0x200a) || u == 0x2028 || u == 0x2029 || u == 0x202f
        || u == 0x205f || u == 0x3000
}

/// ASCII-punctuation test for one character.
pub fn char_is_ascii_punct(c: char) -> (r: bool)
    ensures
        r == is_ascii_punct(c),
{
    let u = c as u32;
    (0x21 <= u && u <= 0x2f) || (0x3a <= u && u <= 0x40) || (0x5b <= u && u <= 0x60)
        || (0x7b <= u && u <= 0x7e)
}

/// Character-for-character string equality.
pub fn str_eq(a: &str, b: &str) -> (r: bool)
    ensures
        r == (a@ == b@),
{
    let n = a.unicode_len();
    if n != b.unicode_len() {
        return false;
    }
    let mut i: usize = 0;
    while i < n
        invariant
            n == a@.len(),
            n == b@.len(),
            i <= n,
            forall|k: int| 0 <= k < i ==> a@[k] == b@[k],
        decreases n - i,
    {
        if a.get_char(i) != b.get_char(i) {
            return false;
        }
        i = i + 1;
    }
    proof {
        assert(a@ =~= b@);
    }
    true
}

/// `p` is a prefix of `s`.
pub open spec fn has_prefix(s: Seq<char>, p: Seq<char>) -> bool {
    p.len() <= s.len() && s.subrange(0, p.len() as int) == p
}

/// `p` is a suffix of `s`.
pub open spec fn has_suffix(s: Seq<char>, p: Seq<char>) -> bool {
    p.len() <= s.len() && s.subrange(s.len() - p.len(), s.len() as int) == p
}

/// Prefix test, as `str::starts_with` answers it.
pub fn starts_with_str(s: &str, p: &str) -> (r: bool)
    ensures
        r == has_prefix(s@, p@),
{
    let n = s.unicode_len();
    let m = p.unicode_len();
    if m > n {
        return false;
    }
    let mut i: usize = 0;
    while i < m
        invariant
            n == s@.len(),
            m == p@.len(),
            m <= n,
            i <= m,
            forall|k: int| 0 <= k < i ==> s@[k] == p@[k],
        decreases m - i,
    {
        if s.get_char(i) != p.get_char(i) {
            proof {
                assert(s@.subrange(0, m as int)[i as int] != p@[i as int]);
            }
            return false;
        }
        i = i + 1;
    }
    proof {
        assert(s@.subrange(0, m as int) =~= p@);
    }
    true
}

/// Suffix test, as `str::ends_with` answers it.
pub fn ends_with_str(s: &str, p: &str) -> (r: bool)
    ensures
        r == has_suffix(s@, p@),
{
    let n = s.unicode_len();
    let m = p.unicode_len();
    if m > n {
        return false;
    }
    let off: usize = n - m;
    let mut i: usize = 0;
    while i < m
        invariant
            n == s@.len(),
            m == p@.len(),
            m <= n,
            off == n - m,
            i <= m,
            forall|k: int| 0 <= k < i ==> s@[off + k] == p@[k],
        decreases m - i,
    {
        if s.get_char(off + i) != p.get_char(i) {
            proof {
                assert(s@.subrange(n - m, n as int)[i as int] != p@[i as int]);
            }
            return false;
        }
        i = i + 1;
    }
    proof {
        assert(s@.subrange(n - m, n as int) =~= p@);
    }
    true
}

/// `u` occurs in `s` as a contiguous run.
pub open spec fn contains_seq(s: Seq<char>, u: Seq<char>) -> bool {
    exists|k: int| 0 <= k && k + u.len() <= s.len() && #[trigger] s.subrange(k, k + u.len()) == u
}

/// `u` matches `s` at offset `k`.
fn matches_at(s: &str, u: &str, k: usize) -> (r: bool)
    requires
        k + u@.len() <= s@.len(),
        s@.len() <= usize::MAX,
    ensures
        r == (s@.subrange(k as int, k + u@.len()) == u@),
{
    let m = u.unicode_len();
    let mut i: usize = 0;
    while i < m
        invariant
            m == u@.len(),
            k + m <= s@.len(),
            s@.len() <= usize::MAX,
            i <= m,
            forall|j: int| 0 <= j < i ==> s@[k + j] == u@[j],
        decreases m - i,
    {
        if s.get_char(k + i) != u.get_char(i) {
            proof {
                assert(s@.subrange(k as int, k + u@.len())[i as int] != u@[i as int]);
            }
            return false;
        }
        i = i + 1;
    }
    proof {
        assert(s@.subrange(k as int, k + u@.len()) =~= u@);
    }
    true
}

/// Substring test, as `str::contains` answers it.
pub fn contains_str(s: &str, u: &str) -> (r: bool)
    ensures
        r == contains_seq(s@, u@),
{
    let n = s.unicode_len();
    let m = u.unicode_len();
    if m > n {
        return false;
    }
    if m == 0 {
        proof {
            assert(s@.subrange(0, 0 + u@.len() as int) =~= u@);
        }
        return true;
    }
    let mut k: usize = 0;
    while k <= n - m
        invariant
            n == s@.len(),
            m == u@.len(),
            0 < m <= n,
            k <= n - m + 1,
            forall|j: int| 0 <= j < k ==> #[trigger] s@.subrange(j, j + u@.len()) != u@,
        decreases n - m + 1 - k,
    {
        if matches_at(s, u, k) {
            return true;
        }
        k = k + 1;
    }
    false
}


/// ASCII lowercasing of one code point.
pub open spec fn lower32(u: u32) -> u32 {
    if 65 <= u && u <= 90 {
        (u + 32) as u32
    } else {
        u
    }
}

/// Case-insensitive (ASCII) character equality.
pub open spec fn char_eq_ci(a: char, b: char) -> bool {
    lower32(a as u32) == lower32(b as u32)
}

/// Case-insensitive (ASCII) string equality.
pub open spec fn seq_eq_ci(a: Seq<char>, b: Seq<char>) -> bool {
    a.len() == b.len() && forall|i: int| 0 <= i < a.len() ==> #[trigger] char_eq_ci(a[i], b[i])
}

/// Case-insensitive (ASCII) string equality test; markup element and
/// attribute names are compared with it because an HTML-dialect source
/// folds their case.
pub fn str_eq_ci(a: &str, b: &str) -> (r: bool)
    ensures
        r == seq_eq_ci(a@, b@),
{
    let n = a.unicode_len();
    if n != b.unicode_len() {
        return false;
    }
    let mut i: usize = 0;
    while i < n
        invariant
            n == a@.len(),
            n == b@.len(),
            i <= n,
            forall|k: int| 0 <= k < i ==> #[trigger] char_eq_ci(a@[k], b@[k]),
        decreases n - i,
    {
        let ca = a.get_char(i) as u32;
        let cb = b.get_char(i) as u32;
        let la = if 65 <= ca && ca <= 90 { ca + 32 } else { ca };
        let lb = if 65 <= cb && cb <= 90 { cb + 32 } else { cb };
        if la != lb {
            proof {
                assert(!char_eq_ci(a@[i as int], b@[i as int]));
            }
            return false;
        }
        i = i + 1;
    }
    true
}

/// Index of the first character satisfying `p`, or `s.len()` if none does.
pub open spec fn first_idx_where(s: Seq<char>, p: spec_fn(char) -> bool) -> int
    decreases s.len(),
{
    if s.len() == 0 {
        0
    } else if p(s[0]) {
        0
    } else {
        1 + first_idx_where(s.drop_first(), p)
    }
}

/// Index of the last character satisfying `p`, or `-1` if none does.
pub open spec fn last_idx_where(s: Seq<char>, p: spec_fn(char) -> bool) -> int
    decreases s.len(),
{
    if s.len() == 0 {
        -1
    } else if p(s.last()) {
        s.len() - 1
    } else {
        last_idx_where(s.drop_last(), p)
    }
}

proof fn lemma_first_idx_where_at(s: Seq<char>, p: spec_fn(char) -> bool, i: int)
    requires
        0 <= i <= s.len(),
        forall|k: int| 0 <= k < i ==> !p(s[k]),
        i < s.len() ==> p(s[i]),
    ensures
        first_idx_where(s, p) == i,
    decreases i,
{
    if s.len() == 0 {
    } else if i == 0 {
    } else {
        assert(!p(s[0]));
        let t = s.drop_first();
        assert(forall|k: int| 0 <= k < i - 1 ==> s[k + 1] == #[trigger] t[k]);
        lemma_first_idx_where_at(t, p, i - 1);
    }
}

proof fn lemma_last_idx_where_at(s: Seq<char>, p: spec_fn(char) -> bool, i: int)
    requires
        -1 <= i < s.len(),
        forall|k: int| i < k < s.len() ==> !p(s[k]),
        0 <= i ==> p(s[i]),
    ensures
        last_idx_where(s, p) == i,
    decreases s.len(),
{
    if s.len() == 0 {
    } else if i == s.len() - 1 {
    } else {
        assert(!p(s.last()));
        let t = s.drop_last();
        assert(forall|k: int| 0 <= k < t.len() ==> #[trigger] t[k] == s[k]);
        lemma_last_idx_where_at(t, p, i);
    }
}

/// A reference-key separator: the boundary between chapter and verse parts.
pub open spec fn is_key_sep(c: char) -> bool {
    c == ':' || c == '.'
}

/// The key substring before the first `:` or `.`, or the whole key.
pub open spec fn boundary_prefix(s: Seq<char>) -> Seq<char> {
    s.take(first_idx_where(s, |c: char| is_key_sep(c)))
}

/// The key substring after the last `:` or `.`, or the whole key.
pub open spec fn last_key_segment(s: Seq<char>) -> Seq<char> {
    s.skip(1 + last_idx_where(s, |c: char| is_key_sep(c)))
}

/// The substring after the last `.`, or the whole string.
pub open spec fn last_dot_segment(s: Seq<char>) -> Seq<char> {
    s.skip(1 + last_idx_where(s, |c: char| c == '.'))
}

/// The substring before the first `:`, or the whole string.
pub open spec fn first_colon_prefix(s: Seq<char>) -> Seq<char> {
    s.take(first_idx_where(s, |c: char| c == ':'))
}

/// The substring after the last `:`, or the whole string.
pub open spec fn last_colon_segment(s: Seq<char>) -> Seq<char> {
    s.skip(1 + last_idx_where(s, |c: char| c == ':'))
}

/// Takes the part of a reference key before the first `:` or `.`.
pub fn take_before_first_key_sep(s: &str) -> (r: String)
    ensures
        r@ == boundary_prefix(s@),
{
    let n = s.unicode_len();
    let mut i: usize = 0;
    while i < n
        invariant
            n == s@.len(),
            i <= n,
            forall|k: int| 0 <= k < i ==> !is_key_sep(s@[k]),
        decreases n - i,
    {
        let c = s.get_char(i);
        if c == ':' || c == '.' {
            proof {
                lemma_first_idx_where_at(s@, |c: char| is_key_sep(c), i as int);
            }
            return s.substring_char(0, i).to_owned();
        }
        i = i + 1;
    }
    proof {
        lemma_first_idx_where_at(s@, |c: char| is_key_sep(c), n as int);
        assert(s@.take(n as int) =~= s@);
    }
    s.to_owned()
}

/// Takes the part of a reference key after the last `:` or `.`.
pub fn take_after_last_key_sep(s: &str) -> (r: String)
    ensures
        r@ == last_key_segment(s@),
{
    let n = s.unicode_len();
    let mut i: usize = n;
    while i > 0
        invariant
            n == s@.len(),
            i <= n,
            forall|k: int| i <= k < n ==> !is_key_sep(s@[k]),
        decreases i,
    {
        let c = s.get_char(i - 1);
        if c == ':' || c == '.' {
            proof {
                lemma_last_idx_where_at(s@, |c: char| is_key_sep(c), i - 1);
            }
            return s.substring_char(i, n).to_owned();
        }
        i = i - 1;
    }
    proof {
        lemma_last_idx_where_at(s@, |c: char| is_key_sep(c), -1);
        assert(s@.skip(0) =~= s@);
    }
    s.to_owned()
}

/// Takes the part of a string before the first `:`.
pub fn take_before_first_colon(s: &str) -> (r: String)
    ensures
        r@ == first_colon_prefix(s@),
{
    let n = s.unicode_len();
    let mut i: usize = 0;
    while i < n
        invariant
            n == s@.len(),
            i <= n,
            forall|k: int| 0 <= k < i ==> s@[k] != ':',
        decreases n - i,
    {
        let c = s.get_char(i);
        if c == ':' {
            proof {
                lemma_first_idx_where_at(s@, |c: char| c == ':', i as int);
            }
            return s.substring_char(0, i).to_owned();
        }
        i = i + 1;
    }
    proof {
        lemma_first_idx_where_at(s@, |c: char| c == ':', n as int);
        assert(s@.take(n as int) =~= s@);
    }
    s.to_owned()
}

/// Takes the part of a string after the last `:`.
pub fn take_after_last_colon(s: &str) -> (r: String)
    ensures
        r@ == last_colon_segment(s@),
{
    let n = s.unicode_len();
    let mut i: usize = n;
    while i > 0
        invariant
            n == s@.len(),
            i <= n,
            forall|k: int| i <= k < n ==> s@[k] != ':',
        decreases i,
    {
        let c = s.get_char(i - 1);
        if c == ':' {
            proof {
                lemma_last_idx_where_at(s@, |c: char| c == ':', i - 1);
            }
            return s.substring_char(i, n).to_owned();
        }
        i = i - 1;
    }
    proof {
        lemma_last_idx_where_at(s@, |c: char| c == ':', -1);
        assert(s@.skip(0) =~= s@);
    }
    s.to_owned()
}

/// Takes the part of a string after the last `.`.
pub fn take_after_last_dot(s: &str) -> (r: String)
    ensures
        r@ == last_dot_segment(s@),
{
    let n = s.unicode_len();
    let mut i: usize = n;
    while i > 0
        invariant
            n == s@.len(),
            i <= n,
            forall|k: int| i <= k < n ==> s@[k] != '.',
        decreases i,
    {
        let c = s.get_char(i - 1);
        if c == '.' {
            proof {
                lemma_last_idx_where_at(s@, |c: char| c == '.', i - 1);
            }
            return s.substring_char(i, n).to_owned();
        }
        i = i - 1;
    }
    proof {
        lemma_last_idx_where_at(s@, |c: char| c == '.', -1);
        assert(s@.skip(0) =~= s@);
    }
    s.to_owned()
}


/// Splitting on whitespace, accumulating the word under construction.
pub open spec fn split_ws_acc(s: Seq<char>, cur: Seq<char>) -> Seq<Seq<char>>
    decreases s.len(),
{
    if s.len() == 0 {
        if cur.len() > 0 {
            seq![cur]
        } else {
            Seq::empty()
        }
    } else if is_space(s[0]) {
        if cur.len() > 0 {
            seq![cur] + split_ws_acc(s.drop_first(), Seq::empty())
        } else {
            split_ws_acc(s.drop_first(), Seq::empty())
        }
    } else {
        split_ws_acc(s.drop_first(), cur.push(s[0]))
    }
}

/// The whitespace-delimited pieces of `s`, all nonempty, in order.
pub open spec fn split_ws(s: Seq<char>) -> Seq<Seq<char>> {
    split_ws_acc(s, Seq::empty())
}

/// Splits a string on whitespace, as `str::split_whitespace` does.
pub fn split_whitespace(s: &str) -> (r: Vec<String>)
    ensures
        r.deep_view() == split_ws(s@),
{
    let n = s.unicode_len();
    let mut out: Vec<String> = Vec::new();
    let mut i: usize = 0;
    let mut start: usize = 0;
    let mut in_word = false;
    proof {
        assert(s@.subrange(0, n as int) =~= s@);
        assert(Seq::<Seq<char>>::empty() + split_ws_acc(s@, Seq::empty()) =~= split_ws_acc(
            s@,
            Seq::empty(),
        ));
    }
    while i < n
        invariant
            n == s@.len(),
            i <= n,
            in_word ==> start < i,
            out.deep_view() + split_ws_acc(
                s@.subrange(i as int, n as int),
                if in_word {
                    s@.subrange(start as int, i as int)
                } else {
                    Seq::empty()
                },
            ) == split_ws(s@),
        decreases n - i,
    {
        let ghost pre = s@.subrange(i as int, n as int);
        let ghost cur: Seq<char> = if in_word {
            s@.subrange(start as int, i as int)
        } else {
            Seq::empty()
        };
        proof {
            assert(pre[0] == s@[i as int]);
            assert(pre.drop_first() =~= s@.subrange(i as int + 1, n as int));
        }
        let c = s.get_char(i);
        if char_is_space(c) {
            if in_word {
                let ghost dv0 = out.deep_view();
                let piece = s.substring_char(start, i).to_owned();
                out.push(piece);
                in_word = false;
                proof {
                    assert(out.deep_view() =~= dv0.push(cur));
                    assert(dv0.push(cur) + split_ws_acc(pre.drop_first(), Seq::empty()) =~= dv0
                        + split_ws_acc(pre, cur));
                }
            }
        } else {
            if !in_word {
                start = i;
                in_word = true;
            }
            proof {
                assert(cur.push(s@[i as int]) =~= s@.subrange(start as int, i as int + 1));
            }
        }
        i = i + 1;
    }
    if in_word {
        let ghost dv0 = out.deep_view();
        let ghost cur = s@.subrange(start as int, n as int);
        let piece = s.substring_char(start, n).to_owned();
        out.push(piece);
        proof {
            assert(s@.subrange(n as int, n as int).len() == 0);
            assert(out.deep_view() =~= dv0.push(cur));
            assert(dv0.push(cur) =~= dv0 + seq![cur]);
        }
    } else {
        proof {
            assert(s@.subrange(n as int, n as int).len() == 0);
            assert(out.deep_view() + Seq::<Seq<char>>::empty() =~= out.deep_view());
        }
    }
    out
}

/// `s` with leading and trailing whitespace removed.
pub open spec fn trim_spec(s: Seq<char>) -> Seq<char> {
    let a = first_idx_where(s, |c: char| !is_space(c));
    let b = last_idx_where(s, |c: char| !is_space(c));
    if a == s.len() {
        Seq::empty()
    } else {
        s.subrange(a, b + 1)
    }
}

/// Trims whitespace from both ends, as `str::trim` does.
pub fn trim_str(s: &str) -> (r: String)
    ensures
        r@ == trim_spec(s@),
{
    let n = s.unicode_len();
    let mut a: usize = 0;
    let mut scanning = true;
    while scanning && a < n
        invariant
            n == s@.len(),
            a <= n,
            forall|k: int| 0 <= k < a ==> is_space(s@[k]),
            !scanning ==> a < n && !is_space(s@[a as int]),
        decreases n - a + (if scanning { 1int } else { 0int }),
    {
        if char_is_space(s.get_char(a)) {
            a = a + 1;
        } else {
            scanning = false;
        }
    }
    proof {
        lemma_first_idx_where_at(s@, |c: char| !is_space(c), a as int);
    }
    if a == n {
        let r = String::new();
        proof {
            assert(r@ =~= trim_spec(s@));
        }
        return r;
    }
    let mut b: usize = n;
    let mut back_scanning = true;
    while back_scanning && b > a
        invariant
            n == s@.len(),
            a <= b <= n,
            forall|k: int| b <= k < n ==> is_space(s@[k]),
            !back_scanning ==> b > a && !is_space(s@[b - 1]),
            a < n && !is_space(s@[a as int]),
        decreases b + (if back_scanning { 1int } else { 0int }),
    {
        if char_is_space(s.get_char(b - 1)) {
            b = b - 1;
        } else {
            back_scanning = false;
        }
    }
    proof {
        assert(b > a);
        lemma_last_idx_where_at(s@, |c: char| !is_space(c), b - 1);
    }
    s.substring_char(a, b).to_owned()
}

/// `s` with every occurrence of `c` removed.
pub open spec fn remove_char_spec(s: Seq<char>, c: char) -> Seq<char> {
    s.filter(|x: char| x != c)
}

/// Removes every occurrence of one character.
pub fn remove_char_all(s: &str, c: char) -> (r: String)
    ensures
        r@ == remove_char_spec(s@, c),
{
    let n = s.unicode_len();
    let mut out = String::new();
    let mut i: usize = 0;
    proof {
        reveal(Seq::filter);
        assert(out@ =~= remove_char_spec(s@.subrange(0, 0), c));
    }
    while i < n
        invariant
            n == s@.len(),
            i <= n,
            out@ == remove_char_spec(s@.subrange(0, i as int), c),
        decreases n - i,
    {
        let ghost pre = s@.subrange(0, i as int);
        let ghost post = s@.subrange(0, i as int + 1);
        proof {
            reveal(Seq::filter);
            assert(post.drop_last() =~= pre);
            assert(post.last() == s@[i as int]);
        }
        let x = s.get_char(i);
        if x != c {
            let piece = s.substring_char(i, i + 1);
            out.append(piece);
            proof {
                reveal(Seq::filter);
                assert(out@ =~= remove_char_spec(pre, c).push(s@[i as int]));
            }
        }
        i = i + 1;
    }
    proof {
        assert(s@.subrange(0, n as int) =~= s@);
    }
    out
}

/// The elements of `parts` joined with `sep` between them.
pub open spec fn join_spec(parts: Seq<Seq<char>>, sep: Seq<char>) -> Seq<char>
    decreases parts.len(),
{
    if parts.len() == 0 {
        Seq::empty()
    } else if parts.len() == 1 {
        parts[0]
    } else {
        join_spec(parts.drop_last(), sep) + sep + parts.last()
    }
}

/// Joins strings with a separator, as `[String]::join` does.
pub fn join_with(parts: &Vec<String>, sep: &str) -> (r: String)
    ensures
        r@ == join_spec(parts.deep_view(), sep@),
{
    let mut out = String::new();
    let n = parts.len();
    let mut i: usize = 0;
    while i < n
        invariant
            n == parts.len(),
            i <= n,
            out@ == join_spec(parts.deep_view().subrange(0, i as int), sep@),
        decreases n - i,
    {
        let ghost pre = parts.deep_view().subrange(0, i as int);
        let ghost post = parts.deep_view().subrange(0, i as int + 1);
        proof {
            assert(post.drop_last() =~= pre);
            assert(post.last() == parts.deep_view()[i as int]);
        }
        if i > 0 {
            out.append(sep);
        }
        out.append(parts[i].as_str());
        i = i + 1;
    }
    proof {
        assert(parts.deep_view().subrange(0, n as int) =~= parts.deep_view());
    }
    out
}


/// A decimal digit.
pub open spec fn is_digit(c: char) -> bool {
    0x30 <= c as u32 && c as u32 <= 0x39
}

/// The value of one decimal digit.
pub open spec fn digit_val(c: char) -> int {
    c as u32 - 0x30
}

/// `s` is one or more decimal digits.
pub open spec fn all_digits(s: Seq<char>) -> bool {
    s.len() > 0 && forall|i: int| 0 <= i < s.len() ==> is_digit(#[trigger] s[i])
}

/// The number a digit string denotes.
pub open spec fn digits_val(s: Seq<char>) -> int
    decreases s.len(),
{
    if s.len() == 0 {
        0
    } else {
        digits_val(s.drop_last()) * 10 + digit_val(s.last())
    }
}

/// The digits of `s`, after one optional leading `+` or `-`.
pub open spec fn int_body(s: Seq<char>) -> Seq<char> {
    if s.len() > 0 && (s[0] == '+' || s[0] == '-') {
        s.drop_first()
    } else {
        s
    }
}

/// The sign `s` carries.
pub open spec fn int_sign(s: Seq<char>) -> int {
    if s.len() > 0 && s[0] == '-' {
        -1
    } else {
        1
    }
}

/// What `str::parse::<i32>` returns on `s`: the denoted value when `s` is a
/// well-formed decimal number in range, `None` otherwise.
pub open spec fn parse_i32_spec(s: Seq<char>) -> Option<i32> {
    if all_digits(int_body(s)) && i32::MIN <= int_sign(s) * digits_val(int_body(s))
        && int_sign(s) * digits_val(int_body(s)) <= i32::MAX {
        Some((int_sign(s) * digits_val(int_body(s))) as i32)
    } else {
        None
    }
}

proof fn lemma_digits_val_nonneg(s: Seq<char>)
    requires
        forall|i: int| 0 <= i < s.len() ==> is_digit(#[trigger] s[i]),
    ensures
        digits_val(s) >= 0,
    decreases s.len(),
{
    if s.len() > 0 {
        let t = s.drop_last();
        assert(forall|i: int| 0 <= i < t.len() ==> #[trigger] t[i] == s[i]);
        lemma_digits_val_nonneg(t);
        assert(digits_val(t) * 10 >= 0) by (nonlinear_arith)
            requires
                digits_val(t) >= 0,
        ;
    }
}

proof fn lemma_digits_val_prefix(s: Seq<char>, k: int)
    requires
        0 <= k <= s.len(),
        forall|i: int| 0 <= i < s.len() ==> is_digit(#[trigger] s[i]),
    ensures
        digits_val(s.subrange(0, k)) <= digits_val(s),
    decreases s.len() - k,
{
    if k < s.len() {
        lemma_digits_val_prefix(s, k + 1);
        let a = s.subrange(0, k);
        let b = s.subrange(0, k + 1);
        assert(b.drop_last() =~= a);
        assert(forall|i: int| 0 <= i < a.len() ==> #[trigger] a[i] == s[i]);
        lemma_digits_val_nonneg(a);
        assert(digits_val(a) * 10 >= digits_val(a)) by (nonlinear_arith)
            requires
                digits_val(a) >= 0,
        ;
        assert(digits_val(b) == digits_val(a) * 10 + digit_val(b.last()));
        assert(digit_val(b.last()) >= 0);
    } else {
        assert(s.subrange(0, k) =~= s);
    }
}

/// Parses a decimal integer, as `str::parse::<i32>` does.
pub fn parse_i32(s: &str) -> (r: Option<i32>)
    ensures
        r == parse_i32_spec(s@),
{
    let n = s.unicode_len();
    if n == 0 {
        return None;
    }
    let c0 = s.get_char(0);
    let neg = c0 == '-';
    let off: usize = if c0 == '-' || c0 == '+' {
        1
    } else {
        0
    };
    let ghost body = int_body(s@);
    proof {
        assert(body =~= s@.subrange(off as int, n as int));
    }
    if off == n {
        return None;
    }
    let mut i: usize = off;
    while i < n
        invariant
            n == s@.len(),
            off <= i <= n,
            off < n,
            body == int_body(s@),
            body == s@.subrange(off as int, n as int),
            forall|k: int| off <= k < i ==> is_digit(#[trigger] s@[k]),
        decreases n - i,
    {
        let u = s.get_char(i) as u32;
        if !(0x30 <= u && u <= 0x39) {
            proof {
                assert(body[i - off] == s@[i as int]);
                assert(!is_digit(body[i - off]));
            }
            return None;
        }
        i = i + 1;
    }
    proof {
        assert(forall|k: int| 0 <= k < body.len() ==> #[trigger] body[k] == s@[k + off]);
        assert(all_digits(body));
    }
    let mut acc: u64 = 0;
    let mut j: usize = off;
    let mut over = false;
    while j < n
        invariant
            n == s@.len(),
            off <= j <= n,
            off < n,
            body == int_body(s@),
            body == s@.subrange(off as int, n as int),
            forall|k: int| off <= k < n ==> is_digit(#[trigger] s@[k]),
            all_digits(body),
            !over ==> acc == digits_val(s@.subrange(off as int, j as int)) && acc
                <= 42949672969u64,
            over ==> digits_val(body) > 4294967296,
        decreases n - j,
    {
        if !over {
            if acc > 4294967296 {
                proof {
                    let pre = s@.subrange(off as int, j as int);
                    assert(body.subrange(0, j - off) =~= pre);
                    lemma_digits_val_prefix(body, j - off);
                }
                over = true;
            } else {
                let ghost pre = s@.subrange(off as int, j as int);
                let ghost post = s@.subrange(off as int, j as int + 1);
                proof {
                    assert(post.drop_last() =~= pre);
                    assert(post.last() == s@[j as int]);
                }
                let u = s.get_char(j) as u32;
                let d = (u - 0x30) as u64;
                acc = acc * 10 + d;
            }
        }
        j = j + 1;
    }
    if over {
        proof {
            lemma_digits_val_nonneg(body);
        }
        return None;
    }
    proof {
        assert(s@.subrange(off as int, n as int) == body);
        assert(acc == digits_val(body));
    }
    if neg {
        if acc <= 2147483648 {
            let v = -(acc as i64);
            Some(v as i32)
        } else {
            None
        }
    } else {
        if acc <= 2147483647 {
            Some(acc as i32)
        } else {
            None
        }
    }
}

/// The decimal digit character for `d`.
pub open spec fn dec_digit(d: int) -> char {
    if d == 0 {
        '0'
    } else if d == 1 {
        '1'
    } else if d == 2 {
        '2'
    } else if d == 3 {
        '3'
    } else if d == 4 {
        '4'
    } else if d == 5 {
        '5'
    } else if d == 6 {
        '6'
    } else if d == 7 {
        '7'
    } else if d == 8 {
        '8'
    } else {
        '9'
    }
}

/// The decimal digits of a nonnegative number.
pub open spec fn dec_str(n: int) -> Seq<char>
    decreases n,
{
    if n < 10 {
        seq![dec_digit(n)]
    } else {
        dec_str(n / 10).push(dec_digit(n % 10))
    }
}

/// The decimal rendering of `n`, with a leading `-` when negative.
pub open spec fn int_str(n: int) -> Seq<char> {
    if n < 0 {
        seq!['-'] + dec_str(-n)
    } else {
        dec_str(n)
    }
}

fn digit_str(d: u64) -> (r: &'static str)
    requires
        d < 10,
    ensures
        r@ == seq![dec_digit(d as int)],
{
    if d == 0 {
        proof {
            reveal_strlit("0");
            assert("0"@ =~= seq![dec_digit(0int)]);
        }
        "0"
    } else if d == 1 {
        proof {
            reveal_strlit("1");
            assert("1"@ =~= seq![dec_digit(1int)]);
        }
        "1"
    } else if d == 2 {
        proof {
            reveal_strlit("2");
            assert("2"@ =~= seq![dec_digit(2int)]);
        }
        "2"
    } else if d == 3 {
        proof {
            reveal_strlit("3");
            assert("3"@ =~= seq![dec_digit(3int)]);
        }
        "3"
    } else if d == 4 {
        proof {
            reveal_strlit("4");
            assert("4"@ =~= seq![dec_digit(4int)]);
        }
        "4"
    } else if d == 5 {
        proof {
            reveal_strlit("5");
            assert("5"@ =~= seq![dec_digit(5int)]);
        }
        "5"
    } else if d == 6 {
        proof {
            reveal_strlit("6");
            assert("6"@ =~= seq![dec_digit(6int)]);
        }
        "6"
    } else if d == 7 {
        proof {
            reveal_strlit("7");
            assert("7"@ =~= seq![dec_digit(7int)]);
        }
        "7"
    } else if d == 8 {
        proof {
            reveal_strlit("8");
            assert("8"@ =~= seq![dec_digit(8int)]);
        }
        "8"
    } else {
        proof {
            reveal_strlit("9");
            assert("9"@ =~= seq![dec_digit(9int)]);
        }
        "9"
    }
}

fn dec_u64_string(m: u64) -> (r: String)
    ensures
        r@ == dec_str(m as int),
    decreases m,
{
    if m < 10 {
        digit_str(m).to_owned()
    } else {
        let mut out = dec_u64_string(m / 10);
        out.append(digit_str(m % 10));
        proof {
            assert(out@ =~= dec_str((m / 10) as int).push(dec_digit((m % 10) as int)));
        }
        out
    }
}

/// Renders an integer in decimal.
pub fn int_to_string(n: i32) -> (r: String)
    ensures
        r@ == int_str(n as int),
{
    if n < 0 {
        let m = (-(n as i64)) as u64;
        let mut out = String::new();
        let dash = "-";
        proof {
            reveal_strlit("-");
            assert(dash@ =~= seq!['-']);
        }
        out.append(dash);
        let digits = dec_u64_string(m);
        out.append(digits.as_str());
        proof {
            assert(out@ =~= seq!['-'] + dec_str(m as int));
        }
        out
    } else {
        dec_u64_string(n as u64)
    }
}

/// What `str::to_lowercase` returns: a function of the characters alone.
pub uninterp spec fn lower_of(s: Seq<char>) -> Seq<char>;

/// Relies on `str::to_lowercase`: the result depends only on the input
/// characters, and an empty input gives an empty result.
#[verifier::external_body]
pub fn to_lowercase(s: &str) -> (r: String)
    ensures
        r@ == lower_of(s@),
        s@.len() == 0 ==> r@.len() == 0,
{
    s.to_lowercase()
}


/// `s` with every leading copy of `p` removed, as `str::trim_start_matches`
/// strips it.
pub open spec fn strip_all_prefix(s: Seq<char>, p: Seq<char>) -> Seq<char>
    decreases s.len(),
{
    if p.len() > 0 && has_prefix(s, p) {
        strip_all_prefix(s.skip(p.len() as int), p)
    } else {
        s
    }
}

/// Strips every leading copy of a prefix.
pub fn strip_prefix_all(s: &str, p: &str) -> (r: String)
    requires
        p@.len() > 0,
    ensures
        r@ == strip_all_prefix(s@, p@),
{
    let m = p.unicode_len();
    let mut cur: String = s.to_owned();
    while starts_with_str(cur.as_str(), p)
        invariant
            m == p@.len(),
            m > 0,
            strip_all_prefix(cur@, p@) == strip_all_prefix(s@, p@),
        decreases cur@.len(),
    {
        let n = cur.as_str().unicode_len();
        cur = cur.as_str().substring_char(m, n).to_owned();
    }
    cur
}

/// `Some(s)` without one leading copy of `p`, when `s` starts with it, as
/// `str::strip_prefix` answers.
pub open spec fn strip_one_prefix(s: Seq<char>, p: Seq<char>) -> Option<Seq<char>> {
    if has_prefix(s, p) {
        Some(s.skip(p.len() as int))
    } else {
        None
    }
}

/// Strips one leading copy of a prefix, if present.
pub fn strip_prefix_once(s: &str, p: &str) -> (r: Option<String>)
    ensures
        r.deep_view() == strip_one_prefix(s@, p@),
{
    if starts_with_str(s, p) {
        let n = s.unicode_len();
        let m = p.unicode_len();
        Some(s.substring_char(m, n).to_owned())
    } else {
        None
    }
}

} // verus!

//! Character-level text transformations used by the rewrite pipeline:
//! whitespace trimming, locale separator normalization, literal `ans`
//! substitution, and whole-word variable substitution.

use vstd::prelude::*;

verus! {

/// Characters that make up identifiers (variable names and word tokens):
/// ASCII letters, digits and underscore.
pub open spec fn word_char(c: char) -> bool {
    ('a' <= c && c <= 'z') || ('A' <= c && c <= 'Z') || ('0' <= c && c <= '9') || c == '_'
}

/// ASCII whitespace, the characters removed by trimming.
pub open spec fn space_char(c: char) -> bool {
    c == ' ' || c == '\t' || c == '\n' || c == '\r' || c == '\u{0c}'
}

/// The four arithmetic operators that trigger continuation of the
/// previous answer when they open a line.
pub open spec fn operator_char(c: char) -> bool {
    c == '+' || c == '-' || c == '*' || c == '/'
}

/// Non-empty text made only of whitespace. Such a line carries no
/// expression, and the external evaluator does not tolerate it.
pub open spec fn blank(s: Seq<char>) -> bool {
    s.len() > 0 && forall|i: int| 0 <= i < s.len() ==> space_char(s[i])
}

/// Exec check for `word_char`.
pub fn is_word_char(c: char) -> (r: bool)
    ensures
        r == word_char(c),
{
    ('a' <= c && c <= 'z') || ('A' <= c && c <= 'Z') || ('0' <= c && c <= '9') || c == '_'
}

/// Exec check for `space_char`.
pub fn is_space_char(c: char) -> (r: bool)
    ensures
        r == space_char(c),
{
    c == ' ' || c == '\t' || c == '\n' || c == '\r' || c == '\u{0c}'
}

/// Exec check for `operator_char`.
pub fn is_operator_char(c: char) -> (r: bool)
    ensures
        r == operator_char(c),
{
    c == '+' || c == '-' || c == '*' || c == '/'
}

/// The text with leading whitespace removed.
pub open spec fn trim_start(s: Seq<char>) -> Seq<char>
    decreases s.len(),
{
    if s.len() > 0 && space_char(s[0]) {
        trim_start(s.skip(1))
    } else {
        s
    }
}

/// The text with trailing whitespace removed.
pub open spec fn trim_end(s: Seq<char>) -> Seq<char>
    decreases s.len(),
{
    if s.len() > 0 && space_char(s[s.len() - 1]) {
        trim_end(s.take(s.len() - 1))
    } else {
        s
    }
}

/// The text with both leading and trailing whitespace removed.
pub open spec fn trim(s: Seq<char>) -> Seq<char> {
    trim_end(trim_start(s))
}

/// One step of locale normalization: commas become decimal points,
/// semicolons become argument-separating commas.
pub open spec fn normalize_char(c: char) -> char {
    if c == ',' {
        '.'
    } else if c == ';' {
        ','
    } else {
        c
    }
}

/// Locale separator normalization over a whole line. Replacing `,` by `.`
/// strictly before `;` by `,` is equivalent to this single pass, since the
/// commas produced from semicolons are not rewritten again.
pub open spec fn normalize_separators(s: Seq<char>) -> Seq<char> {
    Seq::new(s.len(), |i: int| normalize_char(s[i]))
}

/// The literal token `ans` occurs at position `i` of `s`.
pub open spec fn ans_at(s: Seq<char>, i: int) -> bool {
    0 <= i && i + 3 <= s.len() && s[i] == 'a' && s[i + 1] == 'n' && s[i + 2] == 's'
}

/// The text contains the literal substring `ans` somewhere.
pub open spec fn contains_ans(s: Seq<char>) -> bool {
    exists|i: int| ans_at(s, i)
}

/// Every occurrence of the literal substring `ans` replaced by `rep`,
/// scanning left to right over non-overlapping matches.
pub open spec fn replace_ans(s: Seq<char>, rep: Seq<char>) -> Seq<char>
    decreases s.len(),
{
    if s.len() < 3 {
        s
    } else if s[0] == 'a' && s[1] == 'n' && s[2] == 's' {
        rep + replace_ans(s.skip(3), rep)
    } else {
        seq![s[0]] + replace_ans(s.skip(1), rep)
    }
}

/// Length of the maximal run of word characters at the front of `s`.
pub open spec fn word_len(s: Seq<char>) -> nat
    decreases s.len(),
{
    if s.len() == 0 || !word_char(s[0]) {
        0
    } else {
        1 + word_len(s.skip(1))
    }
}

/// The front word run is no longer than the text, and is non-empty
/// exactly when the text opens with a word character.
pub proof fn lemma_word_len_bound(s: Seq<char>)
    ensures
        word_len(s) <= s.len(),
        s.len() > 0 && word_char(s[0]) ==> word_len(s) >= 1,
    decreases s.len(),
{
    if s.len() > 0 && word_char(s[0]) {
        lemma_word_len_bound(s.skip(1));
    }
}

/// The maximal word run at the front of `s` has exactly length `d` when
/// its first `d` characters are word characters and the run stops there.
pub proof fn lemma_word_len_run(s: Seq<char>, d: int)
    requires
        0 <= d <= s.len(),
        forall|x: int| 0 <= x < d ==> word_char(s[x]),
        d < s.len() ==> !word_char(s[d]),
    ensures
        word_len(s) == d,
    decreases d,
{
    if d == 0 {
    } else {
        assert(word_char(s[0]));
        lemma_word_len_run(s.skip(1), d - 1);
    }
}

/// Whole-word variable substitution, as a single left-to-right pass over
/// tokens: each maximal run of word characters that names a known variable
/// is replaced by that variable's value; all other text is kept. Because
/// the pass never rescans emitted text, a substituted value is never
/// itself substituted again.
pub open spec fn subst_vars(s: Seq<char>, m: Map<Seq<char>, Seq<char>>) -> Seq<char>
    decreases s.len(),
    via subst_vars_decreases
{
    if s.len() == 0 {
        s
    } else if !word_char(s[0]) {
        seq![s[0]] + subst_vars(s.skip(1), m)
    } else {
        let n = word_len(s) as int;
        let w = s.take(n);
        let rep = if m.dom().contains(w) {
            m[w]
        } else {
            w
        };
        rep + subst_vars(s.skip(n), m)
    }
}

#[via_fn]
proof fn subst_vars_decreases(s: Seq<char>, m: Map<Seq<char>, Seq<char>>) {
    lemma_word_len_bound(s);
}

/// Position of the first `=` in the text, if any.
pub open spec fn find_eq(s: Seq<char>) -> Option<int>
    decreases s.len(),
{
    if s.len() == 0 {
        None
    } else if s[0] == '=' {
        Some(0int)
    } else {
        match find_eq(s.skip(1)) {
            Some(j) => Some(j + 1),
            None => None,
        }
    }
}

/// A valid variable name: non-empty, and every character alphanumeric or
/// underscore.
pub open spec fn valid_name(s: Seq<char>) -> bool {
    s.len() > 0 && (forall|i: int| 0 <= i < s.len() ==> word_char(s[i]))
}

proof fn lemma_trim_start_skip(s: Seq<char>, a: int)
    requires
        0 <= a <= s.len(),
        forall|j: int| 0 <= j < a ==> space_char(s[j]),
        a < s.len() ==> !space_char(s[a]),
    ensures
        trim_start(s) == s.skip(a),
    decreases a,
{
    if a == 0 {
        assert(s.skip(0) =~= s);
    } else {
        assert(space_char(s[0]));
        lemma_trim_start_skip(s.skip(1), a - 1);
        assert(s.skip(1).skip(a - 1) =~= s.skip(a));
    }
}

proof fn lemma_trim_end_take(s: Seq<char>, b: int)
    requires
        0 <= b <= s.len(),
        forall|j: int| b <= j < s.len() ==> space_char(s[j]),
        b > 0 ==> !space_char(s[b - 1]),
    ensures
        trim_end(s) == s.take(b),
    decreases s.len(),
{
    if s.len() > 0 && space_char(s[s.len() - 1]) {
        assert(b < s.len());
        lemma_trim_end_take(s.take(s.len() - 1), b);
        assert(s.take(s.len() - 1).take(b) =~= s.take(b));
    } else {
        assert(b == s.len());
        assert(s.take(b) =~= s);
    }
}

/// Removes leading and trailing whitespace from a line of characters.
pub fn trim_chars(s: &Vec<char>) -> (r: Vec<char>)
    ensures
        r@ == trim(s@),
{
    let mut a: usize = 0;
    while a < s.len() && is_space_char(s[a])
        invariant
            0 <= a <= s@.len(),
            forall|j: int| 0 <= j < a ==> space_char(s@[j]),
        decreases s@.len() - a,
    {
        a += 1;
    }
    let mut b: usize = s.len();
    while b > a && is_space_char(s[b - 1])
        invariant
            a <= b <= s@.len(),
            a < s@.len() ==> !space_char(s@[a as int]),
            forall|j: int| b <= j < s@.len() ==> space_char(s@[j]),
        decreases b,
    {
        b -= 1;
    }
    let mut r: Vec<char> = Vec::new();
    let mut i: usize = a;
    while i < b
        invariant
            a <= i <= b <= s@.len(),
            r@ =~= s@.subrange(a as int, i as int),
        decreases b - i,
    {
        r.push(s[i]);
        i += 1;
    }
    proof {
        lemma_trim_start_skip(s@, a as int);
        let t = s@.skip(a as int);
        lemma_trim_end_take(t, b - a);
        assert(r@ =~= t.take(b - a));
    }
    r
}

/// Applies locale separator normalization: each `,` becomes `.`, each `;`
/// becomes `,`, in a single pass.
pub fn normalize_chars(s: &Vec<char>) -> (r: Vec<char>)
    ensures
        r@ == normalize_separators(s@),
{
    let mut r: Vec<char> = Vec::new();
    let mut i: usize = 0;
    while i < s.len()
        invariant
            0 <= i <= s@.len(),
            r@.len() == i,
            forall|j: int| 0 <= j < i ==> r@[j] == normalize_char(s@[j]),
        decreases s@.len() - i,
    {
        let c = s[i];
        if c == ',' {
            r.push('.');
        } else if c == ';' {
            r.push(',');
        } else {
            r.push(c);
        }
        i += 1;
    }
    proof {
        assert(r@ =~= normalize_separators(s@));
    }
    r
}

/// Reports whether the literal substring `ans` occurs in the line.
pub fn contains_ans_chars(s: &Vec<char>) -> (r: bool)
    ensures
        r == contains_ans(s@),
{
    if s.len() < 3 {
        proof {
            assert(forall|i: int| !ans_at(s@, i));
        }
        return false;
    }
    let mut i: usize = 0;
    while i <= s.len() - 3
        invariant
            s@.len() >= 3,
            0 <= i,
            i <= s@.len(),
            forall|j: int| 0 <= j < i ==> !ans_at(s@, j),
        decreases s@.len() - i,
    {
        if s[i] == 'a' && s[i + 1] == 'n' && s[i + 2] == 's' {
            proof {
                assert(ans_at(s@, i as int));
            }
            return true;
        }
        i += 1;
    }
    proof {
        assert(forall|j: int| #[trigger] ans_at(s@, j) ==> 0 <= j < i);
        assert(!contains_ans(s@));
    }
    false
}

/// Replaces every occurrence of the literal substring `ans` by `rep`,
/// scanning left to right.
pub fn replace_ans_chars(s: &Vec<char>, rep: &Vec<char>) -> (r: Vec<char>)
    ensures
        r@ == replace_ans(s@, rep@),
{
    let mut r: Vec<char> = Vec::new();
    let mut i: usize = 0;
    proof {
        assert(s@.skip(0) =~= s@);
        assert(Seq::<char>::empty() + replace_ans(s@, rep@) =~= replace_ans(s@, rep@));
    }
    while i < s.len()
        invariant
            0 <= i <= s@.len(),
            r@ + replace_ans(s@.skip(i as int), rep@) == replace_ans(s@, rep@),
        decreases s@.len() - i,
    {
        let ghost tail = s@.skip(i as int);
        let ghost r0 = r@;
        if s.len() - i >= 3 && s[i] == 'a' && s[i + 1] == 'n' && s[i + 2] == 's' {
            let mut k: usize = 0;
            while k < rep.len()
                invariant
                    0 <= k <= rep@.len(),
                    r@ =~= r0 + rep@.take(k as int),
                decreases rep@.len() - k,
            {
                r.push(rep[k]);
                k += 1;
            }
            proof {
                assert(rep@.take(rep@.len() as int) =~= rep@);
                assert(tail[0] == 'a' && tail[1] == 'n' && tail[2] == 's');
                assert(replace_ans(tail, rep@) == rep@ + replace_ans(tail.skip(3), rep@));
                assert(tail.skip(3) =~= s@.skip(i + 3));
                assert((r0 + rep@) + replace_ans(s@.skip(i + 3), rep@) =~= r0 + (rep@
                    + replace_ans(s@.skip(i + 3), rep@)));
            }
            i += 3;
        } else {
            proof {
                if tail.len() >= 3 {
                    assert(!(tail[0] == 'a' && tail[1] == 'n' && tail[2] == 's'));
                    assert(replace_ans(tail, rep@) == seq![tail[0]] + replace_ans(
                        tail.skip(1),
                        rep@,
                    ));
                } else {
                    assert(replace_ans(tail, rep@) == tail);
                    assert(replace_ans(tail.skip(1), rep@) == tail.skip(1));
                    assert(seq![tail[0]] + tail.skip(1) =~= tail);
                }
                assert(tail.skip(1) =~= s@.skip(i + 1));
                assert((r0 + seq![tail[0]]) + replace_ans(s@.skip(i + 1), rep@) =~= r0 + (seq![
                    tail[0],
                ] + replace_ans(s@.skip(i + 1), rep@)));
            }
            r.push(s[i]);
            i += 1;
        }
    }
    proof {
        assert(s@.skip(s@.len() as int) =~= Seq::<char>::empty());
        assert(r@ + Seq::<char>::empty() =~= r@);
    }
    r
}

pub proof fn lemma_find_eq_at(s: Seq<char>, i: int)
    requires
        0 <= i <= s.len(),
        forall|j: int| 0 <= j < i ==> s[j] != '=',
    ensures
        i < s.len() && s[i] == '=' ==> find_eq(s) == Some(i),
        i == s.len() ==> find_eq(s) is None,
    decreases i,
{
    if i == 0 {
        if s.len() == 0 {
        } else if s[0] == '=' {
        }
    } else {
        assert(s[0] != '=');
        lemma_find_eq_at(s.skip(1), i - 1);
        assert(forall|j: int| 0 <= j < i - 1 ==> s.skip(1)[j] == s[j + 1]);
    }
}

pub proof fn lemma_find_eq_none(s: Seq<char>)
    requires
        forall|j: int| 0 <= j < s.len() ==> s[j] != '=',
    ensures
        find_eq(s) is None,
{
    lemma_find_eq_at(s, s.len() as int);
}

/// Finds the position of the first `=` character, if any.
pub fn find_eq_chars(s: &Vec<char>) -> (r: Option<usize>)
    ensures
        match r {
            Some(i) => i < s@.len() && s@[i as int] == '=' && find_eq(s@) == Some(i as int),
            None => find_eq(s@) is None,
        },
{
    let mut i: usize = 0;
    while i < s.len()
        invariant
            0 <= i <= s@.len(),
            forall|j: int| 0 <= j < i ==> s@[j] != '=',
        decreases s@.len() - i,
    {
        if s[i] == '=' {
            proof {
                lemma_find_eq_at(s@, i as int);
            }
            return Some(i);
        }
        i += 1;
    }
    proof {
        lemma_find_eq_at(s@, s@.len() as int);
    }
    None
}

/// Checks that a proposed variable name is non-empty and made only of
/// alphanumeric characters and underscores.
pub fn is_valid_name(s: &Vec<char>) -> (r: bool)
    ensures
        r == valid_name(s@),
{
    if s.len() == 0 {
        return false;
    }
    let mut i: usize = 0;
    while i < s.len()
        invariant
            0 <= i <= s@.len(),
            forall|j: int| 0 <= j < i ==> word_char(s@[j]),
        decreases s@.len() - i,
    {
        if !is_word_char(s[i]) {
            return false;
        }
        i += 1;
    }
    true
}

/// Decodes a string slice into its sequence of characters.
pub fn str_to_chars(s: &str) -> (v: Vec<char>)
    ensures
        v@ == s@,
{
    let n = s.unicode_len();
    let mut v: Vec<char> = Vec::new();
    let mut i: usize = 0;
    while i < n
        invariant
            n == s@.len(),
            0 <= i <= n,
            v@ =~= s@.take(i as int),
        decreases n - i,
    {
        v.push(s.get_char(i));
        i += 1;
    }
    proof {
        assert(s@.take(n as int) =~= s@);
    }
    v
}

/// Appends the characters of `w` to `r`.
pub fn append_chars(r: &mut Vec<char>, w: &Vec<char>)
    ensures
        final (r)@ == old(r)@ + w@,
{
    let ghost r0 = r@;
    let mut y: usize = 0;
    while y < w.len()
        invariant
            0 <= y <= w@.len(),
            r@ =~= r0 + w@.take(y as int),
        decreases w@.len() - y,
    {
        r.push(w[y]);
        y += 1;
    }
    proof {
        assert(w@.take(w@.len() as int) =~= w@);
    }
}

/// Appends the characters of the string slice `s` to `r`.
pub fn append_str_chars(r: &mut Vec<char>, s: &str)
    ensures
        final (r)@ == old(r)@ + s@,
{
    let ghost r0 = r@;
    let n = s.unicode_len();
    let mut y: usize = 0;
    while y < n
        invariant
            n == s@.len(),
            0 <= y <= n,
            r@ =~= r0 + s@.take(y as int),
        decreases n - y,
    {
        r.push(s.get_char(y));
        y += 1;
    }
    proof {
        assert(s@.take(s@.len() as int) =~= s@);
    }
}

/// Copies the characters of `s` between positions `a` and `b`.
pub fn subrange_chars(s: &Vec<char>, a: usize, b: usize) -> (r: Vec<char>)
    requires
        a <= b <= s@.len(),
    ensures
        r@ == s@.subrange(a as int, b as int),
{
    let mut r: Vec<char> = Vec::new();
    let mut x: usize = a;
    while x < b
        invariant
            a <= x <= b <= s@.len(),
            r@ =~= s@.subrange(a as int, x as int),
        decreases b - x,
    {
        r.push(s[x]);
        x += 1;
    }
    r
}

/// Reports whether the line is non-empty but all whitespace.
pub fn is_blank_chars(s: &Vec<char>) -> (r: bool)
    ensures
        r == blank(s@),
{
    if s.len() == 0 {
        return false;
    }
    let mut i: usize = 0;
    while i < s.len()
        invariant
            0 <= i <= s@.len(),
            s@.len() > 0,
            forall|j: int| 0 <= j < i ==> space_char(s@[j]),
        decreases s@.len() - i,
    {
        if !is_space_char(s[i]) {
            return false;
        }
        i += 1;
    }
    true
}

/// Compares a string slice with a sequence of characters.
pub fn str_eq_chars(a: &str, w: &Vec<char>) -> (r: bool)
    ensures
        r == (a@ == w@),
{
    let n = a.unicode_len();
    if n != w.len() {
        return false;
    }
    let mut i: usize = 0;
    while i < n
        invariant
            n == a@.len() == w@.len(),
            0 <= i <= n,
            forall|j: int| 0 <= j < i ==> a@[j] == w@[j],
        decreases n - i,
    {
        if a.get_char(i) != w[i] {
            return false;
        }
        i += 1;
    }
    proof {
        assert(a@ =~= w@);
    }
    true
}

/// Relies on `String: FromIterator<char>`: collecting an iterator of
/// characters yields the string made of exactly those characters in order.
#[verifier::external_body]
pub fn chars_to_string(v: &Vec<char>) -> (s: String)
    ensures
        s@ == v@,
{
    v.iter().collect()
}

} // verus!

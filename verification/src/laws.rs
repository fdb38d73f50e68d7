//! General properties of the rewrite pipeline, stated and proved over the
//! specification model: operator continuation, assignment and whole-word
//! substitution, locale normalization, and the missing-answer errors.

use vstd::prelude::*;

use crate::eval::eval_result;
use crate::eval::plain_value;
use crate::eval::rendered_value;
use crate::eval::value_char;
use crate::eval::value_end_char;
use crate::parser::apply_ans;
use crate::parser::err_ans_unavailable;
use crate::parser::err_no_answer_to_save;
use crate::parser::msg_assigned;
use crate::parser::msg_result;
use crate::parser::msg_saved;
use crate::parser::spec_parse;
use crate::parser::with_continuation;
use crate::text::ans_at;
use crate::text::blank;
use crate::text::contains_ans;
use crate::text::find_eq;
use crate::text::lemma_word_len_bound;
use crate::text::lemma_word_len_run;
use crate::text::normalize_char;
use crate::text::normalize_separators;
use crate::text::operator_char;
use crate::text::replace_ans;
use crate::text::space_char;
use crate::text::subst_vars;
use crate::text::trim;
use crate::text::trim_end;
use crate::text::trim_start;
use crate::text::valid_name;
use crate::text::word_char;
use crate::text::word_len;

verus! {

/// No maximal word token of `s` names a variable of `m`, so whole-word
/// substitution has nothing to replace in `s`.
pub open spec fn no_var_tokens(s: Seq<char>, m: Map<Seq<char>, Seq<char>>) -> bool
    decreases s.len(),
    via no_var_tokens_decreases
{
    if s.len() == 0 {
        true
    } else if !word_char(s[0]) {
        no_var_tokens(s.skip(1), m)
    } else {
        !m.dom().contains(s.take(word_len(s) as int)) && no_var_tokens(
            s.skip(word_len(s) as int),
            m,
        )
    }
}

#[via_fn]
proof fn no_var_tokens_decreases(s: Seq<char>, m: Map<Seq<char>, Seq<char>>) {
    lemma_word_len_bound(s);
}

/// Substitution leaves a line without known variable tokens unchanged; in
/// particular it never rewrites characters inside a longer word, such as
/// a defined `x` inside the unknown token `max`.
pub proof fn lemma_substitution_skips_unknown_tokens(s: Seq<char>, m: Map<Seq<char>, Seq<char>>)
    requires
        no_var_tokens(s, m),
    ensures
        subst_vars(s, m) == s,
    decreases s.len(),
{
    if s.len() == 0 {
    } else if !word_char(s[0]) {
        lemma_substitution_skips_unknown_tokens(s.skip(1), m);
        assert(seq![s[0]] + s.skip(1) =~= s);
    } else {
        lemma_word_len_bound(s);
        let n = word_len(s) as int;
        lemma_substitution_skips_unknown_tokens(s.skip(n), m);
        assert(s.take(n) + s.skip(n) =~= s);
    }
}

proof fn lemma_trim_start_head(s: Seq<char>)
    ensures
        trim_start(s).len() > 0 ==> !space_char(trim_start(s)[0]),
    decreases s.len(),
{
    if s.len() > 0 && space_char(s[0]) {
        lemma_trim_start_head(s.skip(1));
    }
}

proof fn lemma_trim_end_head(t: Seq<char>)
    ensures
        trim_end(t).len() > 0 ==> t.len() > 0 && trim_end(t)[0] == t[0],
    decreases t.len(),
{
    if t.len() > 0 && space_char(t[t.len() - 1]) {
        lemma_trim_end_head(t.take(t.len() - 1));
    }
}

/// A trimmed line is never blank: it is empty, or opens with a
/// non-whitespace character.
pub proof fn lemma_trim_not_blank(s: Seq<char>)
    ensures
        !blank(trim(s)),
{
    lemma_trim_start_head(s);
    lemma_trim_end_head(trim_start(s));
    if blank(trim(s)) {
        assert(space_char(trim(s)[0]));
    }
}

/// Trimming does not change text that is free of whitespace.
pub proof fn lemma_trim_noop(s: Seq<char>)
    requires
        forall|i: int| 0 <= i < s.len() ==> !space_char(s[i]),
    ensures
        trim(s) == s,
{
    assert(trim_start(s) == s);
    assert(trim_end(s) == s);
}

/// Idempotence of the locale stage: on text that is already normalized
/// and holds no remaining commas — none of the characters that the stage
/// rewrites — the comma/semicolon rewrite is a no-op, so applying it
/// twice is the same as applying it once.
pub proof fn lemma_normalize_noop(s: Seq<char>)
    requires
        forall|i: int| 0 <= i < s.len() ==> s[i] != ',' && s[i] != ';',
    ensures
        normalize_separators(s) == s,
{
    assert(normalize_separators(s) =~= s);
}

/// The characters of the maximal front word run are word characters, and
/// the run is maximal: the character after it, if any, is not one.
pub proof fn lemma_word_len_chars(s: Seq<char>)
    ensures
        forall|i: int| 0 <= i < word_len(s) ==> word_char(s[i]),
        word_len(s) < s.len() ==> !word_char(s[word_len(s) as int]),
    decreases s.len(),
{
    if s.len() > 0 && word_char(s[0]) {
        lemma_word_len_chars(s.skip(1));
        lemma_word_len_bound(s.skip(1));
        assert forall|i: int| 0 <= i < word_len(s) implies word_char(s[i]) by {
            if i > 0 {
                assert(s.skip(1)[i - 1] == s[i]);
            }
        }
        if word_len(s) < s.len() {
            assert(s.skip(1)[word_len(s) - 1] == s[word_len(s) as int]);
        }
    }
}

/// The maximal front word run of a concatenation: either all of `a` is
/// one word run and it continues into `t`, or the run ends inside `a`.
pub proof fn lemma_word_len_concat(a: Seq<char>, t: Seq<char>)
    ensures
        word_len(a + t) == if word_len(a) == a.len() {
            a.len() + word_len(t)
        } else {
            word_len(a)
        },
    decreases a.len(),
{
    if a.len() == 0 {
        assert(a + t =~= t);
    } else if !word_char(a[0]) {
        assert((a + t)[0] == a[0]);
    } else {
        assert((a + t)[0] == a[0]);
        assert((a + t).skip(1) =~= a.skip(1) + t);
        lemma_word_len_concat(a.skip(1), t);
        lemma_word_len_bound(a.skip(1));
    }
}

/// Word-boundary substitution: a defined variable standing as a whole
/// word — with no word character on either side — is replaced by exactly
/// its value, and the surrounding text is rewritten independently. In
/// particular a defined `x` in `max(x,1)` is replaced only where it
/// stands alone, never inside `max`.
#[verifier::spinoff_prover]
#[verifier::rlimit(100)]
pub proof fn lemma_whole_word_substitution(
    pre: Seq<char>,
    x: Seq<char>,
    post: Seq<char>,
    m: Map<Seq<char>, Seq<char>>,
)
    requires
        valid_name(x),
        m.dom().contains(x),
        pre.len() > 0 ==> !word_char(pre.last()),
        post.len() > 0 ==> !word_char(post[0]),
    ensures
        subst_vars(pre + x + post, m) == subst_vars(pre, m) + m[x] + subst_vars(post, m),
    decreases pre.len(),
{
    let s = pre + x + post;
    if pre.len() == 0 {
        assert(s =~= x + post);
        assert((x + post).skip(x.len() as int) =~= post);
        lemma_word_len_concat(x, post);
        lemma_word_len_run(x, x.len() as int);
        assert(word_len(x + post) == x.len());
        assert(s.take(x.len() as int) =~= x);
        assert(word_char(s[0]));
        assert(subst_vars(s, m) == m[x] + subst_vars(post, m));
        assert(subst_vars(pre, m) == Seq::<char>::empty());
        assert(Seq::<char>::empty() + m[x] + subst_vars(post, m) =~= m[x] + subst_vars(post, m));
    } else if !word_char(pre[0]) {
        assert(s[0] == pre[0]);
        assert(s.skip(1) =~= pre.skip(1) + x + post);
        if pre.len() > 1 {
            assert(pre.skip(1).last() == pre.last());
        }
        lemma_whole_word_substitution(pre.skip(1), x, post, m);
        assert(subst_vars(s, m) == seq![s[0]] + (subst_vars(pre.skip(1), m) + m[x] + subst_vars(
            post,
            m,
        )));
        assert(subst_vars(pre, m) == seq![pre[0]] + subst_vars(pre.skip(1), m));
        assert(seq![s[0]] + (subst_vars(pre.skip(1), m) + m[x] + subst_vars(post, m)) =~= (seq![
            pre[0],
        ] + subst_vars(pre.skip(1), m)) + m[x] + subst_vars(post, m));
    } else {
        lemma_word_len_chars(pre);
        lemma_word_len_bound(pre);
        let d = word_len(pre) as int;
        if d == pre.len() {
            assert(word_char(pre.last()));
            assert(false);
        }
        lemma_word_len_concat(pre, x + post);
        assert(s =~= pre + (x + post));
        assert(word_len(s) == d);
        assert(s.take(d) =~= pre.take(d));
        assert(s.skip(d) =~= pre.skip(d) + x + post);
        assert(pre.skip(d)[0] == pre[d]);
        assert(!word_char(pre.skip(d)[0]));
        assert(pre.skip(d).last() == pre.last());
        lemma_whole_word_substitution(pre.skip(d), x, post, m);
        let tok = pre.take(d);
        let rep = if m.dom().contains(tok) {
            m[tok]
        } else {
            tok
        };
        assert(subst_vars(s, m) == rep + (subst_vars(pre.skip(d), m) + m[x] + subst_vars(
            post,
            m,
        )));
        assert(subst_vars(pre, m) == rep + subst_vars(pre.skip(d), m));
        assert(rep + (subst_vars(pre.skip(d), m) + m[x] + subst_vars(post, m)) =~= (rep
            + subst_vars(pre.skip(d), m)) + m[x] + subst_vars(post, m));
    }
}

/// Replacing `ans` in text that does not contain it changes nothing.
pub proof fn lemma_replace_ans_identity(t: Seq<char>, rep: Seq<char>)
    requires
        !contains_ans(t),
    ensures
        replace_ans(t, rep) == t,
    decreases t.len(),
{
    if t.len() < 3 {
    } else {
        if t[0] == 'a' && t[1] == 'n' && t[2] == 's' {
            assert(ans_at(t, 0));
            assert(false);
        }
        assert(!contains_ans(t.skip(1))) by {
            if contains_ans(t.skip(1)) {
                let i = choose|i: int| ans_at(t.skip(1), i);
                assert(t.skip(1)[i] == t[i + 1]);
                assert(t.skip(1)[i + 1] == t[i + 2]);
                assert(t.skip(1)[i + 2] == t[i + 3]);
                assert(ans_at(t, i + 1));
            }
        }
        lemma_replace_ans_identity(t.skip(1), rep);
        assert(seq![t[0]] + t.skip(1) =~= t);
    }
}

/// Replacing `ans` in `ans` followed by `t` yields the replacement
/// followed by the replaced `t`.
pub proof fn lemma_replace_ans_prefix(t: Seq<char>, rep: Seq<char>)
    ensures
        replace_ans(seq!['a', 'n', 's'] + t, rep) == rep + replace_ans(t, rep),
{
    let s = seq!['a', 'n', 's'] + t;
    assert(s[0] == 'a' && s[1] == 'n' && s[2] == 's');
    assert(s.skip(3) =~= t);
}

proof fn lemma_replace_head_s(t: Seq<char>, rep: Seq<char>)
    requires
        rep.len() > 0,
        forall|i: int| 0 <= i < rep.len() ==> rep[i] != 's',
        replace_ans(t, rep).len() >= 1,
        replace_ans(t, rep)[0] == 's',
    ensures
        t.len() >= 1 && t[0] == 's',
{
    if t.len() < 3 {
    } else if t[0] == 'a' && t[1] == 'n' && t[2] == 's' {
        assert((rep + replace_ans(t.skip(3), rep))[0] == rep[0]);
        assert(false);
    } else {
        assert((seq![t[0]] + replace_ans(t.skip(1), rep))[0] == t[0]);
    }
}

proof fn lemma_replace_head_ns(t: Seq<char>, rep: Seq<char>)
    requires
        rep.len() > 0,
        forall|i: int| 0 <= i < rep.len() ==> rep[i] != 's',
        rep[rep.len() - 1] != 'n',
        replace_ans(t, rep).len() >= 2,
        replace_ans(t, rep)[0] == 'n',
        replace_ans(t, rep)[1] == 's',
    ensures
        t.len() >= 2 && t[0] == 'n' && t[1] == 's',
{
    let r = replace_ans(t, rep);
    if t.len() < 3 {
    } else if t[0] == 'a' && t[1] == 'n' && t[2] == 's' {
        let b = replace_ans(t.skip(3), rep);
        assert(r == rep + b);
        assert(r[0] == rep[0]);
        if rep.len() >= 2 {
            assert(r[1] == rep[1]);
            assert(false);
        } else {
            assert(rep[rep.len() - 1] == rep[0]);
            assert(false);
        }
    } else {
        let b = replace_ans(t.skip(1), rep);
        assert(r == seq![t[0]] + b);
        assert(r[0] == t[0]);
        assert(r[1] == b[0]);
        lemma_replace_head_s(t.skip(1), rep);
        assert(t.skip(1)[0] == t[1]);
    }
}

proof fn lemma_replace_ans_complete(s: Seq<char>, rep: Seq<char>)
    requires
        rep.len() > 0,
        forall|i: int| 0 <= i < rep.len() ==> rep[i] != 's',
        rep[rep.len() - 1] != 'a',
        rep[rep.len() - 1] != 'n',
    ensures
        !contains_ans(replace_ans(s, rep)),
    decreases s.len(),
{
    let r = replace_ans(s, rep);
    if s.len() < 3 {
        assert(forall|i: int| !ans_at(r, i));
    } else if s[0] == 'a' && s[1] == 'n' && s[2] == 's' {
        lemma_replace_ans_complete(s.skip(3), rep);
        let b = replace_ans(s.skip(3), rep);
        assert(r == rep + b);
        let n = rep.len() as int;
        assert forall|i: int| !ans_at(r, i) by {
            if ans_at(r, i) {
                if i + 3 <= n {
                    assert(r[i + 2] == rep[i + 2]);
                    assert(false);
                } else if i >= n {
                    assert(r[i] == b[i - n]);
                    assert(r[i + 1] == b[i + 1 - n]);
                    assert(r[i + 2] == b[i + 2 - n]);
                    assert(ans_at(b, i - n));
                    assert(contains_ans(b));
                    assert(false);
                } else if i == n - 1 {
                    assert(r[i] == rep[n - 1]);
                    assert(false);
                } else {
                    assert(i == n - 2);
                    assert(r[i + 1] == rep[n - 1]);
                    assert(false);
                }
            }
        }
    } else {
        lemma_replace_ans_complete(s.skip(1), rep);
        let b = replace_ans(s.skip(1), rep);
        assert(r == seq![s[0]] + b);
        assert forall|i: int| !ans_at(r, i) by {
            if ans_at(r, i) {
                if i >= 1 {
                    assert(r[i] == b[i - 1]);
                    assert(r[i + 1] == b[i]);
                    assert(r[i + 2] == b[i + 1]);
                    assert(ans_at(b, i - 1));
                    assert(contains_ans(b));
                    assert(false);
                } else {
                    assert(r[0] == s[0]);
                    assert(r[1] == b[0]);
                    assert(r[2] == b[1]);
                    lemma_replace_head_ns(s.skip(1), rep);
                    assert(s.skip(1)[0] == s[1]);
                    assert(s.skip(1)[1] == s[2]);
                    assert(false);
                }
            }
        }
    }
}

/// Completeness of the `ans` substitution: replacing `ans` by a rendered
/// answer leaves no `ans` reference behind — a rendering contains no `s`
/// and ends in a digit, `f` or `N`, so no occurrence survives the
/// left-to-right scan and none arises inside a replacement or across its
/// boundaries.
pub proof fn lemma_ans_reference_complete(s: Seq<char>, a: Seq<char>)
    requires
        rendered_value(a),
    ensures
        !contains_ans(replace_ans(s, a)),
{
    assert forall|i: int| 0 <= i < a.len() implies a[i] != 's' by {
        assert(value_char(a[i]));
    }
    assert(value_end_char(a[a.len() - 1]));
    lemma_replace_ans_complete(s, a);
}

/// Operator continuation: with a previous answer `a`, a line that opens
/// with an arithmetic operator is evaluated as `a` followed by that
/// operator and the rest of the line, and a successful result becomes
/// the new previous answer. The hypotheses keep the rest of the line
/// free of assignment syntax, of `ans` references of its own, and of
/// defined variable tokens.
pub proof fn lemma_operator_continuation(
    a: Seq<char>,
    op: char,
    b: Seq<char>,
    vars: Map<Seq<char>, Seq<char>>,
)
    requires
        operator_char(op),
        plain_value(a),
        forall|i: int| 0 <= i < b.len() ==> b[i] != '=',
        !contains_ans(normalize_separators(b)),
        no_var_tokens(a + seq![op] + normalize_separators(b), vars),
    ensures
        ({
            let e = a + seq![op] + normalize_separators(b);
            match eval_result(e) {
                Ok(v) => spec_parse(Some(a), vars, seq![op] + b) == (
                    Result::<Seq<char>, Seq<char>>::Ok(msg_result(v)),
                    Some(v),
                    vars,
                ),
                Err(er) => spec_parse(Some(a), vars, seq![op] + b) == (
                    Result::<Seq<char>, Seq<char>>::Err(er),
                    Some(a),
                    vars,
                ),
            }
        }),
{
    let input = seq![op] + b;
    let ans = Some(a);
    let nb = normalize_separators(b);
    let e = a + seq![op] + nb;
    assert(input[0] == op);
    assert(input.len() > 0);
    let line = with_continuation(ans, input);
    assert(line =~= seq!['a', 'n', 's'] + input);
    assert(line[0] == 'a');
    assert(!(line[0] == '='));
    let norm = normalize_separators(line);
    assert(norm =~= seq!['a', 'n', 's'] + (seq![op] + nb)) by {
        assert(norm.len() == line.len());
        assert forall|i: int| 0 <= i < norm.len() implies norm[i] == (seq!['a', 'n', 's'] + (seq![
            op,
        ] + nb))[i] by {
            if i < 3 {
            } else if i == 3 {
                assert(normalize_char(op) == op);
            } else {
                assert(line[i] == b[i - 4]);
                assert(nb[i - 4] == normalize_char(b[i - 4]));
            }
        }
    }
    assert(ans_at(norm, 0));
    assert(contains_ans(norm));
    let t = seq![op] + nb;
    assert(!contains_ans(t)) by {
        if contains_ans(t) {
            let i = choose|i: int| ans_at(t, i);
            if i == 0 {
                assert(t[0] == op);
            } else {
                assert(t[i] == nb[i - 1]);
                assert(t[i + 1] == nb[i]);
                assert(t[i + 2] == nb[i + 1]);
                assert(ans_at(nb, i - 1));
            }
        }
    }
    lemma_replace_ans_prefix(t, a);
    lemma_replace_ans_identity(t, a);
    assert(apply_ans(ans, norm) == a + t);
    assert(a + t =~= e);
    lemma_substitution_skips_unknown_tokens(e, vars);
    assert(forall|i: int| 0 <= i < e.len() ==> e[i] != '=') by {
        assert forall|i: int| 0 <= i < e.len() implies e[i] != '=' by {
            if i < a.len() {
                assert(value_char(a[i]));
            } else if i == a.len() {
                assert(e[i] == op);
            } else {
                assert(e[i] == nb[i - a.len() - 1]);
                let j = i - a.len() - 1;
                assert(nb[j] == normalize_char(b[j]));
                assert(b[j] != '=');
            }
        }
    }
    crate::text::lemma_find_eq_none(e);
    assert(e[a.len() as int] == op);
    assert(!space_char(op));
    assert(!blank(e));
}

/// On text without semicolons — such as the output of the locale stage
/// itself, once no commas remain to be produced — applying the
/// comma/semicolon rewrite twice is the same as applying it once.
pub proof fn lemma_normalize_idempotent(s: Seq<char>)
    requires
        forall|i: int| 0 <= i < s.len() ==> s[i] != ';',
    ensures
        normalize_separators(normalize_separators(s)) == normalize_separators(s),
{
    let t = normalize_separators(s);
    assert forall|i: int| 0 <= i < t.len() implies t[i] != ',' && t[i] != ';' by {
        assert(t[i] == normalize_char(s[i]));
    }
    lemma_normalize_noop(t);
}

/// Assignment: for an input of the form `x=<expr>` with a valid, not yet
/// defined name `x`, the normalized and trimmed expression is evaluated;
/// on success its value is stored under `x`, becomes the previous
/// answer, and the result reads `x = value`; on failure nothing changes.
/// The hypotheses keep the line free of `ans` references and of defined
/// variable tokens, so that the expression reaches the evaluator as it
/// stands.
pub proof fn lemma_assignment_defines_variable(
    ans: Option<Seq<char>>,
    vars: Map<Seq<char>, Seq<char>>,
    x: Seq<char>,
    e: Seq<char>,
)
    requires
        valid_name(x),
        !contains_ans(x + seq!['='] + normalize_separators(e)),
        no_var_tokens(x + seq!['='] + normalize_separators(e), vars),
        !contains_ans(trim(normalize_separators(e))),
        no_var_tokens(trim(normalize_separators(e)), vars),
    ensures
        ({
            let expr = trim(normalize_separators(e));
            match eval_result(expr) {
                Ok(v) => spec_parse(ans, vars, x + seq!['='] + e) == (
                    Result::<Seq<char>, Seq<char>>::Ok(msg_assigned(x, v)),
                    Some(v),
                    vars.insert(x, v),
                ),
                Err(er) => spec_parse(ans, vars, x + seq!['='] + e) == (
                    Result::<Seq<char>, Seq<char>>::Err(er),
                    ans,
                    vars,
                ),
            }
        }),
{
    let input = x + seq!['='] + e;
    let ne = normalize_separators(e);
    let norm_line = x + seq!['='] + ne;
    let expr = trim(ne);
    assert(input[0] == x[0]);
    assert(word_char(x[0]));
    assert(!operator_char(input[0]));
    assert(with_continuation(ans, input) == input);
    assert(input[0] != '=');
    assert(normalize_separators(input) =~= norm_line) by {
        assert forall|i: int| 0 <= i < input.len() implies normalize_char(input[i])
            == norm_line[i] by {
            if i < x.len() {
                assert(input[i] == x[i]);
                assert(word_char(x[i]));
                assert(normalize_char(x[i]) == x[i]);
            } else if i == x.len() {
                assert(input[i] == '=');
            } else {
                assert(input[i] == e[i - x.len() - 1]);
                assert(norm_line[i] == ne[i - x.len() - 1]);
            }
        }
    }
    match ans {
        Some(a) => lemma_replace_ans_identity(norm_line, a),
        None => {},
    }
    assert(apply_ans(ans, norm_line) == norm_line);
    lemma_substitution_skips_unknown_tokens(norm_line, vars);
    assert forall|j: int| 0 <= j < x.len() implies norm_line[j] != '=' by {
        assert(norm_line[j] == x[j]);
        assert(word_char(x[j]));
    }
    assert(norm_line[x.len() as int] == '=');
    crate::text::lemma_find_eq_at(norm_line, x.len() as int);
    assert(find_eq(norm_line) == Some(x.len() as int));
    assert(norm_line.take(x.len() as int) =~= x);
    assert forall|i: int| 0 <= i < x.len() implies !space_char(x[i]) by {
        assert(word_char(x[i]));
    }
    lemma_trim_noop(x);
    assert(norm_line.skip(x.len() as int + 1) =~= ne);
    match ans {
        Some(a) => lemma_replace_ans_identity(expr, a),
        None => {},
    }
    assert(apply_ans(ans, expr) == expr);
    lemma_substitution_skips_unknown_tokens(expr, vars);
    lemma_trim_not_blank(ne);
}

/// Plain evaluation: a line that opens with neither an operator nor `=`,
/// references `ans` nowhere, and holds no `=` after substitution, is
/// handed to the evaluator exactly as normalized and substituted — so a
/// defined variable standing as a whole word reaches the evaluator as
/// its value. A successful result becomes the new previous answer; a
/// failure changes nothing.
pub proof fn lemma_plain_evaluation(
    ans: Option<Seq<char>>,
    vars: Map<Seq<char>, Seq<char>>,
    input: Seq<char>,
)
    requires
        input.len() > 0 ==> !operator_char(input[0]) && input[0] != '=',
        !contains_ans(normalize_separators(input)),
        find_eq(subst_vars(normalize_separators(input), vars)) is None,
        !blank(subst_vars(normalize_separators(input), vars)),
    ensures
        ({
            let e = subst_vars(normalize_separators(input), vars);
            match eval_result(e) {
                Ok(v) => spec_parse(ans, vars, input) == (
                    Result::<Seq<char>, Seq<char>>::Ok(msg_result(v)),
                    Some(v),
                    vars,
                ),
                Err(er) => spec_parse(ans, vars, input) == (
                    Result::<Seq<char>, Seq<char>>::Err(er),
                    ans,
                    vars,
                ),
            }
        }),
{
    assert(with_continuation(ans, input) == input);
    let norm = normalize_separators(input);
    match ans {
        Some(a) => lemma_replace_ans_identity(norm, a),
        None => {},
    }
    assert(apply_ans(ans, norm) == norm);
}

/// A line that references `ans` while no previous answer exists always
/// fails with the missing-context error, leaves the state unchanged, and
/// its outcome does not depend on the evaluator at all.
pub proof fn lemma_ans_without_answer_fails(
    vars: Map<Seq<char>, Seq<char>>,
    input: Seq<char>,
)
    requires
        input.len() > 0 ==> input[0] != '=',
        contains_ans(normalize_separators(input)),
    ensures
        spec_parse(None, vars, input) == (
            Result::<Seq<char>, Seq<char>>::Err(err_ans_unavailable()),
            Option::<Seq<char>>::None,
            vars,
        ),
{
    assert(with_continuation(None, input) == input);
}

/// The answer-save shortcut: `=name` fails when no previous answer
/// exists; with a previous answer it stores that answer under the trimmed
/// name, confirms, and leaves the previous answer itself unchanged.
pub proof fn lemma_save_shortcut(
    ans: Option<Seq<char>>,
    vars: Map<Seq<char>, Seq<char>>,
    input: Seq<char>,
)
    requires
        input.len() > 0,
        input[0] == '=',
    ensures
        ans is None ==> spec_parse(ans, vars, input) == (
            Result::<Seq<char>, Seq<char>>::Err(err_no_answer_to_save()),
            ans,
            vars,
        ),
        ans matches Some(a) ==> spec_parse(ans, vars, input) == (
            Result::<Seq<char>, Seq<char>>::Ok(msg_saved(trim(input.skip(1)))),
            ans,
            vars.insert(trim(input.skip(1)), a),
        ),
{
    assert(!operator_char('='));
    assert(with_continuation(ans, input) == input);
}

} // verus!

//! The rewrite pipeline over session state: previous answer and user
//! variables. One input line is transformed by a fixed sequence of stages
//! (operator continuation, answer-save shortcut, locale separator
//! normalization, `ans` substitution, whole-word variable substitution,
//! assignment detection, evaluation) into a result message or an error.

use vstd::prelude::*;

use crate::eval::eval_result;
use crate::eval::evaluate;
use crate::eval::rendered_value;
use crate::text::append_chars;
use crate::text::append_str_chars;
use crate::text::chars_to_string;
use crate::text::contains_ans;
use crate::text::contains_ans_chars;
use crate::text::find_eq;
use crate::text::find_eq_chars;
use crate::text::blank;
use crate::text::is_blank_chars;
use crate::text::is_operator_char;
use crate::text::is_valid_name;
use crate::text::is_word_char;
use crate::text::lemma_word_len_run;
use crate::text::normalize_chars;
use crate::text::normalize_separators;
use crate::text::operator_char;
use crate::text::replace_ans;
use crate::text::replace_ans_chars;
use crate::text::str_eq_chars;
use crate::text::str_to_chars;
use crate::text::subrange_chars;
use crate::text::subst_vars;
use crate::text::trim;
use crate::text::trim_chars;
use crate::text::valid_name;
use crate::text::word_char;
use crate::text::word_len;

verus! {

/// Keys of the variable table, pairwise distinct.
pub open spec fn distinct_keys(l: Seq<(String, String)>) -> bool {
    forall|i: int, j: int| 0 <= i < j < l.len() ==> l[i].0@ != l[j].0@
}

/// The mapping that an association list of (name, value) entries denotes;
/// a later entry for the same name overrides an earlier one.
pub open spec fn assoc_map(l: Seq<(String, String)>) -> Map<Seq<char>, Seq<char>>
    decreases l.len(),
{
    if l.len() == 0 {
        Map::empty()
    } else {
        assoc_map(l.drop_last()).insert(l.last().0@, l.last().1@)
    }
}

proof fn lemma_assoc_map_props(l: Seq<(String, String)>)
    requires
        distinct_keys(l),
    ensures
        forall|k: Seq<char>| #[trigger]
            assoc_map(l).dom().contains(k) ==> exists|i: int| 0 <= i < l.len() && l[i].0@ == k,
        forall|i: int|
            0 <= i < l.len() ==> assoc_map(l).dom().contains(#[trigger] l[i].0@) && assoc_map(
                l,
            )[l[i].0@] == l[i].1@,
    decreases l.len(),
{
    if l.len() > 0 {
        let prev = l.drop_last();
        assert(forall|i: int| 0 <= i < prev.len() ==> prev[i] == l[i]);
        lemma_assoc_map_props(prev);
        assert forall|i: int| 0 <= i < l.len() implies assoc_map(l).dom().contains(
            #[trigger] l[i].0@,
        ) && assoc_map(l)[l[i].0@] == l[i].1@ by {
            if i < l.len() - 1 {
                assert(l[i].0@ != l.last().0@);
                assert(prev[i] == l[i]);
            }
        }
        assert forall|k: Seq<char>| #[trigger]
            assoc_map(l).dom().contains(k) implies exists|i: int|
            0 <= i < l.len() && l[i].0@ == k by {
            if k == l.last().0@ {
                assert(l[l.len() - 1].0@ == k);
            } else {
                assert(assoc_map(prev).dom().contains(k));
                let i = choose|i: int| 0 <= i < prev.len() && prev[i].0@ == k;
                assert(l[i].0@ == k);
            }
        }
    }
}

proof fn lemma_assoc_map_push(l: Seq<(String, String)>, e: (String, String))
    ensures
        assoc_map(l.push(e)) == assoc_map(l).insert(e.0@, e.1@),
{
    assert(l.push(e).drop_last() =~= l);
    assert(l.push(e).last() == e);
}

proof fn lemma_assoc_map_update(l: Seq<(String, String)>, i: int, e: (String, String))
    requires
        distinct_keys(l),
        0 <= i < l.len(),
        e.0@ == l[i].0@,
    ensures
        assoc_map(l.update(i, e)) == assoc_map(l).insert(e.0@, e.1@),
    decreases l.len(),
{
    let prev = l.drop_last();
    if i == l.len() - 1 {
        assert(l.update(i, e).drop_last() =~= prev);
        assert(l.update(i, e).last() == e);
        assert(assoc_map(prev).insert(l.last().0@, l.last().1@).insert(e.0@, e.1@) =~= assoc_map(
            prev,
        ).insert(e.0@, e.1@));
    } else {
        assert(l.update(i, e).drop_last() =~= prev.update(i, e));
        assert(l.update(i, e).last() == l.last());
        assert(forall|x: int| 0 <= x < prev.len() ==> prev[x] == l[x]);
        lemma_assoc_map_update(prev, i, e);
        assert(e.0@ != l.last().0@);
        assert(assoc_map(prev).insert(e.0@, e.1@).insert(l.last().0@, l.last().1@) =~= assoc_map(
            prev,
        ).insert(l.last().0@, l.last().1@).insert(e.0@, e.1@));
    }
}

/// Session state of the calculator: the previous answer, if any, and the
/// variables saved by the user, both kept as the evaluator's decimal
/// renderings.
pub struct Parser {
    /// Previous answer; absent until the first successful evaluation.
    pub ans: Option<String>,
    /// Variables saved by the user, as (name, value) entries with
    /// pairwise-distinct names.
    vars: Vec<(String, String)>,
}

impl Parser {
    /// The previous answer, as a sequence of characters.
    pub closed spec fn ans_view(&self) -> Option<Seq<char>> {
        match self.ans {
            Some(a) => Some(a@),
            None => None,
        }
    }

    /// The variable table, as a mapping from names to values.
    pub closed spec fn vars_map(&self) -> Map<Seq<char>, Seq<char>> {
        assoc_map(self.vars@)
    }

    /// Well-formed session state: variable names are pairwise distinct,
    /// and every stored number is an evaluator rendering.
    pub closed spec fn wf(&self) -> bool {
        &&& distinct_keys(self.vars@)
        &&& forall|i: int| 0 <= i < self.vars@.len() ==> rendered_value(#[trigger] self.vars@[i].1@)
        &&& match self.ans {
            Some(a) => rendered_value(a@),
            None => true,
        }
    }

    /// Creates a session with no previous answer and no variables.
    pub fn new() -> (p: Parser)
        ensures
            p.wf(),
            p.ans_view() is None,
            p.vars_map() == Map::<Seq<char>, Seq<char>>::empty(),
    {
        Parser { ans: None, vars: Vec::new() }
    }

    /// Looks a name up in the variable table.
    #[verifier::loop_isolation(false)]
    fn lookup_var(&self, w: &Vec<char>) -> (r: Option<&String>)
        requires
            self.wf(),
        ensures
            match r {
                Some(v) => self.vars_map().dom().contains(w@) && self.vars_map()[w@] == v@,
                None => !self.vars_map().dom().contains(w@),
            },
    {
        proof {
            lemma_assoc_map_props(self.vars@);
        }
        let mut k: usize = 0;
        while k < self.vars.len()
            invariant
                0 <= k <= self.vars@.len(),
                forall|x: int| 0 <= x < k ==> self.vars@[x].0@ != w@,
            decreases self.vars@.len() - k,
        {
            if str_eq_chars(self.vars[k].0.as_str(), w) {
                proof {
                    assert(self.vars@[k as int].0@ == w@);
                    assert(self.vars_map().dom().contains(self.vars@[k as int].0@));
                    assert(self.vars_map()[w@] == self.vars@[k as int].1@);
                }
                return Some(&self.vars[k].1);
            }
            k += 1;
        }
        proof {
            assert(forall|x: int| 0 <= x < self.vars@.len() ==> self.vars@[x].0@ != w@);
        }
        None
    }

    /// Stores a value under a name, overwriting an existing entry for the
    /// same name in place.
    #[verifier::loop_isolation(false)]
    fn insert_var(&mut self, name: &Vec<char>, value: String)
        requires
            old(self).wf(),
            rendered_value(value@),
        ensures
            final(self).wf(),
            final(self).vars_map() == old(self).vars_map().insert(name@, value@),
            final(self).ans == old(self).ans,
    {
        let mut k: usize = 0;
        while k < self.vars.len()
            invariant
                self.wf(),
                *self == *old(self),
                0 <= k <= self.vars@.len(),
                forall|x: int| 0 <= x < k ==> self.vars@[x].0@ != name@,
            decreases self.vars@.len() - k,
        {
            if str_eq_chars(self.vars[k].0.as_str(), name) {
                let key = self.vars[k].0.clone();
                let ghost l0 = self.vars@;
                let ghost val = value@;
                self.vars[k] = (key, value);
                proof {
                    assert(l0 == old(self).vars@);
                    assert(self.vars@ =~= l0.update(k as int, self.vars@[k as int]));
                    assert(self.vars@[k as int].0 == l0[k as int].0);
                    assert(self.vars@[k as int].0@ == name@);
                    lemma_assoc_map_update(l0, k as int, self.vars@[k as int]);
                    assert(forall|x: int|
                        0 <= x < self.vars@.len() && x != k ==> self.vars@[x] == l0[x]);
                    assert forall|x: int, y: int|
                        0 <= x < y < self.vars@.len() implies self.vars@[x].0@
                        != self.vars@[y].0@ by {
                        assert(self.vars@[x].0@ == l0[x].0@);
                        assert(self.vars@[y].0@ == l0[y].0@);
                    }
                    assert forall|x: int| 0 <= x < self.vars@.len() implies rendered_value(
                        #[trigger] self.vars@[x].1@,
                    ) by {
                        if x != k {
                            assert(self.vars@[x] == l0[x]);
                            assert(rendered_value(l0[x].1@));
                        } else {
                            assert(self.vars@[x].1@ == val);
                        }
                    }
                }
                return ;
            }
            k += 1;
        }
        let key = chars_to_string(name);
        let ghost l0 = self.vars@;
        self.vars.push((key, value));
        proof {
            lemma_assoc_map_push(l0, self.vars@.last());
            assert(forall|x: int| 0 <= x < l0.len() ==> self.vars@[x] == l0[x]);
        }
    }

    /// Applies whole-word variable substitution to a line, replacing each
    /// maximal word-character run that names a variable by its value.
    #[verifier::rlimit(60)]
    fn subst_vars_exec(&self, s: &Vec<char>) -> (r: Vec<char>)
        requires
            self.wf(),
        ensures
            r@ == subst_vars(s@, self.vars_map()),
    {
        let ghost m = self.vars_map();
        let mut r: Vec<char> = Vec::new();
        let mut i: usize = 0;
        proof {
            assert(s@.skip(0) =~= s@);
            assert(Seq::<char>::empty() + subst_vars(s@, m) =~= subst_vars(s@, m));
        }
        while i < s.len()
            invariant
                self.wf(),
                m == self.vars_map(),
                0 <= i <= s@.len(),
                r@ + subst_vars(s@.skip(i as int), m) == subst_vars(s@, m),
            decreases s@.len() - i,
        {
            let ghost tail = s@.skip(i as int);
            let ghost r0 = r@;
            if !is_word_char(s[i]) {
                proof {
                    assert(tail.skip(1) =~= s@.skip(i + 1));
                    assert((r0 + seq![tail[0]]) + subst_vars(s@.skip(i + 1), m) =~= r0 + (seq![
                        tail[0],
                    ] + subst_vars(s@.skip(i + 1), m)));
                }
                r.push(s[i]);
                i += 1;
            } else {
                let mut j: usize = i;
                while j < s.len() && is_word_char(s[j])
                    invariant
                        i <= j <= s@.len(),
                        forall|x: int| i <= x < j ==> word_char(s@[x]),
                    decreases s@.len() - j,
                {
                    j += 1;
                }
                proof {
                    lemma_word_len_run(tail, (j - i) as int);
                    assert(word_len(tail) == j - i);
                }
                let w = subrange_chars(s, i, j);
                proof {
                    assert(w@ =~= tail.take((j - i) as int));
                }
                let rep_opt = self.lookup_var(&w);
                match rep_opt {
                    Some(v) => {
                        append_str_chars(&mut r, v.as_str());
                    },
                    None => {
                        append_chars(&mut r, &w);
                    },
                }
                proof {
                    let n = word_len(tail) as int;
                    let tok = tail.take(n);
                    let rep = if m.dom().contains(tok) {
                        m[tok]
                    } else {
                        tok
                    };
                    assert(subst_vars(tail, m) == rep + subst_vars(tail.skip(n), m));
                    assert(r@ =~= r0 + rep);
                    assert(tail.skip(n) =~= s@.skip(i + n));
                    assert((r0 + rep) + subst_vars(s@.skip(i + n), m) =~= r0 + (rep + subst_vars(
                        s@.skip(i + n),
                        m,
                    )));
                }
                i = j;
            }
        }
        proof {
            assert(s@.skip(s@.len() as int) =~= Seq::<char>::empty());
            assert(r@ + Seq::<char>::empty() =~= r@);
        }
        r
    }

    /// Parses one input line through the rewrite pipeline and evaluates
    /// it, returning the result message or an error. A previous answer is
    /// referenced by the token `ans` or by opening the line with an
    /// operator; `=name` saves the previous answer under `name`;
    /// `name=expr` assigns; anything else is evaluated. State changes
    /// only on a successful save, assignment or evaluation.
    pub fn parse(&mut self, input: &str) -> (r: Result<String, String>)
        requires
            old(self).wf(),
        ensures
            final (self).wf(),
            result_view(r) == spec_parse(
                old(self).ans_view(),
                old(self).vars_map(),
                input@,
            ).0,
            final (self).ans_view() == spec_parse(
                old(self).ans_view(),
                old(self).vars_map(),
                input@,
            ).1,
            final (self).vars_map() == spec_parse(
                old(self).ans_view(),
                old(self).vars_map(),
                input@,
            ).2,
    {
        let ghost ans0 = self.ans_view();
        let ghost vars0 = self.vars_map();
        let ghost sp = spec_parse(ans0, vars0, input@);
        let chars = str_to_chars(input);
        let prev: Option<String> = match &self.ans {
            Some(a0) => Some(a0.clone()),
            None => None,
        };
        proof {
            assert(prev == self.ans);
        }
        // Stage 1: operator continuation.
        let line: Vec<char> = if chars.len() > 0 && is_operator_char(chars[0]) && prev.is_some() {
            let mut l: Vec<char> = Vec::new();
            l.push('a');
            l.push('n');
            l.push('s');
            append_chars(&mut l, &chars);
            proof {
                assert(l@ =~= seq!['a', 'n', 's'] + input@);
            }
            l
        } else {
            chars
        };
        proof {
            assert(line@ == with_continuation(ans0, input@));
        }
        // Stage 2: answer-save shortcut.
        if line.len() > 0 && line[0] == '=' {
            let rest = subrange_chars(&line, 1, line.len());
            proof {
                assert(rest@ =~= line@.skip(1));
            }
            let name = trim_chars(&rest);
            match prev {
                Some(a) => {
                    self.insert_var(&name, a);
                    let name_s = chars_to_string(&name);
                    let msg = String::from_str("Saved answer to variable '").concat(
                        name_s.as_str(),
                    ).concat("'");
                    proof {
                        assert(msg@ =~= msg_saved(trim(line@.skip(1))));
                    }
                    return Ok(msg);
                },
                None => {
                    return Err(String::from_str("No previous answer available to save"));
                },
            }
        }
        // Stage 3: locale separator normalization.
        let norm = normalize_chars(&line);
        // Stage 4: previous-answer substitution.
        let solved_pre: Vec<char> = match &prev {
            Some(a0) => {
                let av = str_to_chars(a0.as_str());
                replace_ans_chars(&norm, &av)
            },
            None => {
                if contains_ans_chars(&norm) {
                    return Err(String::from_str("No previous answer available for 'ans'"));
                }
                norm
            },
        };
        proof {
            assert(solved_pre@ == apply_ans(ans0, normalize_separators(line@)));
        }
        // Stage 5: variable substitution.
        let solved = self.subst_vars_exec(&solved_pre);
        // Stage 6: assignment detection.
        match find_eq_chars(&solved) {
            Some(p) => {
                proof {
                    assert(p < solved@.len());
                }
                let name_part = subrange_chars(&solved, 0, p);
                let expr_part = subrange_chars(&solved, p + 1, solved.len());
                proof {
                    assert(name_part@ =~= solved@.take(p as int));
                    assert(expr_part@ =~= solved@.skip(p + 1));
                }
                let name = trim_chars(&name_part);
                if !is_valid_name(&name) {
                    let name_s = chars_to_string(&name);
                    let msg = String::from_str("Invalid variable name: '").concat(
                        name_s.as_str(),
                    ).concat("'");
                    proof {
                        assert(msg@ =~= msg_invalid_name(trim(solved@.take(p as int))));
                    }
                    return Err(msg);
                }
                let expr = trim_chars(&expr_part);
                let expr2: Vec<char> = match &prev {
                    Some(a0) => {
                        let av = str_to_chars(a0.as_str());
                        replace_ans_chars(&expr, &av)
                    },
                    None => {
                        if contains_ans_chars(&expr) {
                            return Err(
                                String::from_str("No previous answer available for 'ans'"),
                            );
                        }
                        expr
                    },
                };
                proof {
                    assert(expr2@ == apply_ans(ans0, trim(solved@.skip(p + 1))));
                }
                let expr3 = self.subst_vars_exec(&expr2);
                if is_blank_chars(&expr3) {
                    return Err(String::from_str("Cannot evaluate an empty expression"));
                }
                let es = chars_to_string(&expr3);
                match evaluate(es.as_str()) {
                    Ok(v) => {
                        let vc = v.clone();
                        self.insert_var(&name, v);
                        self.ans = Some(vc.clone());
                        let name_s = chars_to_string(&name);
                        let msg = name_s.concat(" = ").concat(vc.as_str());
                        proof {
                            assert(msg@ =~= msg_assigned(name@, vc@));
                        }
                        Ok(msg)
                    },
                    Err(e) => Err(e),
                }
            },
            None => {
                // Stage 7: plain evaluation.
                if is_blank_chars(&solved) {
                    return Err(String::from_str("Cannot evaluate an empty expression"));
                }
                let s_out = chars_to_string(&solved);
                match evaluate(s_out.as_str()) {
                    Ok(v) => {
                        let msg = String::from_str("= ").concat(v.as_str());
                        proof {
                            assert(msg@ =~= msg_result(v@));
                        }
                        self.ans = Some(v);
                        Ok(msg)
                    },
                    Err(e) => Err(e),
                }
            },
        }
    }
}

/// The line after the operator-continuation stage: when a previous answer
/// exists and the line opens with an arithmetic operator, the token `ans`
/// is prepended, so that `+3` reads as `ans+3`.
pub open spec fn with_continuation(ans: Option<Seq<char>>, s: Seq<char>) -> Seq<char> {
    if s.len() > 0 && operator_char(s[0]) && ans is Some {
        seq!['a', 'n', 's'] + s
    } else {
        s
    }
}

/// The `ans` substitution: when a previous answer exists, every literal
/// occurrence of `ans` is replaced by its rendering.
pub open spec fn apply_ans(ans: Option<Seq<char>>, s: Seq<char>) -> Seq<char> {
    match ans {
        Some(a) => replace_ans(s, a),
        None => s,
    }
}

/// Confirmation message for the answer-save shortcut.
pub open spec fn msg_saved(name: Seq<char>) -> Seq<char> {
    "Saved answer to variable '"@ + name + "'"@
}

/// Error raised by the answer-save shortcut when no previous answer exists.
pub open spec fn err_no_answer_to_save() -> Seq<char> {
    "No previous answer available to save"@
}

/// Error raised when the line references `ans` but no previous answer exists.
pub open spec fn err_ans_unavailable() -> Seq<char> {
    "No previous answer available for 'ans'"@
}

/// Error raised when the text left for the evaluator is only whitespace.
pub open spec fn err_blank_expression() -> Seq<char> {
    "Cannot evaluate an empty expression"@
}

/// Error raised by assignment detection on a malformed variable name.
pub open spec fn msg_invalid_name(name: Seq<char>) -> Seq<char> {
    "Invalid variable name: '"@ + name + "'"@
}

/// Confirmation message for a variable assignment.
pub open spec fn msg_assigned(name: Seq<char>, v: Seq<char>) -> Seq<char> {
    name + " = "@ + v
}

/// Message for a plain successful evaluation.
pub open spec fn msg_result(v: Seq<char>) -> Seq<char> {
    "= "@ + v
}

/// The view of an exec parse result.
pub open spec fn result_view(r: Result<String, String>) -> Result<Seq<char>, Seq<char>> {
    match r {
        Ok(s) => Ok(s@),
        Err(s) => Err(s@),
    }
}

/// The assignment stage, applied to the substituted line `solved` whose
/// first `=` stands at position `p`: the name before it is validated, the
/// expression after it goes once more through the `ans` and variable
/// substitutions, and the evaluator's answer is stored under the name and
/// as the new previous answer. Whitespace-only expression text is
/// rejected before the evaluator sees it.
pub open spec fn spec_assign(
    ans: Option<Seq<char>>,
    vars: Map<Seq<char>, Seq<char>>,
    solved: Seq<char>,
    p: int,
) -> (Result<Seq<char>, Seq<char>>, Option<Seq<char>>, Map<Seq<char>, Seq<char>>) {
    let name = trim(solved.take(p));
    let expr = trim(solved.skip(p + 1));
    if !valid_name(name) {
        (Err(msg_invalid_name(name)), ans, vars)
    } else if contains_ans(expr) && ans is None {
        (Err(err_ans_unavailable()), ans, vars)
    } else {
        let expr2 = subst_vars(apply_ans(ans, expr), vars);
        if blank(expr2) {
            (Err(err_blank_expression()), ans, vars)
        } else {
            match eval_result(expr2) {
                Ok(v) => (Ok(msg_assigned(name, v)), Some(v), vars.insert(name, v)),
                Err(e) => (Err(e), ans, vars),
            }
        }
    }
}

/// One line through the whole rewrite pipeline, as a function of the
/// session state and the input: the result (or error) text, the new
/// previous answer, and the new variable table. The stages run in order:
/// operator continuation, answer-save shortcut, locale separator
/// normalization, `ans` substitution, whole-word variable substitution,
/// assignment detection, plain evaluation. Whitespace-only text is
/// rejected instead of being handed to the evaluator. State changes only
/// on a successful save, assignment or evaluation.
pub open spec fn spec_parse(
    ans: Option<Seq<char>>,
    vars: Map<Seq<char>, Seq<char>>,
    input: Seq<char>,
) -> (Result<Seq<char>, Seq<char>>, Option<Seq<char>>, Map<Seq<char>, Seq<char>>) {
    let line = with_continuation(ans, input);
    if line.len() > 0 && line[0] == '=' {
        let name = trim(line.skip(1));
        match ans {
            Some(a) => (Ok(msg_saved(name)), ans, vars.insert(name, a)),
            None => (Err(err_no_answer_to_save()), ans, vars),
        }
    } else {
        let norm = normalize_separators(line);
        if contains_ans(norm) && ans is None {
            (Err(err_ans_unavailable()), ans, vars)
        } else {
            let solved = subst_vars(apply_ans(ans, norm), vars);
            match find_eq(solved) {
                Some(p) => spec_assign(ans, vars, solved, p),
                None => if blank(solved) {
                    (Err(err_blank_expression()), ans, vars)
                } else {
                    match eval_result(solved) {
                        Ok(v) => (Ok(msg_result(v)), Some(v), vars),
                        Err(e) => (Err(e), ans, vars),
                    }
                },
            }
        }
    }
}

} // verus!

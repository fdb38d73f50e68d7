//! Boundary to the external arithmetic evaluator. The pipeline hands it a
//! normalized expression string and receives either the decimal rendering
//! of the numeric result or an opaque error message.

use vstd::prelude::*;

use crate::text::blank;

verus! {

/// Characters that can appear in the evaluator's rendering of a numeric
/// result: digits, sign, decimal point, and the letters of `inf` and
/// `NaN`. Notably absent: `=`, `,`, `;`, whitespace, and `s` (so a
/// rendered value can never contain the token `ans`).
pub open spec fn value_char(c: char) -> bool {
    ('0' <= c && c <= '9') || c == '.' || c == '-' || c == 'i' || c == 'n' || c == 'f' || c == 'N'
        || c == 'a'
}

/// Text made only of value characters, as every stored number is.
pub open spec fn plain_value(s: Seq<char>) -> bool {
    forall|i: int| 0 <= i < s.len() ==> value_char(s[i])
}

/// Characters a rendering can end with: the last digit of a finite
/// number, the `f` of `inf`, or the `N` of `NaN`.
pub open spec fn value_end_char(c: char) -> bool {
    ('0' <= c && c <= '9') || c == 'f' || c == 'N'
}

/// A rendering as `f64`'s `Display` produces it: non-empty plain text
/// whose last character is a digit, `f` or `N`. In particular it never
/// ends in `a` or `n`, so a replacement by such text cannot leave the
/// front of an `ans` token standing before following characters.
pub open spec fn rendered_value(s: Seq<char>) -> bool {
    plain_value(s) && s.len() > 0 && value_end_char(s[s.len() - 1])
}

/// What the external evaluator answers on a given expression text: either
/// the decimal rendering of the numeric result or an error message. The
/// outcome is a function of the expression text alone.
pub uninterp spec fn eval_result(s: Seq<char>) -> Result<Seq<char>, Seq<char>>;

/// Relies on `meval::eval_str`: parses and evaluates an arithmetic
/// expression with meval's built-in functions and constants, returning a
/// number or an error, as a function of the expression text alone.
/// meval's tokenizer panics on text that is non-empty but all
/// whitespace (its token parsers report incomplete input there, which
/// the tokenizer does not handle); the precondition keeps such text
/// out, and the pipeline answers it with its own error instead. Empty
/// text is answered with a missing-argument error, not a panic. The
/// `Ok` text is `f64`'s `Display` rendering of the result, which std
/// documents as non-empty decimal digits with an optional sign and
/// decimal point, or `inf`/`-inf`/`NaN` — so ending in a digit, `f` or
/// `N`; the `Err` text is the error's `Display` rendering.
#[verifier::external_body]
pub(crate) fn evaluate(s: &str) -> (r: Result<String, String>)
    requires
        !blank(s@),
    ensures
        match eval_result(s@) {
            Ok(v) => r matches Ok(out) && out@ == v && rendered_value(v),
            Err(e) => r matches Err(out) && out@ == e,
        },
{
    match meval::eval_str(s) {
        Ok(v) => Ok(v.to_string()),
        Err(e) => Err(e.to_string()),
    }
}

} // verus!

//! What the library has from outside: text building from std, and the
//! expression grammar of Rust from `syn` and `proc-macro2`.

use vstd::prelude::*;

verus! {

/// How a piece of source text reads as one Rust expression.
#[derive(Clone, Copy, Debug, PartialEq, Eq, Structural)]
pub enum ExprKind {
    /// The text is one closure expression.
    Closure,
    /// The text is one expression of any other form.
    Plain,
    /// The text is not one expression.
    Invalid,
}

/// The verdict on a text of `syn::parse_str::<syn::Expr>`, run with the
/// `full` grammar of `syn` on the tokens that the lexer of `proc-macro2`
/// itself reads from the text: `Invalid` where it returns an error, `Closure`
/// where it returns `syn::Expr::Closure`, `Plain` for every other expression.
/// It is not the verdict of the lexer of a compiler, which `proc-macro2`
/// would use inside a macro expansion if it were left to choose.
pub uninterp spec fn expr_kind(text: Seq<char>) -> ExprKind;

/// Parses `text` with `syn::parse_str::<syn::Expr>`, which lexes the whole
/// text and reads it as exactly one expression: tokens left over are an
/// error. Before the call stands `proc_macro2::fallback::force`, which makes
/// `proc-macro2` lex with its own lexer whether or not the process is
/// expanding a macro. The switch is one flag of the process and is left set:
/// a caller that wants the lexer of the compiler back calls
/// `proc_macro2::fallback::unforce` once the library has returned. Nothing is
/// proved of the answer; the contract claims only that it is a function of
/// the text, and names that function [`expr_kind`].
#[verifier::external_body]
pub(crate) fn classify_text(text: &str) -> (kind: ExprKind)
    ensures
        kind == expr_kind(text@),
{
    proc_macro2::fallback::force();
    match syn::parse_str::<syn::Expr>(text) {
        Ok(syn::Expr::Closure(_)) => ExprKind::Closure,
        Ok(_) => ExprKind::Plain,
        Err(_) => ExprKind::Invalid,
    }
}

/// `String::push` of std: appends one character to the end of the string.
#[verifier::external_body]
pub(crate) fn push_char(out: &mut String, c: char)
    ensures
        final(out)@ == old(out)@.push(c),
{
    out.push(c)
}

} // verus!

//! Inline math: the expression between two `$` is handed to KaTeX, and what
//! comes back is wrapped for the page. A rendering that succeeds is decided
//! by the expression; whether it succeeds is not, so a failure is an outcome
//! that every caller provides for.

use crate::utils::{error_fragment, html_error};
use vstd::prelude::*;
use vstd::string::StringExecFns;

verus! {

/// `katex::Error`, with which a rendering fails. It is carried from the call
/// to the place that drops it; nothing is read from it.
#[verifier::external_type_specification]
#[verifier::external_body]
pub struct ExKatexError(katex::Error);

/// The MathML that KaTeX renders for `expression`, where it renders it.
pub uninterp spec fn katex_mathml(expression: Seq<char>) -> Seq<char>;

/// `katex::render_with_opts` with the output type set to MathML and every
/// other option left at its default. Nothing is proved of it. The contract
/// speaks of a rendering that succeeded only: its markup is the one named
/// `katex_mathml`, so it depends on the expression alone; KaTeX gets a fresh
/// set of options and macros with each call and keeps nothing of an earlier
/// one. Of a failure it says nothing: whether the engine fails depends on
/// more than the expression, such as the depth of the stack at the call.
#[verifier::external_body]
fn katex_render(expression: &str) -> (rendered: Result<String, katex::Error>)
    ensures
        rendered matches Ok(markup) ==> markup@ == katex_mathml(expression@),
{
    let mut opts = katex::Opts::default();
    opts.set_output_type(katex::OutputType::Mathml);
    katex::render_with_opts(expression, &opts)
}

/// The span that stands for an inline expression: the rendered markup in a
/// `katex` span, or an error fragment where rendering failed.
pub open spec fn math_span(rendered: Option<Seq<char>>) -> Seq<char> {
    match rendered {
        Some(markup) => "<span class=\"katex\">"@ + markup + "</span>"@,
        None => error_fragment("Math could not be rendered"@),
    }
}

/// Renders `expression` with KaTeX; `None` stands for a failure. A
/// rendering that succeeds is the one that KaTeX gives for the expression;
/// whether it succeeds is not decided by the expression alone.
pub fn render_math(expression: &str) -> (rendered: Option<String>)
    ensures
        rendered matches Some(markup) ==> markup@ == katex_mathml(expression@),
{
    match katex_render(expression) {
        Ok(markup) => Some(markup),
        Err(_) => None,
    }
}

/// Wraps the outcome of a rendering as the span that goes into the output.
pub fn math_fragment(rendered: Option<String>) -> (html: String)
    ensures
        html@ == math_span(
            match rendered {
                Some(markup) => Some(markup@),
                None => None,
            },
        ),
{
    match rendered {
        Some(markup) => {
            let mut html = String::from_str("<span class=\"katex\">");
            html.append(markup.as_str());
            html.append("</span>");
            html
        },
        None => html_error("Math could not be rendered"),
    }
}

} // verus!

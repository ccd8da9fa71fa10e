//! The error fragment: how a failure is shown inside the output instead of
//! ending the run.

use vstd::prelude::*;
use vstd::string::StringExecFns;

verus! {

/// The markup that shows `message` as an error, in red, in the flow of the
/// output.
pub open spec fn error_fragment(message: Seq<char>) -> Seq<char> {
    "<span style=\"color: red;\">"@ + message + "</span>"@
}

/// Wraps `message` as an error fragment.
pub fn html_error(message: &str) -> (html: String)
    ensures
        html@ == error_fragment(message@),
{
    let mut html = String::from_str("<span style=\"color: red;\">");
    html.append(message);
    html.append("</span>");
    html
}

} // verus!

use moth::math::{math_fragment, render_math};
use moth::parsing::parse_markdown_line;

#[test]
fn math_is_rendered_as_mathml() {
    let html = parse_markdown_line("$x^2$");
    assert!(html.starts_with("<span class=\"katex\">"));
    assert!(html.ends_with("</span>"));
    assert!(html.contains("<math"));
    assert_ne!(html, "<span class=\"katex\">x^2</span>");
}

#[test]
fn math_stands_between_the_text_around_it() {
    let html = parse_markdown_line("a $b$ c");
    assert!(html.starts_with("a <span class=\"katex\">"));
    assert!(html.ends_with("</span> c"));
}

#[test]
fn rendering_twice_gives_the_same_markup() {
    let first = render_math("\\frac{1}{2}");
    let second = render_math("\\frac{1}{2}");
    assert!(first.is_some());
    assert_eq!(first, second);
}

#[test]
fn invalid_math_gives_an_error_fragment() {
    assert_eq!(render_math("\\frac{"), None);
    assert_eq!(
        parse_markdown_line("a $\\frac{$ b"),
        "a <span style=\"color: red;\">Math could not be rendered</span> b"
    );
}

#[test]
fn a_rendering_is_wrapped_in_a_span() {
    assert_eq!(
        math_fragment(Some(String::from("<math></math>"))),
        "<span class=\"katex\"><math></math></span>"
    );
    assert_eq!(
        math_fragment(None),
        "<span style=\"color: red;\">Math could not be rendered</span>"
    );
}

#[test]
fn math_in_a_deep_list_is_rendered_or_marked() {
    let rendered = parse_markdown_line("$x$");
    let marked = "<span style=\"color: red;\">Math could not be rendered</span>";
    let depth = 300;
    let mut document = String::from("$x$\n");
    for level in 0..depth {
        document.push_str(&"\t".repeat(level));
        document.push_str("- a\n");
    }
    document.push_str(&"\t".repeat(depth));
    document.push_str("$x$");
    let html = moth::layer::transpile(&document, false, &vec![]);
    assert!(html.starts_with(rendered.as_str()));
    let at_depth = format!("<li>a<p>{rendered}<span class='small-space'></span></p>\n</li>");
    let failed_at_depth = format!("<li>a<p>{marked}<span class='small-space'></span></p>\n</li>");
    assert!(html.contains(at_depth.as_str()) || html.contains(failed_at_depth.as_str()));
}

#[test]
fn a_line_without_math_asks_nothing_of_the_renderer() {
    assert_eq!(parse_markdown_line("a $ b"), "a $ b");
    assert_eq!(parse_markdown_line("`x` $"), "<pre><code>x</code></pre> $");
}

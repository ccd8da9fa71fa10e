use moth::images::ImageFile;
use moth::layer::{
    check_list_type, clamped_nb_leading_tabs, image_paths, process_layer, transpile,
};
use moth::types::{LineTracker, ListType};

const SPACER: &str = "<span class='small-space'></span>";
const UNCLOSED: &str = "<span style=\"color: red;\">Block was not closed</span>";

fn render(content: &str) -> String {
    transpile(content, false, &vec![])
}

#[test]
fn a_blank_line_is_one_spacer() {
    assert_eq!(render("\n"), SPACER);
    assert_eq!(render("   "), SPACER);
    assert_eq!(render("\t \t"), SPACER);
    assert_eq!(render("\u{a0}\u{2003}"), SPACER);
}

#[test]
fn an_empty_document_is_empty() {
    assert_eq!(render(""), "");
}

#[test]
fn each_blank_line_gives_its_spacer() {
    assert_eq!(render("\n\n\n"), format!("{SPACER}{SPACER}{SPACER}"));
    assert_eq!(render("a\n\nb"), format!("a{SPACER}{SPACER}b{SPACER}"));
}

#[test]
fn a_line_of_text_ends_with_a_spacer() {
    assert_eq!(render("hello *you*"), format!("hello <em>you</em>{SPACER}"));
}

#[test]
fn a_backslash_joins_a_line_to_the_next() {
    assert_eq!(render("hello\\"), "hello");
    assert_eq!(render("a\\\nb"), format!("ab{SPACER}"));
    assert_eq!(render("\\"), "");
}

#[test]
fn a_nested_list_is_the_body_of_its_item() {
    assert_eq!(
        render("- a\n\t- b"),
        "<ul><li>a<p><ul><li>b</li>\n</ul></p>\n</li>\n</ul>"
    );
}

#[test]
fn items_follow_each_other_in_one_list() {
    assert_eq!(render("- a\n* b"), "<ul><li>a</li>\n<li>b</li>\n</ul>");
    assert_eq!(render("1.a\n2.b"), "<ol><li>a</li>\n<li>b</li>\n</ol>");
}

#[test]
fn a_marker_is_two_characters() {
    assert_eq!(render("1. a"), "<ol><li> a</li>\n</ol>");
    assert_eq!(render("-  a"), "<ul><li> a</li>\n</ul>");
    assert_eq!(render("* "), "<ul><li></li>\n</ul>");
}

#[test]
fn an_open_list_keeps_its_kind() {
    assert_eq!(render("- a\n1.b"), "<ul><li>a</li>\n<li>b</li>\n</ul>");
    assert_eq!(render("1.a\n- b"), "<ol><li>a</li>\n<li>b</li>\n</ol>");
}

#[test]
fn a_line_that_is_no_item_closes_the_list() {
    assert_eq!(
        render("- a\ntext\n- b"),
        format!("<ul><li>a</li>\n</ul>text{SPACER}<ul><li>b</li>\n</ul>")
    );
}

#[test]
fn a_blank_line_does_not_close_the_list() {
    assert_eq!(
        render("- a\n\n- b"),
        format!("<ul><li>a<p>{SPACER}</p>\n</li>\n<li>b</li>\n</ul>")
    );
}

#[test]
fn the_title_of_an_item_is_scanned() {
    assert_eq!(
        render("- *a* `b`"),
        "<ul><li><em>a</em> <pre><code>b</code></pre></li>\n</ul>"
    );
}

#[test]
fn the_body_of_an_item_may_hold_text() {
    assert_eq!(
        render("- a\n\tmore\n\t# h\n- b"),
        format!("<ul><li>a<p>more{SPACER}<h1> h</h1></p>\n</li>\n<li>b</li>\n</ul>")
    );
}

#[test]
fn lists_nest_three_deep() {
    assert_eq!(
        render("- a\n\t1.b\n\t\t- c\n\t2.d\n- e"),
        "<ul><li>a<p><ol><li>b<p><ul><li>c</li>\n</ul></p>\n</li>\n<li>d</li>\n</ol></p>\n</li>\n<li>e</li>\n</ul>"
    );
}

#[test]
fn spaces_do_not_indent() {
    assert_eq!(
        render("- a\n    - b"),
        format!("<ul><li>a</li>\n</ul>    - b{SPACER}")
    );
}

#[test]
fn a_line_with_more_tabs_keeps_them() {
    assert_eq!(render("\ta"), format!("\ta{SPACER}"));
}

#[test]
fn a_shallow_line_is_left_for_the_caller() {
    let mut lines = LineTracker::new("\ta\n\t\tb\nc\n\td");
    assert_eq!(
        process_layer(&mut lines, 1, false, &vec![]),
        format!("a{SPACER}\tb{SPACER}")
    );
    assert_eq!(lines.next(), Some("c"));
    assert_eq!(process_layer(&mut lines, 1, false, &vec![]), format!("d{SPACER}"));
    assert_eq!(lines.next(), None);
}

#[test]
fn a_layer_that_owns_no_line_is_empty() {
    let mut lines = LineTracker::new("a\n\tb");
    assert_eq!(process_layer(&mut lines, 1, false, &vec![]), "");
    assert_eq!(lines.next(), Some("a"));
}

#[test]
fn a_layer_at_the_end_of_the_document_is_empty() {
    let mut lines = LineTracker::new("a");
    assert_eq!(lines.next(), Some("a"));
    assert_eq!(process_layer(&mut lines, 0, false, &vec![]), "");
    assert_eq!(lines.next(), None);
}

#[test]
fn a_heading_is_taken_whole() {
    assert_eq!(render("### Title"), "<h3> Title</h3>");
    assert_eq!(
        render("# a\ntext"),
        format!("<h1> a</h1>text{SPACER}")
    );
}

#[test]
fn three_dashes_make_a_rule() {
    assert_eq!(render("---"), "<hr>");
    assert_eq!(render("-----"), "<hr>");
    assert_eq!(render("--"), format!("--{SPACER}"));
}

#[test]
fn a_code_fence_copies_its_lines() {
    assert_eq!(
        render("```\nlet *x* = <1>;\n- no item\n```\nafter"),
        format!("<pre><code>let *x* = <1>;\n- no item\n</code></pre>after{SPACER}")
    );
}

#[test]
fn a_code_fence_may_name_a_language() {
    assert_eq!(
        render("```rust\nx\n``` end"),
        "<pre><code>x\n</code></pre>"
    );
}

#[test]
fn a_blank_line_in_a_code_fence_is_a_spacer() {
    assert_eq!(
        render("```\na\n\nb\n```"),
        format!("<pre><code>a\n{SPACER}b\n</code></pre>")
    );
}

#[test]
fn an_open_code_fence_is_an_error() {
    assert_eq!(render("```\ncode"), UNCLOSED);
    assert_eq!(render("before\n```"), UNCLOSED);
}

#[test]
fn raw_html_is_copied() {
    assert_eq!(
        render("<html>\n<b>*x*</b>\n# y\n</html>\n*z*"),
        format!("<b>*x*</b>\n# y\n<em>z</em>{SPACER}")
    );
}

#[test]
fn only_the_closing_line_ends_raw_html() {
    assert_eq!(
        render("<html>\n</html> x\n</html>"),
        "</html> x\n"
    );
}

#[test]
fn open_raw_html_is_an_error() {
    assert_eq!(render("<html>\n<b>"), UNCLOSED);
}

#[test]
fn a_line_that_only_starts_like_raw_html_is_text() {
    assert_eq!(render("<html> x"), format!(" x{SPACER}"));
}

#[test]
fn an_open_block_in_an_item_is_an_error_in_place() {
    assert_eq!(
        render("- a\n\t```\n\tcode\nb"),
        format!("<ul><li>a<p>{UNCLOSED}</p>\n</li>\n</ul>b{SPACER}")
    );
}

#[test]
fn a_shallow_line_ends_a_code_fence_of_the_layer() {
    let mut lines = LineTracker::new("\t```\n\tx\ny");
    assert_eq!(process_layer(&mut lines, 1, false, &vec![]), UNCLOSED);
    assert_eq!(lines.next(), Some("y"));
}

#[test]
fn an_image_stands_on_its_own_line() {
    assert_eq!(render("![x.png]"), "<img src=\"./x.png\"/>");
    assert_eq!(
        render("!x.png"),
        format!("!x.png{SPACER}")
    );
}

#[test]
fn images_are_embedded_from_the_files() {
    let images = vec![
        ImageFile { path: String::from("a.png"), content: Ok(vec![1, 2, 3]) },
        ImageFile { path: String::from("b.png"), content: Err(String::from("gone")) },
    ];
    assert_eq!(
        transpile("![a.png]\n- x\n\t![b.png]\n![c.png]", true, &images),
        "<img src=\"data:image/png;base64,AQID\" />\n<ul><li>x<p><p>Error loading image: gone</p>\n</p>\n</li>\n</ul><p>Error loading image: no such file</p>\n"
    );
}

#[test]
fn the_images_of_a_document_are_listed() {
    let paths = image_paths("![a.png]\n- x\n\t![b.png]\ntext ![no]\n```\n\t\t![c]\n```\n![a.png]");
    assert_eq!(paths, vec!["a.png", "b.png", "c", "a.png"]);
    assert_eq!(image_paths("no image"), Vec::<String>::new());
}

#[test]
fn rendering_twice_gives_the_same_text() {
    let content = "# t\n- a\n\t- *b*\n\n```\nx\n```\n![i.png]\n5$ <u>\n";
    let images = vec![ImageFile { path: String::from("i.png"), content: Ok(vec![9; 10]) }];
    assert_eq!(transpile(content, true, &images), transpile(content, true, &images));
    assert_eq!(transpile(content, false, &images), transpile(content, false, &vec![]));
}

#[test]
fn files_that_are_not_named_do_not_count() {
    let content = "![i.png]\ntext";
    let named = ImageFile { path: String::from("i.png"), content: Ok(vec![7]) };
    let again = ImageFile { path: String::from("i.png"), content: Ok(vec![7]) };
    let other = ImageFile { path: String::from("o.png"), content: Ok(vec![8]) };
    assert_eq!(
        transpile(content, true, &vec![named]),
        transpile(content, true, &vec![other, again])
    );
}

#[test]
fn list_markers_are_told_apart() {
    assert_eq!(check_list_type("- a"), Some(ListType::UL));
    assert_eq!(check_list_type("* a"), Some(ListType::UL));
    assert_eq!(check_list_type("- "), Some(ListType::UL));
    assert_eq!(check_list_type("1. a"), Some(ListType::OL));
    assert_eq!(check_list_type("0."), Some(ListType::OL));
    assert_eq!(check_list_type("9.x"), Some(ListType::OL));
    assert_eq!(check_list_type("12. a"), None);
    assert_eq!(check_list_type("-a"), None);
    assert_eq!(check_list_type("-"), None);
    assert_eq!(check_list_type("*"), None);
    assert_eq!(check_list_type(""), None);
    assert_eq!(check_list_type("a. b"), None);
    assert_eq!(check_list_type(" - a"), None);
    assert_eq!(check_list_type("\u{661}. a"), None);
}

#[test]
fn leading_tabs_are_counted_up_to_the_depth() {
    assert_eq!(clamped_nb_leading_tabs("\t\tx", 0), Some(0));
    assert_eq!(clamped_nb_leading_tabs("\t\tx", 1), Some(1));
    assert_eq!(clamped_nb_leading_tabs("\t\tx", 2), Some(2));
    assert_eq!(clamped_nb_leading_tabs("\t\tx", 3), None);
    assert_eq!(clamped_nb_leading_tabs("\t", 3), Some(1));
    assert_eq!(clamped_nb_leading_tabs("", 2), Some(0));
    assert_eq!(clamped_nb_leading_tabs("x", 0), Some(0));
    assert_eq!(clamped_nb_leading_tabs(" \tx", 1), None);
    assert_eq!(clamped_nb_leading_tabs("\t x", 2), None);
}

use moth::parsing::parse_heading;

#[test]
fn three_hashes_make_a_level_three_heading() {
    assert_eq!(parse_heading("### Title"), "<h3> Title</h3>");
}

#[test]
fn the_content_of_a_heading_is_not_trimmed() {
    assert_eq!(parse_heading("#  a  "), "<h1>  a  </h1>");
    assert_eq!(parse_heading("##a"), "<h2>a</h2>");
}

#[test]
fn each_level_has_its_tag() {
    assert_eq!(parse_heading("# a"), "<h1> a</h1>");
    assert_eq!(parse_heading("## a"), "<h2> a</h2>");
    assert_eq!(parse_heading("#### a"), "<h4> a</h4>");
    assert_eq!(parse_heading("##### a"), "<h5> a</h5>");
    assert_eq!(parse_heading("###### a"), "<h6> a</h6>");
}

#[test]
fn a_longer_run_is_level_six() {
    assert_eq!(parse_heading("####### x"), "<h6> x</h6>");
    assert_eq!(parse_heading("##########"), "<h6></h6>");
}

#[test]
fn a_line_without_hashes_is_level_one() {
    assert_eq!(parse_heading("no hash"), "<h1>no hash</h1>");
    assert_eq!(parse_heading(""), "<h1></h1>");
}

#[test]
fn a_heading_is_not_scanned_for_inline_markup() {
    assert_eq!(parse_heading("# *a* `b` <c>"), "<h1> *a* `b` <c></h1>");
}

#[test]
fn hashes_inside_the_content_stay() {
    assert_eq!(parse_heading("## a # b"), "<h2> a # b</h2>");
}

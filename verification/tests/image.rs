use moth::images::{
    data_uri_image_html, embed_image, encode_image, find_image, image_error_html, ImageFile,
};
use moth::parsing::image_parser;

fn file(path: &str, content: Result<Vec<u8>, String>) -> ImageFile {
    ImageFile { path: String::from(path), content }
}

#[test]
fn an_image_is_referred_to_by_path() {
    assert_eq!(
        image_parser("![x.png]", false, &vec![]),
        Some(String::from("<img src=\"./x.png\"/>"))
    );
}

#[test]
fn the_path_ends_at_the_first_bracket() {
    assert_eq!(
        image_parser("![a/b.png] and ] more", false, &vec![]),
        Some(String::from("<img src=\"./a/b.png\"/>"))
    );
}

#[test]
fn a_path_without_bracket_runs_to_the_end() {
    assert_eq!(
        image_parser("![x.png", false, &vec![]),
        Some(String::from("<img src=\"./x.png\"/>"))
    );
    assert_eq!(
        image_parser("![", false, &vec![]),
        Some(String::from("<img src=\"./\"/>"))
    );
}

#[test]
fn a_path_beyond_ascii_is_kept() {
    assert_eq!(
        image_parser("![été.png]", false, &vec![]),
        Some(String::from("<img src=\"./été.png\"/>"))
    );
}

#[test]
fn a_line_without_the_prefix_is_no_image() {
    assert_eq!(image_parser("!x.png]", false, &vec![]), None);
    assert_eq!(image_parser("[x.png]", false, &vec![]), None);
    assert_eq!(image_parser("x[y]", false, &vec![]), None);
    assert_eq!(image_parser("!", false, &vec![]), None);
    assert_eq!(image_parser("", true, &vec![]), None);
}

#[test]
fn referring_does_not_read_the_files() {
    let images = vec![file("x.png", Ok(vec![1, 2, 3]))];
    assert_eq!(
        image_parser("![x.png]", false, &images),
        Some(String::from("<img src=\"./x.png\"/>"))
    );
}

#[test]
fn an_embedded_image_carries_its_bytes() {
    let images = vec![file("x.png", Ok(vec![1, 2, 3]))];
    assert_eq!(
        image_parser("![x.png]", true, &images),
        Some(String::from("<img src=\"data:image/png;base64,AQID\" />\n"))
    );
}

#[test]
fn bytes_are_encoded_with_padding() {
    assert_eq!(encode_image(b"hello world~"), Some(String::from("aGVsbG8gd29ybGR+")));
    assert_eq!(encode_image(b"a"), Some(String::from("YQ==")));
    assert_eq!(encode_image(&[0xff, 0xfe]), Some(String::from("//4=")));
    assert_eq!(encode_image(b""), Some(String::new()));
}

#[test]
fn a_failed_read_gives_an_error_paragraph() {
    let images = vec![file("x.png", Err(String::from("permission denied")))];
    assert_eq!(
        image_parser("![x.png]", true, &images),
        Some(String::from("<p>Error loading image: permission denied</p>\n"))
    );
}

#[test]
fn a_file_that_is_not_listed_gives_an_error_paragraph() {
    let images = vec![file("y.png", Ok(vec![1]))];
    assert_eq!(
        image_parser("![x.png]", true, &images),
        Some(String::from("<p>Error loading image: no such file</p>\n"))
    );
    assert_eq!(
        image_parser("![x.png]", true, &vec![]),
        Some(String::from("<p>Error loading image: no such file</p>\n"))
    );
}

#[test]
fn the_first_of_two_entries_counts() {
    let images = vec![
        file("x.png", Ok(vec![1, 2, 3])),
        file("x.png", Err(String::from("later"))),
    ];
    assert_eq!(find_image(&images, "x.png"), Some(&images[0]));
    assert_eq!(find_image(&images, "z.png"), None);
    assert_eq!(
        embed_image(&images, &['x', '.', 'p', 'n', 'g']),
        "<img src=\"data:image/png;base64,AQID\" />\n"
    );
}

#[test]
fn the_fragments_wrap_what_they_are_given() {
    assert_eq!(
        data_uri_image_html("QUJD"),
        "<img src=\"data:image/png;base64,QUJD\" />\n"
    );
    assert_eq!(
        image_error_html("broken"),
        "<p>Error loading image: broken</p>\n"
    );
}

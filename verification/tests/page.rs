use moth::hot_reload::{
    file_reply, hot_reload_html, html_start, http_target, page_reply, HttpReply, HttpTarget,
};
use moth::utils::html_error;

#[test]
fn the_page_starts_with_the_document_type() {
    let head = html_start();
    assert!(head.starts_with("\n    <!doctype html>\n    <html>\n        <head>\n"));
    assert!(head.ends_with("            </style>\n        </head>\n    "));
    assert!(head.contains("                .small-space {\n                    display: block;\n                    height: 0.5em;\n                }\n"));
    assert_eq!(head.len(), 1490);
}

#[test]
fn the_preview_page_names_the_port() {
    let page = hot_reload_html(8000);
    assert!(page.starts_with(html_start().as_str()));
    assert!(page.contains("\n\t\t\t<script>\n\t            const ws = new WebSocket(\"ws://localhost:8000\");\n\t            ws.onmessage = (evt) => {\n"));
    assert!(page.ends_with("\t            };\n\t        </script>\n        \t<body></body>\n\t\t</html>\n\t\t"));
    assert_eq!(page.len(), 1490 + 67 + 4 + 387);
}

#[test]
fn the_port_is_written_in_decimal() {
    assert!(hot_reload_html(0).contains("\"ws://localhost:0\""));
    assert!(hot_reload_html(7).contains("\"ws://localhost:7\""));
    assert!(hot_reload_html(10).contains("\"ws://localhost:10\""));
    assert!(hot_reload_html(1005).contains("\"ws://localhost:1005\""));
    assert!(hot_reload_html(65535).contains("\"ws://localhost:65535\""));
    assert_eq!(hot_reload_html(65535).len(), 1490 + 67 + 5 + 387);
}

#[test]
fn the_root_is_the_preview_page() {
    assert_eq!(http_target("/"), HttpTarget::Page);
}

#[test]
fn any_other_url_is_a_file() {
    assert_eq!(http_target("/x.png"), HttpTarget::File(String::from("./x.png")));
    assert_eq!(http_target("/a/b.png"), HttpTarget::File(String::from("./a/b.png")));
    assert_eq!(http_target("//"), HttpTarget::File(String::from(".//")));
    assert_eq!(http_target(""), HttpTarget::File(String::from(".")));
}

#[test]
fn an_error_is_shown_in_red() {
    assert_eq!(
        html_error("Block was not closed"),
        "<span style=\"color: red;\">Block was not closed</span>"
    );
    assert_eq!(html_error(""), "<span style=\"color: red;\"></span>");
}

#[test]
fn the_page_is_sent_as_html() {
    let reply = page_reply(8000);
    assert_eq!(reply, HttpReply::Page(hot_reload_html(8000)));
    assert_eq!(reply.status(), 200);
    assert_eq!(reply.content_type(), Some("text/html; charset=utf-8"));
}

#[test]
fn a_file_is_sent_as_an_image() {
    let reply = file_reply(Some(vec![1, 2, 3]));
    assert_eq!(reply, HttpReply::Image(vec![1, 2, 3]));
    assert_eq!(reply.status(), 200);
    assert_eq!(reply.content_type(), Some("image/png"));
}

#[test]
fn a_file_that_cannot_be_read_is_not_found() {
    let reply = file_reply(None);
    assert_eq!(reply, HttpReply::NotFound);
    assert_eq!(reply.status(), 404);
    assert_eq!(reply.content_type(), None);
}

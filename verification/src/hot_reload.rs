//! The page around the output: the head that styles it, and the page that
//! the live preview serves, which replaces its body with each new rendering
//! that arrives on a web socket. Beside them, what the preview's HTTP side
//! answers to a request.

use vstd::prelude::*;
use vstd::string::StrSliceExecFns;
use vstd::string::StringExecFns;

verus! {

/// The start of a page: the document type, and the head with the style
/// sheet for the markup that this library writes.
pub const HTML_START: &'static str = r#"
    <!doctype html>
    <html>
        <head>
            <style>
                .small-space {
                    display: block;
                    height: 0.5em;
                }
                img {
                    display: block;
                    max-width: 100%;
                    height: auto;
                }
                body {
                    max-width: 1000px;
                    margin: 0 auto;
                }
                h1,
                h2,
                h3,
                h4,
                h5,
                h6 {
                    margin-top: 5px;
                    margin-bottom: 5px;
                }
                p {
                    margin-top: 5px;
                    margin-bottom: 5px;
                }
                .custom-br {
                    height: 15px;
                    display: block;
                    content: "";
                }

                code {
                    background: #e0e0e0;
                    padding: 2px 4px;
                    border-radius: 4px;
                    font-family: monospace;
                    font-size: 14px;
                }

                pre {
                    background: #e0e0e0;
                    padding: 10px;
                    border-radius: 6px;
                    overflow-x: auto;
                    font-family: monospace;
                    font-size: 14px;
                }
            </style>
        </head>
    "#;

/// The end of the preview page, up to the port in the web socket's address.
pub const RELOAD_SCRIPT_START: &'static str = r#"
			<script>
	            const ws = new WebSocket("ws://localhost:"#;

/// The end of the preview page, after the port.
pub const RELOAD_SCRIPT_END: &'static str = r#"");
	            ws.onmessage = (evt) => {
	                const start = performance.now();
	                console.log("Received message");
	                document.body.innerHTML = evt.data;
	                const end = performance.now();
	                console.log("DOM update took " + (end - start) + "ms");
	            };
	        </script>
        	<body></body>
		</html>
		"#;

/// The character for a decimal digit.
pub open spec fn digit_char(digit: nat) -> char {
    if digit == 0 {
        '0'
    } else if digit == 1 {
        '1'
    } else if digit == 2 {
        '2'
    } else if digit == 3 {
        '3'
    } else if digit == 4 {
        '4'
    } else if digit == 5 {
        '5'
    } else if digit == 6 {
        '6'
    } else if digit == 7 {
        '7'
    } else if digit == 8 {
        '8'
    } else {
        '9'
    }
}

/// `number` written in decimal, without leading zeros.
pub open spec fn decimal(number: nat) -> Seq<char>
    decreases number,
{
    if number < 10 {
        seq![digit_char(number)]
    } else {
        decimal(number / 10).push(digit_char(number % 10))
    }
}

/// The page that the live preview serves for a web socket on `ws_port`.
pub open spec fn reload_page(ws_port: nat) -> Seq<char> {
    HTML_START@ + RELOAD_SCRIPT_START@ + decimal(ws_port) + RELOAD_SCRIPT_END@
}

/// The character for the decimal digit `digit`.
fn digit_of(digit: u16) -> (c: char)
    requires
        digit < 10,
    ensures
        c == digit_char(digit as nat),
{
    if digit == 0 {
        '0'
    } else if digit == 1 {
        '1'
    } else if digit == 2 {
        '2'
    } else if digit == 3 {
        '3'
    } else if digit == 4 {
        '4'
    } else if digit == 5 {
        '5'
    } else if digit == 6 {
        '6'
    } else if digit == 7 {
        '7'
    } else if digit == 8 {
        '8'
    } else {
        '9'
    }
}

/// Appends `number` in decimal.
fn push_decimal(out: &mut String, number: u16)
    ensures
        final(out)@ == old(out)@ + decimal(number as nat),
    decreases number,
{
    let ghost before = out@;
    if number < 10 {
        out.push(digit_of(number));
        assert(out@ =~= before + decimal(number as nat));
    } else {
        push_decimal(out, number / 10);
        out.push(digit_of(number % 10));
        assert(out@ =~= before + decimal(number as nat));
    }
}

/// The start of a page, for a caller that puts the output into a page of
/// its own.
pub fn html_start() -> (html: String)
    ensures
        html@ == HTML_START@,
{
    String::from_str(HTML_START)
}

/// The page that the live preview serves: the start of a page, and a script
/// that opens a web socket on `ws_port` of the local host and puts each
/// message into the body.
pub fn hot_reload_html(ws_port: u16) -> (html: String)
    ensures
        html@ == reload_page(ws_port as nat),
{
    let mut html = html_start();
    html.append(RELOAD_SCRIPT_START);
    push_decimal(&mut html, ws_port);
    html.append(RELOAD_SCRIPT_END);
    html
}

/// What a request to the preview's HTTP side asks for.
#[derive(Debug, PartialEq, Eq)]
pub enum HttpTarget {
    /// The preview page itself.
    Page,
    /// The file at this path, relative to the working directory.
    File(String),
}

/// What the request for `url` asks for: `/` is the preview page, any other
/// URL is the file at `.` followed by the URL.
pub open spec fn request_target(url: Seq<char>) -> Option<Seq<char>> {
    if url == "/"@ {
        None
    } else {
        Some("."@ + url)
    }
}

/// Tells what a request for `url` asks for.
pub fn http_target(url: &str) -> (target: HttpTarget)
    ensures
        match target {
            HttpTarget::Page => request_target(url@) is None,
            HttpTarget::File(path) => request_target(url@) == Some(path@),
        },
{
    proof {
        reveal_strlit("/");
    }
    if url.unicode_len() == 1 && url.get_char(0) == '/' {
        assert(url@ =~= "/"@);
        HttpTarget::Page
    } else {
        let mut path = String::from_str(".");
        path.append(url);
        HttpTarget::File(path)
    }
}

/// What the preview's HTTP side sends back.
#[derive(Debug, PartialEq, Eq)]
pub enum HttpReply {
    /// The preview page.
    Page(String),
    /// The bytes of a file, which is taken to be a PNG image.
    Image(Vec<u8>),
    /// The file could not be read.
    NotFound,
}

/// The status code of a reply: 404 for a file that could not be read, 200
/// for all else.
pub open spec fn reply_status(reply: HttpReply) -> nat {
    match reply {
        HttpReply::NotFound => 404,
        _ => 200,
    }
}

/// The content type that a reply declares, if it declares one.
pub open spec fn reply_content_type(reply: HttpReply) -> Option<Seq<char>> {
    match reply {
        HttpReply::Page(_) => Some("text/html; charset=utf-8"@),
        HttpReply::Image(_) => Some("image/png"@),
        HttpReply::NotFound => None,
    }
}

impl HttpReply {
    /// The status code to send.
    pub fn status(&self) -> (code: u16)
        ensures
            code == reply_status(*self),
    {
        match self {
            HttpReply::NotFound => 404,
            _ => 200,
        }
    }

    /// The content type to declare, if any.
    pub fn content_type(&self) -> (declared: Option<&'static str>)
        ensures
            match declared {
                Some(name) => reply_content_type(*self) == Some(name@),
                None => reply_content_type(*self) is None,
            },
    {
        match self {
            HttpReply::Page(_) => Some("text/html; charset=utf-8"),
            HttpReply::Image(_) => Some("image/png"),
            HttpReply::NotFound => None,
        }
    }
}

/// The reply to a request for the preview page.
pub fn page_reply(ws_port: u16) -> (reply: HttpReply)
    ensures
        reply matches HttpReply::Page(html) && html@ == reload_page(ws_port as nat),
{
    HttpReply::Page(hot_reload_html(ws_port))
}

/// The reply to a request for a file, from what reading the file gave:
/// its bytes, or `None` where it could not be read.
pub fn file_reply(read: Option<Vec<u8>>) -> (reply: HttpReply)
    ensures
        match read {
            Some(bytes) => reply == HttpReply::Image(bytes),
            None => reply == HttpReply::NotFound,
        },
{
    match read {
        Some(bytes) => HttpReply::Image(bytes),
        None => HttpReply::NotFound,
    }
}

} // verus!

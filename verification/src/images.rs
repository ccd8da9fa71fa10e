//! Images that are embedded in the output: the files that the caller has
//! read, how one is looked up by its path, and the markup that carries its
//! bytes.

use crate::text::chars_string;
use vstd::prelude::*;
use vstd::string::StringExecFns;

verus! {

/// What reading one image file gave: its bytes, or the reason why it could
/// not be read.
#[derive(Debug, PartialEq, Eq)]
pub struct ImageFile {
    /// The path as the document writes it, between `![` and `]`.
    pub path: String,
    /// The bytes of the file, or the message of the failed read.
    pub content: Result<Vec<u8>, String>,
}

/// What is known of one image file, as plain values.
pub type ImageContent = Result<Seq<u8>, Seq<char>>;

impl ImageFile {
    /// The content as plain values.
    pub open spec fn content_view(&self) -> ImageContent {
        match self.content {
            Ok(bytes) => Ok(bytes@),
            Err(reason) => Err(reason@),
        }
    }
}

/// The files from position `from` on, as a map from path to content. Where
/// a path is listed twice, the earlier entry counts.
pub open spec fn image_table_from(images: Seq<ImageFile>, from: int) -> Map<Seq<char>, ImageContent>
    decreases images.len() - from,
{
    if from < 0 || from >= images.len() {
        Map::empty()
    } else {
        image_table_from(images, from + 1).insert(images[from].path@, images[from].content_view())
    }
}

/// The files that the caller supplies, as a map from path to content.
pub open spec fn image_table(images: Seq<ImageFile>) -> Map<Seq<char>, ImageContent> {
    image_table_from(images, 0)
}

/// The standard base64 text, with padding, of `bytes`.
pub uninterp spec fn base64_standard(bytes: Seq<u8>) -> Seq<char>;

/// Whether the base64 text of `length` bytes has a length that fits the
/// machine's `usize`; it always does for bytes that are held in memory.
pub open spec fn base64_fits(length: nat) -> bool {
    length / 3 * 4 + 4 <= usize::MAX
}

/// `encode` of base64's `STANDARD` engine. Nothing is proved of it: the
/// contract only gives its result the name `base64_standard`. The engine
/// panics where the length of the result overflows `usize`, so such inputs
/// are left out.
#[verifier::external_body]
fn base64_encode(bytes: &[u8]) -> (encoded: String)
    requires
        base64_fits(bytes@.len()),
    ensures
        encoded@ == base64_standard(bytes@),
{
    base64::Engine::encode(&base64::engine::general_purpose::STANDARD, bytes)
}

/// The paragraph that stands in for an image that could not be loaded.
pub open spec fn image_error(reason: Seq<char>) -> Seq<char> {
    "<p>Error loading image: "@ + reason + "</p>\n"@
}

/// The image element that carries base64 text as a PNG data URI.
pub open spec fn data_uri_image(encoded: Seq<char>) -> Seq<char> {
    "<img src=\"data:image/png;base64,"@ + encoded + "\" />\n"@
}

/// The markup for an embedded image, from what the table holds for its
/// path: the data URI of the bytes, or an error paragraph where the file is
/// not listed, could not be read, or is too large to encode.
pub open spec fn embedded_image(content: Option<ImageContent>) -> Seq<char> {
    match content {
        Some(Ok(bytes)) => if base64_fits(bytes.len()) {
            data_uri_image(base64_standard(bytes))
        } else {
            image_error("image is too large"@)
        },
        Some(Err(reason)) => image_error(reason),
        None => image_error("no such file"@),
    }
}

/// Looks `path` up among the files.
pub fn find_image<'a>(images: &'a Vec<ImageFile>, path: &str) -> (found: Option<&'a ImageFile>)
    ensures
        match found {
            Some(file) => image_table(images@).get(path@) == Some(file.content_view()),
            None => image_table(images@).get(path@) is None,
        },
{
    let wanted = String::from_str(path);
    let mut i: usize = 0;
    while i < images.len()
        invariant
            i <= images@.len(),
            wanted@ == path@,
            image_table(images@).get(path@) == image_table_from(images@, i as int).get(path@),
        decreases images@.len() - i,
    {
        if images[i].path == wanted {
            return Some(&images[i]);
        }
        i += 1;
    }
    None
}

/// The base64 text of `bytes`, or `None` where it would be too long for the
/// machine.
pub fn encode_image(bytes: &[u8]) -> (encoded: Option<String>)
    ensures
        match encoded {
            Some(text) => base64_fits(bytes@.len()) && text@ == base64_standard(bytes@),
            None => !base64_fits(bytes@.len()),
        },
{
    if bytes.len() / 3 <= (usize::MAX - 4) / 4 {
        Some(base64_encode(bytes))
    } else {
        None
    }
}

/// Wraps `reason` as the paragraph that stands in for an image.
pub fn image_error_html(reason: &str) -> (html: String)
    ensures
        html@ == image_error(reason@),
{
    let mut html = String::from_str("<p>Error loading image: ");
    html.append(reason);
    html.append("</p>\n");
    html
}

/// Wraps base64 text as an image element with a PNG data URI.
pub fn data_uri_image_html(encoded: &str) -> (html: String)
    ensures
        html@ == data_uri_image(encoded@),
{
    let mut html = String::from_str("<img src=\"data:image/png;base64,");
    html.append(encoded);
    html.append("\" />\n");
    html
}

/// The markup for the embedded image at `path`, from the files supplied.
pub fn embed_image(images: &Vec<ImageFile>, path: &[char]) -> (html: String)
    ensures
        html@ == embedded_image(image_table(images@).get(path@)),
{
    let wanted = chars_string(path);
    match find_image(images, wanted.as_str()) {
        Some(file) => match &file.content {
            Ok(bytes) => match encode_image(bytes.as_slice()) {
                Some(encoded) => data_uri_image_html(encoded.as_str()),
                None => image_error_html("image is too large"),
            },
            Err(reason) => image_error_html(reason.as_str()),
        },
        None => image_error_html("no such file"),
    }
}

} // verus!

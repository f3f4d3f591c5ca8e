//! Uploaded images: which files are accepted and where they end up.

use vstd::prelude::*;
use crate::response::PORT;
use crate::text::{joined, decimal, opt_chars, same_text, u32_to_decimal};

verus! {

/// The file ending of an accepted image type: "png" for `image/png`, "jpg"
/// for `image/jpg` and `image/jpeg`; nothing else is accepted.
pub open spec fn spec_file_ending(content_type: Option<Seq<char>>) -> Option<Seq<char>> {
    match content_type {
        Some(t) => if t == "image/png"@ {
            Some("png"@)
        } else if t == "image/jpg"@ || t == "image/jpeg"@ {
            Some("jpg"@)
        } else {
            None
        },
        None => None,
    }
}

/// The file ending for an uploaded part of the given content type, if the
/// type is accepted.
pub fn file_ending(content_type: Option<&str>) -> (r: Option<String>)
    ensures
        r matches Some(e) ==> spec_file_ending(opt_chars(content_type)) == Some(e@),
        r is None ==> spec_file_ending(opt_chars(content_type)) is None,
{
    match content_type {
        Some(t) => {
            if same_text(t, "image/png") {
                Some(String::from_str("png"))
            } else if same_text(t, "image/jpg") || same_text(t, "image/jpeg") {
                Some(String::from_str("jpg"))
            } else {
                None
            }
        },
        None => None,
    }
}

/// Where an upload is stored: `./files/<name>.<ending>`.
pub fn upload_file_name(name: &str, ending: &str) -> (r: String)
    ensures
        r@ == "./files/"@ + name@ + "."@ + ending@,
{
    let a = joined("./files/", name);
    let b = joined(a.as_str(), ".");
    joined(b.as_str(), ending)
}

/// The link under which a stored file is served: the file name without its
/// first character, behind `http://localhost:<PORT>`.
pub fn upload_link(file_name: &str) -> (r: String)
    requires
        file_name@.len() >= 1,
        (file_name@[0] as u32) < 128,
    ensures
        r@ == "http://localhost:"@ + decimal(PORT as nat) + file_name@.drop_first(),
{
    let port = u32_to_decimal(PORT as u32);
    let head = joined("http://localhost:", port.as_str());
    let n = file_name.unicode_len();
    let rest = file_name.substring_char(1, n);
    assert(rest@ =~= file_name@.drop_first());
    joined(head.as_str(), rest)
}

} // verus!

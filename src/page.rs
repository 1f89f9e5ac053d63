use vstd::prelude::*;
use vstd::string::*;

verus! {

/// The part of the placeholder page before its content.
pub const PAGE_HEAD: &'static str = "\n<!DOCTYPE html>\n<html>\n    <head>\n        <meta charset=\"utf-8\">\n        <title>esp-rs web server</title>\n    </head>\n    <body>\n        ";

/// The part of the placeholder page after its content.
pub const PAGE_TAIL: &'static str = "\n    </body>\n</html>\n";

/// A minimal HTML page whose body is `content`.
pub fn templated_webpage(content: &str) -> (r: String)
    ensures
        r@ == PAGE_HEAD@ + content@ + PAGE_TAIL@,
{
    let mut page = String::from_str(PAGE_HEAD);
    page.append(content);
    page.append(PAGE_TAIL);
    page
}

} // verus!

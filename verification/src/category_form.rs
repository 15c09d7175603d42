//! The checks on the form that creates a category: a name that is not
//! blank and fits, an icon that is blank or one grapheme cluster, and an
//! optional description.
use vstd::prelude::*;
use vstd::utf8::encode_utf8;

use crate::content::{icon_is_valid, validate_icon};
use crate::text::{decimal, spec_graphemes, trim, trim_str};

verus! {

/// The longest category name, in bytes of UTF-8.
pub const MAX_CATEGORY_NAME_BYTES: usize = 50;

/// `None` for blank text, else the text.
pub open spec fn unless_blank(s: Seq<char>) -> Option<Seq<char>> {
    if s.len() == 0 {
        None
    } else {
        Some(s)
    }
}

/// The view of a checked form: name, description, icon.
pub open spec fn form_view(f: (String, Option<String>, Option<String>)) -> (Seq<char>, Option<Seq<char>>, Option<Seq<char>>) {
    (f.0@, crate::wire::opt_view(f.1), crate::wire::opt_view(f.2))
}

/// Checks the category form. Each text is trimmed. The name must not be
/// blank and must take at most 50 bytes; the icon must be blank or one
/// grapheme cluster. A blank description or icon is left out.
pub fn check_category_form(name: &str, description: &str, icon: &str) -> (r: Result<
    (String, Option<String>, Option<String>),
    String,
>)
    ensures
        ({
            let n = trim(name@);
            let d = trim(description@);
            let ic = trim(icon@);
            if n.len() == 0 {
                r matches Err(e) && e@ == "Category name cannot be empty"@
            } else if encode_utf8(n).len() > 50 {
                r matches Err(e) && e@ == "Category name must be 50 characters or less"@
            } else if ic.len() > 0 && !icon_is_valid(ic) {
                r matches Err(e) && e@ == "Icon must be exactly 1 character (emoji), got "@ + decimal(
                    spec_graphemes(trim(ic)).len() as int,
                ) + " characters"@
            } else {
                r matches Ok(f) && form_view(f) == (n, unless_blank(d), unless_blank(ic))
            }
        }),
{
    let n = trim_str(name);
    if n.unicode_len() == 0 {
        return Err("Category name cannot be empty".to_owned());
    }
    if n.as_bytes().len() > MAX_CATEGORY_NAME_BYTES {
        return Err("Category name must be 50 characters or less".to_owned());
    }
    let ic = trim_str(icon);
    let icon_val = if ic.unicode_len() == 0 {
        None
    } else {
        match validate_icon(ic) {
            Err(e) => {
                return Err(e);
            },
            Ok(()) => Some(ic.to_owned()),
        }
    };
    let d = trim_str(description);
    let description_val = if d.unicode_len() == 0 {
        None
    } else {
        Some(d.to_owned())
    };
    Ok((n.to_owned(), description_val, icon_val))
}

} // verus!

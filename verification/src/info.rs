//! What the backend says about itself.

use vstd::prelude::*;

use crate::cstrings::{c_string_array, utf8_of, OurCStringArray};
use crate::text::no_nul;

verus! {

/// Whether `text` is the text of a C string with the NUL that ends it.
pub open spec fn is_terminated(text: Seq<char>) -> bool {
    text.len() > 0 && text.last() == '\0' && no_nul(text.drop_last())
}

/// The name of the backend, with the NUL that ends it.
pub fn pk_backend_get_description() -> (text: &'static str)
    ensures
        text@ == "Moss - atomic stateful package manager\0"@,
        is_terminated(text@),
{
    proof {
        reveal_strlit("Moss - atomic stateful package manager\0");
    }
    "Moss - atomic stateful package manager\0"
}

/// Who wrote the backend, with the NUL that ends the text.
pub fn pk_backend_get_author() -> (text: &'static str)
    ensures
        text@ == "Aeryn OS Developers <copyright@aerynos.com>\0"@,
        is_terminated(text@),
{
    proof {
        reveal_strlit("Aeryn OS Developers <copyright@aerynos.com>\0");
    }
    "Aeryn OS Developers <copyright@aerynos.com>\0"
}

/// The kinds of files that the backend can install.
pub fn pk_backend_get_mime_types() -> (types: OurCStringArray)
    ensures
        types@ == utf8_of(seq!["application/x-stone-binary"@]),
{
    let mut types: Vec<String> = Vec::new();
    types.push("application/x-stone-binary".to_owned());
    proof {
        reveal_strlit("application/x-stone-binary");
        assert(types.deep_view() =~= seq!["application/x-stone-binary"@]);
    }
    c_string_array(&types)
}

} // verus!

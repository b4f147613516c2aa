//! Naming rules for generated declarations.
//!
//! In an initialization expression, a path counts as a reference to a
//! declared value when its last identifier is written without lower-case
//! ASCII letters. The functions generated for a declared value are named
//! after it.

use vstd::prelude::*;
use vstd::string::StrSliceExecFns;
use vstd::string::StringExecFns;

verus! {

/// Whether `c` is one of the ASCII letters `a` to `z`.
pub open spec fn is_ascii_lower(c: char) -> bool {
    97 <= c as u32 <= 122
}

/// Whether `ident` holds no lower-case ASCII letter, as the name of a
/// declared value does. A text is of that kind exactly when putting it in
/// ASCII upper case leaves it unchanged.
pub fn is_static_name(ident: &str) -> (r: bool)
    ensures
        r == forall|i: int| 0 <= i < ident@.len() ==> !is_ascii_lower(#[trigger] ident@[i]),
{
    let n = ident.unicode_len();
    let mut i: usize = 0;
    while i < n
        invariant
            i <= n,
            n == ident@.len(),
            forall|k: int| 0 <= k < i ==> !is_ascii_lower(#[trigger] ident@[k]),
        decreases n - i,
    {
        let c = ident.get_char(i);
        let code = c as u32;
        if 97 <= code && code <= 122 {
            return false;
        }
        i += 1;
    }
    true
}

/// The name of the function that initializes the value declared as `ident`.
pub fn init_fn_name(ident: &str) -> (name: String)
    ensures
        name@ == "INIT_"@ + ident@,
{
    let mut name = String::new();
    name.append("INIT_");
    name.append(ident);
    assert(name@ =~= "INIT_"@ + ident@);
    name
}

/// The name of the function that lists what the value declared as `ident`
/// refers to.
pub fn deps_fn_name(ident: &str) -> (name: String)
    ensures
        name@ == "DEPS_"@ + ident@,
{
    let mut name = String::new();
    name.append("DEPS_");
    name.append(ident);
    assert(name@ =~= "DEPS_"@ + ident@);
    name
}

} // verus!

//! Conversion of engine class names to the casing of their Rust types.
use crate::text::{replace_all, replaced, str_eq};
use heck::ToPascalCase;
use vstd::prelude::*;
use vstd::string::*;

verus! {

/// What heck's PascalCase conversion makes of `s`.
pub uninterp spec fn pascal_of(s: Seq<char>) -> Seq<char>;

/// Relies on heck's `ToPascalCase::to_pascal_case`: the result depends on the
/// characters of `s` alone, and an empty string stays empty.
#[verifier::external_body]
fn heck_pascal_case(s: &str) -> (r: String)
    ensures
        r@ == pascal_of(s@),
        s@.len() == 0 ==> r@.len() == 0,
{
    s.to_pascal_case()
}

/// Class names whose snake_case form is fixed by hand, with that form.
pub open spec fn snake_special_case(name: Seq<char>) -> Option<Seq<char>> {
    if name == "JSONRPC"@ {
        Some("json_rpc"@)
    } else if name == "OpenXRAPIExtension"@ {
        Some("open_xr_api_extension"@)
    } else if name == "OpenXRIPBinding"@ {
        Some("open_xr_ip_binding"@)
    } else {
        None
    }
}

/// The hand-written snake_case form of `class_name`, where it has one.
pub fn to_snake_special_case(class_name: &str) -> (r: Option<&'static str>)
    ensures
        r is Some <==> snake_special_case(class_name@) is Some,
        r is Some ==> r->0@ == snake_special_case(class_name@)->0,
{
    if str_eq(class_name, "JSONRPC") {
        Some("json_rpc")
    } else if str_eq(class_name, "OpenXRAPIExtension") {
        Some("open_xr_api_extension")
    } else if str_eq(class_name, "OpenXRIPBinding") {
        Some("open_xr_ip_binding")
    } else {
        None
    }
}

/// `p` with the acronyms that the engine writes in capitals restored.
pub open spec fn acronyms_restored(p: Seq<char>) -> Seq<char> {
    replaced(
        replaced(
            replaced(
                replaced(replaced(p, "GdExtension"@, "GDExtension"@), "GdNative"@, "GDNative"@),
                "GdScript"@,
                "GDScript"@,
            ),
            "Vsync"@,
            "VSync"@,
        ),
        "Sdfgiy"@,
        "SdfgiY"@,
    )
}

/// The Rust type name of the engine class `name`.
pub open spec fn pascal_name(name: Seq<char>) -> Seq<char> {
    match snake_special_case(name) {
        Some(snake) => pascal_of(snake),
        None => acronyms_restored(pascal_of(name)),
    }
}

/// Characters allowed in an identifier.
pub open spec fn is_ident_char(c: char) -> bool {
    c == '_' || ('0' <= c <= '9') || ('a' <= c <= 'z') || ('A' <= c <= 'Z')
}

pub open spec fn starts_with_digit(s: Seq<char>) -> bool {
    s.len() > 0 && '0' <= s[0] <= '9'
}

/// An identifier: ASCII letters, digits and `_`, not starting with a digit.
pub open spec fn valid_ident(s: Seq<char>) -> bool {
    !starts_with_digit(s) && forall|i: int| 0 <= i < s.len() ==> is_ident_char(#[trigger] s[i])
}

/// Whether `s` starts with an ASCII digit.
pub fn starts_with_invalid_char(s: &str) -> (r: bool)
    ensures
        r == starts_with_digit(s@),
{
    if s.unicode_len() == 0 {
        false
    } else {
        let c = s.get_char(0);
        '0' <= c && c <= '9'
    }
}

/// Whether `s` is a valid identifier.
pub fn is_valid_ident(s: &str) -> (r: bool)
    ensures
        r == valid_ident(s@),
{
    if starts_with_invalid_char(s) {
        return false;
    }
    let n = s.unicode_len();
    let mut i: usize = 0;
    while i < n
        invariant
            n == s@.len(),
            i <= n,
            forall|k: int| 0 <= k < i ==> is_ident_char(#[trigger] s@[k]),
        decreases n - i,
    {
        let c = s.get_char(i);
        if !(c == '_' || ('0' <= c && c <= '9') || ('a' <= c && c <= 'z') || ('A' <= c && c
            <= 'Z')) {
            return false;
        }
        i = i + 1;
    }
    true
}

/// The PascalCase Rust type name of the engine class `ty_name`.
pub fn to_pascal_case(ty_name: &str) -> (r: String)
    requires
        valid_ident(ty_name@),
    ensures
        r@ == pascal_name(ty_name@),
{
    // The hand-written cases go through their snake_case form, so that both
    // conversions agree on them.
    if let Some(snake_special) = to_snake_special_case(ty_name) {
        return heck_pascal_case(snake_special);
    }
    proof {
        reveal_strlit("GdExtension");
        reveal_strlit("GdNative");
        reveal_strlit("GdScript");
        reveal_strlit("Vsync");
        reveal_strlit("Sdfgiy");
    }
    let p = heck_pascal_case(ty_name);
    let p = replace_all(p.as_str(), "GdExtension", "GDExtension");
    let p = replace_all(p.as_str(), "GdNative", "GDNative");
    let p = replace_all(p.as_str(), "GdScript", "GDScript");
    let p = replace_all(p.as_str(), "Vsync", "VSync");
    replace_all(p.as_str(), "Sdfgiy", "SdfgiY")
}

} // verus!

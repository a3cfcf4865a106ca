//! The sizes and extensions under which application icons are looked for.
use vstd::prelude::*;

verus! {

/// The pixel sizes of the fixed-size icon themes, largest first.
pub open spec fn icon_size_names() -> Seq<Seq<char>> {
    seq!["512x512"@, "256x256"@, "128x128"@, "96x96"@, "64x64"@, "48x48"@, "32x32"@]
}

/// The extensions of the icons kept under `pixmaps`, in the order tried.
pub open spec fn icon_extension_names() -> Seq<Seq<char>> {
    seq!["svg"@, "png"@]
}

/// The texts of a list of string slices.
pub open spec fn str_texts(v: Seq<&str>) -> Seq<Seq<char>> {
    v.map_values(|s: &str| s@)
}

/// The pixel sizes of the fixed-size icon themes, largest first.
pub fn icon_sizes() -> (v: Vec<&'static str>)
    ensures
        str_texts(v@) == icon_size_names(),
{
    let v = vec!["512x512", "256x256", "128x128", "96x96", "64x64", "48x48", "32x32"];
    assert(str_texts(v@) =~= icon_size_names());
    v
}

/// The extensions of the icons kept under `pixmaps`, in the order tried.
pub fn icon_extensions() -> (v: Vec<&'static str>)
    ensures
        str_texts(v@) == icon_extension_names(),
{
    let v = vec!["svg", "png"];
    assert(str_texts(v@) =~= icon_extension_names());
    v
}

} // verus!

//! Mods that sit in a local directory beside the server.

use vstd::prelude::*;
use crate::text;

verus! {

/// The `-mod=` parameter of a local mod directory: its path relative to the
/// server's directory where it lies under it, else the path itself.
pub open spec fn mod_dir_param_spec(path: Seq<char>) -> Seq<char> {
    if text::starts_with(path, "/arma3/server/"@) {
        path.skip("/arma3/server/"@.len() as int)
    } else {
        path
    }
}

/// The `-mod=` parameter of a local mod directory.
pub fn mod_dir_param(path: &str) -> (r: String)
    ensures
        r@ == mod_dir_param_spec(path@),
{
    let p = text::chars_of(path);
    let root = text::chars_of("/arma3/server/");
    if text::starts_with_exec(p.as_slice(), root.as_slice()) {
        let rest = text::slice_chars(p.as_slice(), root.len(), p.len());
        assert(p@.subrange(root.len() as int, p.len() as int) =~= p@.skip(root.len() as int));
        text::string_of(rest.as_slice())
    } else {
        text::string_of(p.as_slice())
    }
}

/// A mod directory under the server's directory is named by its path
/// relative to it; any other path is named as it is.
pub proof fn law_mod_dir_param_relative(relative: Seq<char>, path: Seq<char>)
    ensures
        mod_dir_param_spec("/arma3/server/"@ + relative) == relative,
        !text::starts_with(path, "/arma3/server/"@) ==> mod_dir_param_spec(path) == path,
{
    reveal_strlit("/arma3/server/");
    let p = "/arma3/server/"@ + relative;
    assert(p.take(14) =~= "/arma3/server/"@);
    assert(p.skip(14) =~= relative);
}

} // verus!

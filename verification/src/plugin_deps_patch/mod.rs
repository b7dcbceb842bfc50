//! Plugin dependency patches written as tokens: each plugin id with the dependencies to
//! add to or remove from its `build_before` and `build_after` lists.

pub mod token;
pub mod input;
pub mod out;

use self::input::{parse_patch, patch_matches, PatchView};
use self::out::{all_properties_ok, patch_output, first_invalid_property, PatchError, PluginPatchOutput};
use self::token::TokenTree;
use vstd::prelude::*;

verus! {

/// Reads a patch from its tokens: the dependency updates it stands for, or why it stands
/// for none.
pub fn execute(input: Vec<TokenTree>) -> (r: Result<PluginPatchOutput, PatchError>)
    ensures
        r matches Err(PatchError::Syntax(_)) <==> !exists|w: PatchView| #[trigger] patch_matches(w, input@),
        forall|w: PatchView|
            #[trigger] patch_matches(w, input@) ==> {
                &&& r is Ok <==> all_properties_ok(w)
                &&& r matches Ok(out) ==> out@ == patch_output(w)
                &&& r matches Err(PatchError::InvalidProperty(name, at)) ==> exists|i: int, j: int|
                    #[trigger] first_invalid_property(w, i, j) && name@ == w.entries[i].deps[j].ident
                        && at == w.entries[i].deps[j].span
            },
{
    match parse_patch(input) {
        Ok(p) => PluginPatchOutput::try_from(p),
        Err(e) => Err(PatchError::Syntax(e)),
    }
}

} // verus!
pub mod render;

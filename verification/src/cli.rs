//! What a run is asked to do.

use crate::text::owned;
use vstd::prelude::*;
use vstd::string::*;

verus! {

/// The arguments of a run.
#[derive(Debug)]
pub struct Cli {
    /// The node whose patch file is read.
    pub node: String,
    /// The directory of the patch files.
    pub patches_dir: String,
    /// Whether the plan is computed but not carried out.
    pub check: bool,
    /// Whether the plan is printed.
    pub diff: bool,
}

impl Cli {
    /// The name of the node's patch file in its directory.
    pub fn patch_file(&self) -> (r: String)
        ensures
            r@ == self.node@ + ".yaml"@,
    {
        let mut out = owned(self.node.as_str());
        out.append(".yaml");
        out
    }

    /// Whether the plan is carried out.
    pub fn applies(&self) -> (r: bool)
        ensures
            r == !self.check,
    {
        !self.check
    }
}

} // verus!

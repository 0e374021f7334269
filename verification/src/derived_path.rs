//! Derived paths: a store path, or an output of a (possibly derived) derivation.

use vstd::prelude::*;
use vstd::utf8::encode_utf8;

use crate::placeholder::{ca_output_text, dynamic_output_text, nix_base32, sha256, Placeholder};
use crate::store_path::StorePath;

verus! {

/// A path that is either a store path or an output of a derivation.
#[derive(Debug, PartialEq, Eq)]
pub enum SingleDerivedPath {
    /// A store path that needs no build.
    Opaque(StorePath),
    /// An output of a derivation.
    Built(SingleDerivedPathBuilt),
}

/// A single derived path that is built from a derivation: a derivation (a
/// store path, or itself the output of a derivation) and an output name.
#[derive(Debug, PartialEq, Eq)]
pub struct SingleDerivedPathBuilt {
    pub derived_path: Box<SingleDerivedPath>,
    pub output: String,
}

/// The store path at the root of a derived path.
pub open spec fn base_store_path(p: SingleDerivedPath) -> StorePath
    decreases p,
{
    match p {
        SingleDerivedPath::Opaque(s) => s,
        SingleDerivedPath::Built(b) => base_store_path(*b.derived_path),
    }
}

/// The textual form of a derived path: the store path, then `^<output>` for
/// each level of outputs, innermost first.
pub open spec fn spec_render_derived(p: SingleDerivedPath) -> Seq<char>
    decreases p,
{
    match p {
        SingleDerivedPath::Opaque(s) => s@,
        SingleDerivedPath::Built(b) => spec_render_derived(*b.derived_path) + "^"@ + b.output@,
    }
}

/// The hash of the placeholder of a built path: the content-addressed output
/// placeholder for an output of a store derivation, and the dynamic output
/// placeholder for an output of a derived derivation.
pub open spec fn placeholder_hash(b: SingleDerivedPathBuilt) -> Seq<u8>
    decreases b,
{
    match *b.derived_path {
        SingleDerivedPath::Opaque(s) => sha256(encode_utf8(ca_output_text(s@, b.output@))),
        SingleDerivedPath::Built(inner) => sha256(
            encode_utf8(dynamic_output_text(placeholder_hash(inner), b.output@)),
        ),
    }
}

fn clone_derived_path(p: &SingleDerivedPath) -> (r: SingleDerivedPath)
    ensures
        r == *p,
    decreases p,
{
    match p {
        SingleDerivedPath::Opaque(s) => SingleDerivedPath::Opaque(s.clone()),
        SingleDerivedPath::Built(b) => SingleDerivedPath::Built(
            SingleDerivedPathBuilt {
                derived_path: Box::new(clone_derived_path(&b.derived_path)),
                output: b.output.clone(),
            },
        ),
    }
}

impl Clone for SingleDerivedPath {
    fn clone(&self) -> (r: Self)
        ensures
            r == *self,
    {
        clone_derived_path(self)
    }
}

impl Clone for SingleDerivedPathBuilt {
    fn clone(&self) -> (r: Self)
        ensures
            r == *self,
    {
        SingleDerivedPathBuilt {
            derived_path: Box::new(clone_derived_path(&self.derived_path)),
            output: self.output.clone(),
        }
    }
}

impl SingleDerivedPath {
    /// The store path at the root of this derived path.
    pub fn store_path(&self) -> (r: StorePath)
        ensures
            r == base_store_path(*self),
        decreases self,
    {
        match self {
            SingleDerivedPath::Opaque(store_path) => store_path.clone(),
            SingleDerivedPath::Built(built_path) => built_path.derived_path.store_path(),
        }
    }

    /// The textual form: the store path followed by `^<output>` per level.
    pub fn to_string(&self) -> (r: String)
        ensures
            r@ == spec_render_derived(*self),
        decreases self,
    {
        match self {
            SingleDerivedPath::Opaque(store_path) => store_path.to_string(),
            SingleDerivedPath::Built(built_path) => {
                let mut r = built_path.derived_path.to_string();
                r.append("^");
                r.append(built_path.output.as_str());
                r
            },
        }
    }
}

impl SingleDerivedPathBuilt {
    /// Output `output` of the derivation at `drv_path`.
    pub fn new(drv_path: StorePath, output: String) -> (r: Self)
        ensures
            *r.derived_path == SingleDerivedPath::Opaque(drv_path),
            r.output == output,
    {
        Self { derived_path: Box::new(SingleDerivedPath::Opaque(drv_path)), output }
    }

    /// Output `output` of the derivation that `drv_path` denotes.
    pub fn from_derived_path(drv_path: SingleDerivedPath, output: String) -> (r: Self)
        ensures
            *r.derived_path == drv_path,
            r.output == output,
    {
        Self { derived_path: Box::new(drv_path), output }
    }

    /// The rendered placeholder standing for this output before it is built.
    pub fn placeholder(&self) -> (r: String)
        ensures
            r@ == "/"@ + nix_base32(placeholder_hash(*self)),
    {
        self.placeholder_recursive().render()
    }

    fn placeholder_recursive(&self) -> (r: Placeholder)
        ensures
            r@ == placeholder_hash(*self),
            r@.len() == 32,
        decreases self,
    {
        match &*self.derived_path {
            SingleDerivedPath::Opaque(store_path) => Placeholder::ca_output(store_path, self.output.as_str()),
            SingleDerivedPath::Built(inner_built) => {
                let inner_placeholder = inner_built.placeholder_recursive();
                Placeholder::dynamic_output(&inner_placeholder, self.output.as_str())
            },
        }
    }

    /// The textual form: the inner derived path, `^`, and the output name.
    pub fn to_string(&self) -> (r: String)
        ensures
            r@ == spec_render_derived(*self.derived_path) + "^"@ + self.output@,
    {
        let mut r = self.derived_path.to_string();
        r.append("^");
        r.append(self.output.as_str());
        r
    }
}

} // verus!

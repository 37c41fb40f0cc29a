use vstd::prelude::*;

verus! {

/// Everything that can go wrong while building a tree, looking up a path,
/// recovering a concrete adapter type, or inside an adapter itself.
///
/// Build-time failures are all-or-nothing: no partial tree is ever returned.
#[derive(Debug, Clone)]
pub enum Error {
    /// A line is indented more than one level deeper than its predecessor,
    /// or its indentation is not a whole number of levels.
    BadIndent,
    /// A line starts with a sigil character the grammar does not know.
    UnknownSigil,
    /// An empty or ill-formed segment name, handler name, or binding path.
    Malformed,
    /// Two nodes would share one path (duplicate sibling names).
    DuplicatePath,
    /// A node already carries the source or sink annotation a line repeats.
    DuplicateAnnotation,
    /// One handler name was registered twice on the same builder.
    DuplicateHandler,
    /// A pull binding names a path that no node in the tree carries.
    UnresolvedBinding,
    /// The pull bindings form a cycle, so propagation would not terminate.
    BindingCycle,
    /// A lookup or an event named a path that no node carries.
    NoSuchPath,
    /// `inspect_as` or `mutate_as` asked for a concrete type the handle
    /// does not hold.
    CapabilityMismatch,
    /// A failure reported by an externally implemented adapter, passed
    /// through verbatim.
    Adapter(String),
}

impl Error {
    /// The words `describe` answers for each kind of failure.
    pub open spec fn describe_spec(&self) -> Seq<char> {
        match self {
            Error::BadIndent => "bad indentation"@,
            Error::UnknownSigil => "unknown sigil"@,
            Error::Malformed => "malformed name or path"@,
            Error::DuplicatePath => "duplicate path"@,
            Error::DuplicateAnnotation => "duplicate annotation"@,
            Error::DuplicateHandler => "duplicate handler name"@,
            Error::UnresolvedBinding => "unresolved binding target"@,
            Error::BindingCycle => "binding cycle"@,
            Error::NoSuchPath => "no such path"@,
            Error::CapabilityMismatch => "capability mismatch"@,
            Error::Adapter(_) => "adapter failure"@,
        }
    }

    /// A short, stable description of the error kind, for logging by callers.
    pub fn describe(&self) -> (r: &'static str)
        ensures
            r@ == self.describe_spec(),
    {
        match self {
            Error::BadIndent => "bad indentation",
            Error::UnknownSigil => "unknown sigil",
            Error::Malformed => "malformed name or path",
            Error::DuplicatePath => "duplicate path",
            Error::DuplicateAnnotation => "duplicate annotation",
            Error::DuplicateHandler => "duplicate handler name",
            Error::UnresolvedBinding => "unresolved binding target",
            Error::BindingCycle => "binding cycle",
            Error::NoSuchPath => "no such path",
            Error::CapabilityMismatch => "capability mismatch",
            Error::Adapter(_) => "adapter failure",
        }
    }
}

} // verus!

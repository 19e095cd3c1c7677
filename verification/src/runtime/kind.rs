//! The runtimes the panel supports, and what differs between them.

use vstd::prelude::*;

use crate::text;

verus! {

/// A supported application runtime.
#[derive(Debug, Clone, Copy, PartialEq, Eq, Structural)]
pub enum Runtime {
    /// Node.js: the panel picks the interpreter and runs the entry script.
    Node,
    /// Rust: the customer compiles a binary and the panel executes it directly.
    Rust,
}

/// The identifier persisted in app metadata.
pub open spec fn identifier(r: Runtime) -> Seq<char> {
    match r {
        Runtime::Node => "node"@,
        Runtime::Rust => "rust"@,
    }
}

/// The runtime that an identifier stands for.
pub open spec fn runtime_of(s: Seq<char>) -> Option<Runtime> {
    if s == identifier(Runtime::Node) {
        Some(Runtime::Node)
    } else if s == identifier(Runtime::Rust) {
        Some(Runtime::Rust)
    } else {
        None
    }
}

/// How a launch is described: interpreted runtimes name the interpreter,
/// compiled ones are just the binary.
pub open spec fn display(r: Option<Runtime>, entry: Seq<char>) -> Seq<char> {
    match r {
        Some(Runtime::Node) => "node"@ + " "@ + entry,
        _ => entry,
    }
}

impl Runtime {
    /// Every runtime, in the order the UI should offer them.
    pub fn all() -> (r: Vec<Runtime>)
        ensures
            r@ == seq![Runtime::Node, Runtime::Rust],
    {
        let mut out: Vec<Runtime> = Vec::new();
        out.push(Runtime::Node);
        out.push(Runtime::Rust);
        out
    }

    /// The stable identifier persisted in app metadata (`type=` in `.app`
    /// files) and sent over the JSON API. Changing one breaks existing apps.
    pub fn as_str(self) -> (r: &'static str)
        ensures
            r@ == identifier(self),
    {
        match self {
            Runtime::Node => "node",
            Runtime::Rust => "rust",
        }
    }

    /// Whether the panel chooses and runs an interpreter for this runtime.
    pub fn is_interpreted(self) -> (r: bool)
        ensures
            r == (self == Runtime::Node),
    {
        match self {
            Runtime::Node => true,
            Runtime::Rust => false,
        }
    }

    /// Whether a fresh app of this runtime gets a starter entry file written
    /// for it. Compiled runtimes cannot be scaffolded.
    pub fn scaffolds_entry(self) -> (r: bool)
        ensures
            r == (self == Runtime::Node),
    {
        self.is_interpreted()
    }

    /// Whether the entry file must already exist and be executable at create
    /// time. True exactly for the runtimes the panel cannot scaffold.
    pub fn requires_executable_entry(self) -> (r: bool)
        ensures
            r == (self == Runtime::Rust),
    {
        !self.scaffolds_entry()
    }

    /// How to describe the launch in error messages, given the resolved entry
    /// path.
    pub fn command_display(self, entry: &str) -> (r: String)
        ensures
            r@ == display(Some(self), entry@),
    {
        if self.is_interpreted() {
            let mut out = self.as_str().to_string();
            out.append(" ");
            out.append(entry);
            out
        } else {
            entry.to_string()
        }
    }

    /// The runtime that an identifier stands for.
    pub fn from_str(s: &str) -> (r: Result<Runtime, ()>)
        ensures
            match r {
                Ok(rt) => runtime_of(s@) == Some(rt),
                Err(_) => runtime_of(s@) is None,
            },
    {
        if text::same(s, "node") {
            Ok(Runtime::Node)
        } else if text::same(s, "rust") {
            Ok(Runtime::Rust)
        } else {
            Err(())
        }
    }
}

/// The persisted identifiers read back as what they were written for.
pub proof fn law_identifiers_read_back(r: Runtime)
    ensures
        runtime_of(identifier(r)) == Some(r),
{
    reveal_strlit("node");
    reveal_strlit("rust");
    assert("node"@[0] != "rust"@[0]);
}

/// How the launch of an app with this type is described. A type that is no
/// runtime is described as a binary.
pub fn launch_display(app_type: &str, entry: &str) -> (r: String)
    ensures
        r@ == display(runtime_of(app_type@), entry@),
{
    match Runtime::from_str(app_type) {
        Ok(rt) => rt.command_display(entry),
        Err(_) => entry.to_string(),
    }
}

/// The two runtimes by name, and no other. A `node` app is shown with its
/// interpreter, a `rust` app as its binary.
pub proof fn law_runtimes_by_name(s: Seq<char>, entry: Seq<char>)
    ensures
        runtime_of("node"@) == Some(Runtime::Node),
        runtime_of("rust"@) == Some(Runtime::Rust),
        s != "node"@ && s != "rust"@ ==> runtime_of(s) is None,
        display(Some(Runtime::Node), entry) == "node"@.push(' ') + entry,
        display(Some(Runtime::Rust), entry) == entry,
        display(None, entry) == entry,
{
    reveal_strlit("node");
    reveal_strlit("rust");
    reveal_strlit(" ");
    assert("node"@[0] == 'n' && "rust"@[0] == 'r');
    assert("node"@ + " "@ + entry =~= "node"@.push(' ') + entry);
}

} // verus!

//! What can go wrong while a reactor program is assembled.

use crate::ids::GlobalId;
use vstd::prelude::*;
use vstd::string::StringExecFns;

verus! {

/// The two ways in which a reaction depends on a port or an action.
#[derive(Debug, Clone, Copy, PartialEq, Eq, Structural)]
pub enum DependencyKind {
    Use,
    Affects,
}

impl DependencyKind {
    /// The verb that stands for the kind in a message.
    pub open spec fn spec_verb(self) -> Seq<char> {
        match self {
            DependencyKind::Use => "uses"@,
            DependencyKind::Affects => "affects"@,
        }
    }

    pub fn verb(&self) -> (s: &'static str)
        ensures
            s@ == self.spec_verb(),
    {
        match self {
            DependencyKind::Use => "uses",
            DependencyKind::Affects => "affects",
        }
    }
}

/// An error of the assembly phase. Each is fatal: no program runs on a
/// graph that failed to assemble.
#[derive(Debug)]
pub enum AssemblyError {
    /// Two ports cannot be bound: the cause, the upstream and the
    /// downstream port.
    InvalidBinding(&'static str, GlobalId, GlobalId),
    /// A reaction cannot depend on a port: the cause, the reaction, the kind
    /// of dependency and the port.
    InvalidDependency(&'static str, GlobalId, DependencyKind, GlobalId),
    /// A name was given twice inside one reactor.
    DuplicateName(&'static str),
    /// The data-flow graph has a cycle.
    CyclicDependency(String),
    /// An error of the assembly of a sub-reactor, with the id of that
    /// sub-reactor.
    InContext(GlobalId, Box<AssemblyError>),
    /// The program has more reactors, more components in one reactor, or
    /// more dependencies than can be numbered.
    Overflow(&'static str),
}

impl AssemblyError {
    /// The text that describes the error.
    pub open spec fn spec_message(self) -> Seq<char>
        decreases self,
    {
        match self {
            AssemblyError::InvalidBinding(cause, upstream, downstream) => {
                "Invalid binding: "@ + cause@ + " (while binding '"@ + upstream.spec_display()
                    + "' to '"@ + downstream.spec_display() + "')"@
            },
            AssemblyError::InvalidDependency(cause, reaction, kind, port) => {
                "Invalid dependency: "@ + cause@ + " (for dependency '"@ + reaction.spec_display()
                    + "' "@ + kind.spec_verb() + " '"@ + port.spec_display() + "')"@
            },
            AssemblyError::DuplicateName(name) => { "Duplicate name '"@ + name@ + "'"@ },
            AssemblyError::CyclicDependency(msg) => { "Cyclic dependency: "@ + msg@ },
            AssemblyError::InContext(ctx_id, inner) => {
                "While assembling "@ + ctx_id.spec_display() + ": "@ + inner.spec_message()
            },
            AssemblyError::Overflow(cause) => { "Overflow "@ + cause@ },
        }
    }

    /// Appends the text that describes the error to `s`.
    pub fn push_message(&self, s: &mut String)
        ensures
            final(s)@ == old(s)@ + self.spec_message(),
        decreases self,
    {
        match self {
            AssemblyError::InvalidBinding(cause, upstream, downstream) => {
                s.append("Invalid binding: ");
                s.append(cause);
                s.append(" (while binding '");
                upstream.push_display(s);
                s.append("' to '");
                downstream.push_display(s);
                s.append("')");
            },
            AssemblyError::InvalidDependency(cause, reaction, kind, port) => {
                s.append("Invalid dependency: ");
                s.append(cause);
                s.append(" (for dependency '");
                reaction.push_display(s);
                s.append("' ");
                s.append(kind.verb());
                s.append(" '");
                port.push_display(s);
                s.append("')");
            },
            AssemblyError::DuplicateName(name) => {
                s.append("Duplicate name '");
                s.append(name);
                s.append("'");
            },
            AssemblyError::CyclicDependency(msg) => {
                s.append("Cyclic dependency: ");
                s.append(msg.as_str());
            },
            AssemblyError::InContext(ctx_id, inner) => {
                s.append("While assembling ");
                ctx_id.push_display(s);
                s.append(": ");
                inner.push_message(s);
            },
            AssemblyError::Overflow(cause) => {
                s.append("Overflow ");
                s.append(cause);
            },
        }
        assert(s@ =~= old(s)@ + self.spec_message());
    }

    /// The text that describes the error.
    pub fn message(&self) -> (s: String)
        ensures
            s@ == self.spec_message(),
    {
        let mut s = String::new();
        self.push_message(&mut s);
        assert(s@ =~= self.spec_message());
        s
    }
}

} // verus!

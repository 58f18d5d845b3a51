use vstd::prelude::*;

verus! {

/// The top-level namespaces of `axiom://` URIs.
#[derive(Debug, Clone, Copy, PartialEq, Eq, Structural)]
pub enum Scope {
    Resources,
    User,
    Agent,
    Session,
    Temp,
    Queue,
}

/// The canonical name of each scope.
pub open spec fn scope_name(scope: Scope) -> Seq<char> {
    match scope {
        Scope::Resources => seq!['r', 'e', 's', 'o', 'u', 'r', 'c', 'e', 's'],
        Scope::User => seq!['u', 's', 'e', 'r'],
        Scope::Agent => seq!['a', 'g', 'e', 'n', 't'],
        Scope::Session => seq!['s', 'e', 's', 's', 'i', 'o', 'n'],
        Scope::Temp => seq!['t', 'e', 'm', 'p'],
        Scope::Queue => seq!['q', 'u', 'e', 'u', 'e'],
    }
}

impl Scope {
    pub fn as_str(self) -> (s: &'static str)
        ensures
            s@ == scope_name(self),
    {
        match self {
            Scope::Resources => {
                proof { reveal_strlit("resources"); }
                "resources"
            },
            Scope::User => {
                proof { reveal_strlit("user"); }
                "user"
            },
            Scope::Agent => {
                proof { reveal_strlit("agent"); }
                "agent"
            },
            Scope::Session => {
                proof { reveal_strlit("session"); }
                "session"
            },
            Scope::Temp => {
                proof { reveal_strlit("temp"); }
                "temp"
            },
            Scope::Queue => {
                proof { reveal_strlit("queue"); }
                "queue"
            },
        }
    }
}

} // verus!

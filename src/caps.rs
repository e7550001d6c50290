//! The closed set of supported IRCv3 capability extensions.
use vstd::prelude::*;

verus! {

/// The supported IRCv3 capability extensions.
#[derive(Clone, Copy, Debug, PartialEq, Eq, Structural)]
pub enum Capability {
    /// `multi-prefix`
    MultiPrefix,
    /// `account-notify`
    AccountNotify,
    /// `away-notify`
    AwayNotify,
    /// `extended-join`
    ExtendedJoin,
}

/// The canonical wire string of a capability.
pub open spec fn wire_spec(c: Capability) -> Seq<char> {
    match c {
        Capability::MultiPrefix => "multi-prefix"@,
        Capability::AccountNotify => "account-notify"@,
        Capability::AwayNotify => "away-notify"@,
        Capability::ExtendedJoin => "extended-join"@,
    }
}

impl Capability {
    /// The canonical wire string sent during capability negotiation.
    pub fn wire_string(&self) -> (r: &'static str)
        ensures
            r@ == wire_spec(*self),
    {
        match self {
            Capability::MultiPrefix => "multi-prefix",
            Capability::AccountNotify => "account-notify",
            Capability::AwayNotify => "away-notify",
            Capability::ExtendedJoin => "extended-join",
        }
    }
}

impl AsRef<str> for Capability {
    fn as_ref(&self) -> &str {
        self.wire_string()
    }
}

/// Distinct capabilities have distinct wire strings.
pub proof fn lemma_wire_strings_distinct(a: Capability, b: Capability)
    ensures
        wire_spec(a) == wire_spec(b) <==> a == b,
{
    reveal_strlit("multi-prefix");
    reveal_strlit("account-notify");
    reveal_strlit("away-notify");
    reveal_strlit("extended-join");
    if a != b {
        let (x, y) = (wire_spec(a), wire_spec(b));
        if x.len() == y.len() {
            assert(x[0] != y[0] || x[1] != y[1]);
        }
    }
}

} // verus!

//! Joining the namespaces of another process.

use vstd::prelude::*;

use crate::error::{Error, ErrorKind};
use crate::text;

verus! {

/// A namespace that is joined.
#[derive(Clone, Copy, Debug, PartialEq, Eq, Structural)]
pub enum Namespace {
    User,
    Network,
}

impl Namespace {
    /// How the namespace is called.
    pub open spec fn name(self) -> Seq<char> {
        match self {
            Namespace::User => "user namespace"@,
            Namespace::Network => "network namespace"@,
        }
    }

    /// Its file among those of a process.
    pub open spec fn file(self) -> Seq<char> {
        match self {
            Namespace::User => "/ns/user"@,
            Namespace::Network => "/ns/net"@,
        }
    }

    fn name_text(self) -> (name: &'static str)
        ensures
            name@ == self.name(),
    {
        match self {
            Namespace::User => "user namespace",
            Namespace::Network => "network namespace",
        }
    }

    /// The file of the namespace of process `pid`.
    pub fn path(self, pid: u32) -> (path: String)
        ensures
            path@ == "/proc/"@ + text::decimal(pid as nat) + self.file(),
    {
        let mut path = text::join("/proc/", text::to_decimal(pid as u64).as_str());
        match self {
            Namespace::User => path.append("/ns/user"),
            Namespace::Network => path.append("/ns/net"),
        }
        path
    }

    /// The file could not be opened, and why.
    pub fn open_failure(self, kind: ErrorKind, path: &str, cause: &str) -> (error: Error)
        ensures
            error.reads(kind, "failed to open "@ + self.name() + " "@ + path@ + ": "@ + cause@),
    {
        let mut message = text::join("failed to open ", self.name_text());
        message.append(" ");
        message.append(path);
        message.append(": ");
        message.append(cause);
        Error::new(kind, message.as_str())
    }

    /// The namespace could not be joined, and why.
    pub fn join_failure(self, cause: &str) -> (error: Error)
        ensures
            error.reads(
                ErrorKind::PermissionDenied,
                "failed to join "@ + self.name() + ": "@ + cause@,
            ),
    {
        let mut message = text::join("failed to join ", self.name_text());
        message.append(": ");
        message.append(cause);
        Error::new(ErrorKind::PermissionDenied, message.as_str())
    }
}

/// The namespaces in the order in which they are joined: the user namespace
/// gives the capability to join the other.
pub fn join_order() -> (order: Vec<Namespace>)
    ensures
        order@ == seq![Namespace::User, Namespace::Network],
{
    let mut order: Vec<Namespace> = Vec::new();
    order.push(Namespace::User);
    order.push(Namespace::Network);
    assert(order@ =~= seq![Namespace::User, Namespace::Network]);
    order
}

/// The user namespace is joined before the network namespace, and both of them
/// are those of the process.
pub proof fn namespaces_are_those_of_the_process(
    order: Vec<Namespace>,
    pid: u32,
    user: String,
    network: String,
    pid_text: String,
)
    requires
        call_ensures(join_order, (), order),
        call_ensures(Namespace::path, (Namespace::User, pid), user),
        call_ensures(Namespace::path, (Namespace::Network, pid), network),
        call_ensures(text::to_decimal, (pid as u64,), pid_text),
    ensures
        order@.len() == 2,
        order@[0] is User && order@[1] is Network,
        user@ == "/proc/"@ + pid_text@ + "/ns/user"@,
        network@ == "/proc/"@ + pid_text@ + "/ns/net"@,
{
}

/// A failure names the namespace and the cause.
pub proof fn failures_name_the_namespace(
    namespace: Namespace,
    kind: ErrorKind,
    path: &str,
    cause: &str,
    opening: Error,
    joining: Error,
)
    requires
        call_ensures(Namespace::open_failure, (namespace, kind, path, cause), opening),
        call_ensures(Namespace::join_failure, (namespace, cause), joining),
    ensures
        ({
            let name = if namespace is User {
                "user namespace"@
            } else {
                "network namespace"@
            };
            &&& opening.kind == kind
            &&& opening.message@ == "failed to open "@ + name + " "@ + path@ + ": "@ + cause@
            &&& joining.kind == ErrorKind::PermissionDenied
            &&& joining.message@ == "failed to join "@ + name + ": "@ + cause@
        }),
{
}

} // verus!

//! The seam between what the operating system tells and what it means.
//!
//! Everything above this module works on [`RawListener`] and [`PortBinding`], never on
//! how a platform gathered them. Paths are plain text here: the platform reads them
//! from the output of system tools, and the domain only ever looks at their spelling.
use crate::text;
use crate::time::Timestamp;
use vstd::prelude::*;

pub mod gather;
pub mod macos;

verus! {

/// Whether a bound address accepts connections from this machine only, or from the
/// whole network.
#[derive(Debug, Clone, Copy, PartialEq, Eq, Structural)]
pub enum Reachability {
    LocalhostOnly,
    AllInterfaces,
}

/// Which IP address family a binding was made on. One process often binds the same
/// port on both; those are two sockets, not one listed twice.
#[derive(Debug, Clone, Copy, PartialEq, Eq, Structural)]
pub enum AddressFamily {
    V4,
    V6,
}

/// One port a listener is bound to, on one address family.
#[derive(Debug, Clone, Copy, PartialEq, Eq, Structural)]
pub struct PortBinding {
    pub port: u16,
    pub family: AddressFamily,
    pub reachability: Reachability,
}

/// What one process was using when it was looked at: the listed process alone, not
/// its children. `None` means that the figure could not be had, which is not zero.
#[derive(Debug, Clone, Copy, PartialEq, Eq, Structural)]
pub struct ResourceSample {
    /// Tenths of a percent of one core.
    pub cpu_tenths_percent: Option<u32>,
    /// Resident memory.
    pub memory_bytes: Option<u64>,
}

impl Default for ResourceSample {
    fn default() -> (r: ResourceSample)
        ensures
            r.cpu_tenths_percent is None,
            r.memory_bytes is None,
    {
        ResourceSample { cpu_tenths_percent: None, memory_bytes: None }
    }
}

/// A neutral description of one listening process.
///
/// `cwd` is an `Option` because a platform cannot always tell another process's
/// working directory.
#[derive(Debug)]
pub struct RawListener {
    pub pid: u32,
    pub ppid: u32,
    pub command: String,
    pub exe_path: String,
    pub cwd: Option<String>,
    pub ports: Vec<PortBinding>,
    pub start_time: Timestamp,
    pub user: String,
    pub usage: ResourceSample,
}

/// What a [`RawListener`] holds.
#[verifier::ext_equal]
pub struct RawListenerView {
    pub pid: u32,
    pub ppid: u32,
    pub command: Seq<char>,
    pub exe_path: Seq<char>,
    pub cwd: Option<Seq<char>>,
    pub ports: Seq<PortBinding>,
    pub start_time: Timestamp,
    pub user: Seq<char>,
    pub usage: ResourceSample,
}

impl View for RawListener {
    type V = RawListenerView;

    open spec fn view(&self) -> RawListenerView {
        RawListenerView {
            pid: self.pid,
            ppid: self.ppid,
            command: self.command@,
            exe_path: self.exe_path@,
            cwd: self.cwd.deep_view(),
            ports: self.ports@,
            start_time: self.start_time,
            user: self.user@,
            usage: self.usage,
        }
    }
}

impl Clone for RawListener {
    fn clone(&self) -> (r: RawListener)
        ensures
            r@ == self@,
    {
        RawListener {
            pid: self.pid,
            ppid: self.ppid,
            command: self.command.clone(),
            exe_path: self.exe_path.clone(),
            cwd: text::copy_option(&self.cwd),
            ports: copy_ports(&self.ports),
            start_time: self.start_time,
            user: self.user.clone(),
            usage: self.usage,
        }
    }
}

/// What each listener of a list holds.
pub open spec fn listener_views(v: Seq<RawListener>) -> Seq<RawListenerView> {
    v.map_values(|l: RawListener| l@)
}

/// A copy of a list of bindings.
pub fn copy_ports(v: &Vec<PortBinding>) -> (r: Vec<PortBinding>)
    ensures
        r@ == v@,
{
    let mut r: Vec<PortBinding> = Vec::new();
    let mut i: usize = 0;
    while i < v.len()
        invariant
            0 <= i <= v@.len(),
            r@ == v@.take(i as int),
        decreases v@.len() - i,
    {
        r.push(v[i]);
        i = i + 1;
        proof {
            assert(v@.take(i as int) =~= v@.take(i - 1).push(v@[i - 1]));
        }
    }
    proof {
        assert(v@.take(i as int) =~= v@);
    }
    r
}

/// Whether two bindings are the same address: one port on one family.
pub open spec fn same_address(a: PortBinding, b: PortBinding) -> bool {
    a.port == b.port && a.family == b.family
}

/// Whether `b` is the address of one of `ports`.
pub open spec fn holds(ports: Seq<PortBinding>, b: PortBinding) -> bool {
    exists|i: int| 0 <= i < ports.len() && same_address(#[trigger] ports[i], b)
}

/// Whether `b` is the address of one of `ports`.
pub fn holds_address(ports: &Vec<PortBinding>, b: PortBinding) -> (r: bool)
    ensures
        r == holds(ports@, b),
{
    let mut i: usize = 0;
    while i < ports.len()
        invariant
            0 <= i <= ports@.len(),
            forall|k: int| 0 <= k < i ==> !same_address(#[trigger] ports@[k], b),
        decreases ports@.len() - i,
    {
        let p = ports[i];
        if p.port == b.port && p.family == b.family {
            proof {
                assert(same_address(ports@[i as int], b));
            }
            return true;
        }
        i = i + 1;
    }
    false
}

/// Whether two lists of bindings have an address in common.
pub open spec fn share_address(a: Seq<PortBinding>, b: Seq<PortBinding>) -> bool {
    exists|i: int| 0 <= i < a.len() && holds(b, #[trigger] a[i])
}

/// Whether two lists of bindings have an address in common.
pub fn shares_address(a: &Vec<PortBinding>, b: &Vec<PortBinding>) -> (r: bool)
    ensures
        r == share_address(a@, b@),
{
    let mut i: usize = 0;
    while i < a.len()
        invariant
            0 <= i <= a@.len(),
            forall|k: int| 0 <= k < i ==> !holds(b@, #[trigger] a@[k]),
        decreases a@.len() - i,
    {
        if holds_address(b, a[i]) {
            return true;
        }
        i = i + 1;
    }
    false
}

/// What the rest of the application needs of an operating system.
pub trait ProcessSource {
    /// Every TCP listener of the current user, one entry for each process.
    fn enumerate(&self) -> Result<Vec<RawListener>, String>;

    /// The name of the outermost application bundle that an executable lives in.
    fn owning_app(&self, exe: &str) -> Option<String>;

    /// Ask a process to stop. A request, not a guarantee.
    fn request_stop(&self, pid: u32) -> Result<(), String>;

    /// End a process without waiting.
    fn force_stop(&self, pid: u32) -> Result<(), String>;
}

} // verus!

//! The vocabulary of the domain.
use crate::platform::PortBinding;
use crate::text;
use vstd::prelude::*;

pub use crate::platform::Reachability;

verus! {

/// The repository a Server was started from.
#[derive(Debug, PartialEq, Eq)]
pub struct Project {
    /// The directory that holds the project marker.
    pub root: String,
    /// The name of that directory.
    pub name: String,
}

/// What a [`Project`] holds.
#[verifier::ext_equal]
pub struct ProjectView {
    pub root: Seq<char>,
    pub name: Seq<char>,
}

impl View for Project {
    type V = ProjectView;

    open spec fn view(&self) -> ProjectView {
        ProjectView { root: self.root@, name: self.name@ }
    }
}

impl Clone for Project {
    fn clone(&self) -> (r: Project)
        ensures
            r@ == self@,
    {
        Project { root: self.root.clone(), name: self.name.clone() }
    }
}

/// The part of a Project a Server belongs to, where the Project holds several.
#[derive(Debug, PartialEq, Eq)]
pub struct Package {
    /// The package's directory, seen from the Project's root.
    pub relative_path: String,
}

impl View for Package {
    type V = Seq<char>;

    open spec fn view(&self) -> Seq<char> {
        self.relative_path@
    }
}

impl Clone for Package {
    fn clone(&self) -> (r: Package)
        ensures
            r@ == self@,
    {
        Package { relative_path: self.relative_path.clone() }
    }
}

/// The package's directory, where there is a package.
pub open spec fn package_view(p: Option<Package>) -> Option<Seq<char>> {
    match p {
        Some(p) => Some(p@),
        None => None,
    }
}

/// A copy of a package, where there is one.
pub fn copy_package(p: &Option<Package>) -> (r: Option<Package>)
    ensures
        package_view(r) == package_view(*p),
{
    match p {
        Some(p) => Some(p.clone()),
        None => None,
    }
}

/// How surely a Server's Project is known.
///
/// The only way to the Project inside is to match on this type, so that a guess is
/// never taken for a fact by leaving out a test.
#[derive(Debug, PartialEq, Eq)]
pub enum ProjectAttribution {
    /// The working directory says what the Server serves.
    Known(Project, Option<Package>),
    /// The working directory does not reliably say what the Server serves.
    Guessed(Project, Option<Package>),
    /// There is no Project, or the working directory is not known.
    NoProject,
}

/// What a [`ProjectAttribution`] holds.
#[verifier::ext_equal]
pub enum AttributionView {
    Known(ProjectView, Option<Seq<char>>),
    Guessed(ProjectView, Option<Seq<char>>),
    NoProject,
}

impl View for ProjectAttribution {
    type V = AttributionView;

    open spec fn view(&self) -> AttributionView {
        match self {
            ProjectAttribution::Known(p, k) => AttributionView::Known(p@, package_view(*k)),
            ProjectAttribution::Guessed(p, k) => AttributionView::Guessed(p@, package_view(*k)),
            ProjectAttribution::NoProject => AttributionView::NoProject,
        }
    }
}

impl Clone for ProjectAttribution {
    fn clone(&self) -> (r: ProjectAttribution)
        ensures
            r@ == self@,
    {
        match self {
            ProjectAttribution::Known(p, k) => ProjectAttribution::Known(
                p.clone(),
                copy_package(k),
            ),
            ProjectAttribution::Guessed(p, k) => ProjectAttribution::Guessed(
                p.clone(),
                copy_package(k),
            ),
            ProjectAttribution::NoProject => ProjectAttribution::NoProject,
        }
    }
}

/// What a Server is, which decides what stopping it destroys. Every Server is exactly
/// one of these.
#[derive(Debug, Clone, Copy, PartialEq, Eq, Structural)]
pub enum Kind {
    /// Belongs to a Project and serves only that.
    DevServer,
    /// Part of a larger application; stopping it quits the application.
    PartOfApp,
    /// Holds ports for other things; stopping it takes those down too.
    BackgroundService,
    /// A program the user runs on purpose that belongs to no Project.
    YourOwnTool,
    /// Belongs to the system; never stopped through this tool.
    PartOfMacOS,
}

impl Kind {
    /// Whether a Server of this Kind is shown but never stopped.
    pub open spec fn watch_only(self) -> bool {
        self == Kind::PartOfMacOS || self == Kind::YourOwnTool
    }

    /// Whether a Server of this Kind is shown but never stopped. A background service
    /// is not among these: it can be stopped, with a warning about what it holds up.
    pub fn is_watch_only(self) -> (r: bool)
        ensures
            r == self.watch_only(),
    {
        match self {
            Kind::PartOfMacOS | Kind::YourOwnTool => true,
            _ => false,
        }
    }
}

/// A running program that holds a local address: the unit of display and of stopping.
#[derive(Debug, PartialEq, Eq)]
pub struct Server {
    pub pid: u32,
    pub command: String,
    pub ports: Vec<PortBinding>,
    pub attribution: ProjectAttribution,
    pub kind: Kind,
    /// The outermost application bundle that the Server is part of.
    pub belongs_to: Option<String>,
}

impl Clone for Server {
    fn clone(&self) -> (r: Server)
        ensures
            r.pid == self.pid,
            r.command@ == self.command@,
            r.ports@ == self.ports@,
            r.attribution@ == self.attribution@,
            r.kind == self.kind,
            r.belongs_to.deep_view() == self.belongs_to.deep_view(),
    {
        Server {
            pid: self.pid,
            command: self.command.clone(),
            ports: crate::platform::copy_ports(&self.ports),
            attribution: self.attribution.clone(),
            kind: self.kind,
            belongs_to: text::copy_option(&self.belongs_to),
        }
    }
}

/// Whether a Server still answers when something connects to it.
#[derive(Debug, Clone, Copy, PartialEq, Eq, Structural)]
pub enum Health {
    Responding,
    NotResponding,
    /// Not checked this time.
    Unknown,
}

/// Which processes the application must never offer to stop, because they are the
/// application: itself, and in a development build the process that launched it, which
/// there is the one that holds the port.
#[derive(Debug, Clone, Copy, PartialEq, Eq, Structural)]
pub struct SelfPids {
    /// The application's own process. Always guarded.
    pub own: u32,
    /// Its direct parent, where it is guarded and known.
    pub dev_parent: Option<u32>,
}

impl SelfPids {
    /// Whether `pid` is the application itself or the process running it.
    pub open spec fn guards(self, pid: u32) -> bool {
        pid == self.own || self.dev_parent == Some(pid)
    }

    /// Whether `pid` is the application itself or the process running it.
    pub fn covers(&self, pid: u32) -> (r: bool)
        ensures
            r == self.guards(pid),
    {
        pid == self.own || (match self.dev_parent {
            Some(p) => p == pid,
            None => false,
        })
    }
}

} // verus!

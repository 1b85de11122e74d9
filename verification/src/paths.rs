//! Paths as lists of components, and the rule that tools stay within the workspace.
use vstd::prelude::*;
use vstd::string::*;

verus! {

/// A component of a path. Names are held as the bytes that the platform encodes them in, a prefix
/// as bytes that tell what kind of prefix it is and for what.
#[derive(Debug)]
pub enum PathComponent {
    Prefix(Vec<u8>),
    RootDir,
    CurDir,
    ParentDir,
    Normal(Vec<u8>),
}

/// What a [`PathComponent`] stands for.
pub enum ComponentView {
    Prefix(Seq<u8>),
    RootDir,
    CurDir,
    ParentDir,
    Normal(Seq<u8>),
}

impl View for PathComponent {
    type V = ComponentView;

    open spec fn view(&self) -> ComponentView {
        match *self {
            PathComponent::Prefix(b) => ComponentView::Prefix(b@),
            PathComponent::RootDir => ComponentView::RootDir,
            PathComponent::CurDir => ComponentView::CurDir,
            PathComponent::ParentDir => ComponentView::ParentDir,
            PathComponent::Normal(b) => ComponentView::Normal(b@),
        }
    }
}

/// What a path stands for.
pub open spec fn path_view(p: Seq<PathComponent>) -> Seq<ComponentView> {
    Seq::new(p.len(), |i: int| p[i]@)
}

/// Whether a path is another one, or lies beneath it.
pub open spec fn is_within(path: Seq<ComponentView>, base: Seq<ComponentView>) -> bool {
    base.len() <= path.len() && path.take(base.len() as int) == base
}

fn same_bytes(a: &Vec<u8>, b: &Vec<u8>) -> (r: bool)
    ensures
        r == (a@ == b@),
{
    if a.len() != b.len() {
        return false;
    }
    let mut i: usize = 0;
    while i < a.len()
        invariant
            i <= a.len(),
            a.len() == b.len(),
            forall|j: int| 0 <= j < i ==> a@[j] == b@[j],
        decreases a.len() - i,
    {
        if a[i] != b[i] {
            return false;
        }
        i += 1;
    }
    assert(a@ =~= b@);
    true
}

fn same_component(a: &PathComponent, b: &PathComponent) -> (r: bool)
    ensures
        r == (a@ == b@),
{
    match (a, b) {
        (PathComponent::Prefix(x), PathComponent::Prefix(y)) => same_bytes(x, y),
        (PathComponent::RootDir, PathComponent::RootDir) => true,
        (PathComponent::CurDir, PathComponent::CurDir) => true,
        (PathComponent::ParentDir, PathComponent::ParentDir) => true,
        (PathComponent::Normal(x), PathComponent::Normal(y)) => same_bytes(x, y),
        _ => false,
    }
}

/// Whether a path is another one, or lies beneath it.
pub fn path_starts_with(path: &[PathComponent], base: &[PathComponent]) -> (r: bool)
    ensures
        r == is_within(path_view(path@), path_view(base@)),
{
    if path.len() < base.len() {
        return false;
    }
    let mut i: usize = 0;
    while i < base.len()
        invariant
            i <= base@.len() <= path@.len(),
            forall|j: int| 0 <= j < i ==> (#[trigger] path@[j])@ == base@[j]@,
        decreases base.len() - i,
    {
        if !same_component(&path[i], &base[i]) {
            assert(path_view(path@).take(base@.len() as int)[i as int] != path_view(base@)[i as int]);
            return false;
        }
        i += 1;
    }
    assert(path_view(path@).take(base@.len() as int) =~= path_view(base@));
    true
}

/// Whether two paths are the same.
pub fn same_path(a: &[PathComponent], b: &[PathComponent]) -> (r: bool)
    ensures
        r == (path_view(a@) == path_view(b@)),
{
    let r = a.len() == b.len() && path_starts_with(a, b);
    assert(a@.len() == b@.len() ==> path_view(a@).take(b@.len() as int) =~= path_view(a@));
    assert(path_view(a@).len() == a@.len() && path_view(b@).len() == b@.len());
    r
}

/// What the file system tells about a path that a tool was given.
#[derive(Debug)]
pub struct PathFacts {
    /// Whether something exists there.
    pub exists: bool,
    /// The path, with its links resolved as far as it can be.
    pub resolved: Vec<PathComponent>,
    /// The directory that holds it, with its links resolved as far as it can be; the root of a
    /// file system has none.
    pub parent: Option<Vec<PathComponent>>,
    /// The workspace, with its links resolved as far as it can be.
    pub workdir: Vec<PathComponent>,
}

/// What a [`PathFacts`] stands for.
pub struct FactsView {
    pub exists: bool,
    pub resolved: Seq<ComponentView>,
    pub parent: Option<Seq<ComponentView>>,
    pub workdir: Seq<ComponentView>,
}

impl View for PathFacts {
    type V = FactsView;

    open spec fn view(&self) -> FactsView {
        FactsView {
            exists: self.exists,
            resolved: path_view(self.resolved@),
            parent: match self.parent {
                Some(p) => Some(path_view(p@)),
                None => None,
            },
            workdir: path_view(self.workdir@),
        }
    }
}

impl FactsView {
    /// The path that has to lie within the workspace: what exists itself, and of what does not
    /// exist yet the directory that would hold it.
    pub open spec fn checked(self) -> Seq<ComponentView> {
        if self.exists {
            self.resolved
        } else {
            match self.parent {
                Some(p) => p,
                None => self.workdir,
            }
        }
    }

    /// Whether a tool may use the path.
    pub open spec fn is_safe(self) -> bool {
        is_within(self.checked(), self.workdir)
    }
}

/// What is said of a path outside the workspace.
pub open spec fn escape_message(p: Seq<char>) -> Seq<char> {
    "Path escapes workspace: "@ + p
}

/// Lets a path pass that lies within the workspace. `p` is the path as it was given.
pub fn safe_path(facts: &PathFacts, p: &str) -> (r: Result<(), String>)
    ensures
        match r {
            Ok(()) => facts@.is_safe(),
            Err(e) => !facts@.is_safe() && e@ == escape_message(p@),
        },
{
    let within = if facts.exists {
        path_starts_with(facts.resolved.as_slice(), facts.workdir.as_slice())
    } else {
        match &facts.parent {
            Some(parent) => path_starts_with(parent.as_slice(), facts.workdir.as_slice()),
            None => path_starts_with(facts.workdir.as_slice(), facts.workdir.as_slice()),
        }
    };
    if within {
        Ok(())
    } else {
        let mut e = "Path escapes workspace: ".to_owned();
        e.append(p);
        Err(e)
    }
}

// ---------------------------------------------------------------------------
// Laws
// ---------------------------------------------------------------------------

/// The workspace itself may be used, and so may everything beneath it.
pub proof fn law_workspace_is_safe(facts: FactsView, beneath: Seq<ComponentView>)
    requires
        facts.exists,
        facts.resolved == facts.workdir + beneath,
    ensures
        facts.is_safe(),
{
    assert(facts.resolved.take(facts.workdir.len() as int) =~= facts.workdir);
}

/// What exists may be used only where it lies in the workspace: its path is that of the
/// workspace with something behind it.
pub proof fn law_outside_is_refused(facts: FactsView)
    requires
        facts.exists,
        facts.is_safe(),
    ensures
        facts.resolved == facts.workdir + facts.resolved.skip(facts.workdir.len() as int),
{
    assert(facts.resolved =~= facts.workdir + facts.resolved.skip(facts.workdir.len() as int));
}

/// What does not exist yet may be used exactly where the directory that would hold it lies in the
/// workspace.
pub proof fn law_new_files_are_judged_by_parent(facts: FactsView)
    requires
        !facts.exists,
        facts.parent is Some,
    ensures
        facts.is_safe() <==> is_within(facts.parent->Some_0, facts.workdir),
{
}

/// A tool may use a path exactly where what counts lies in the workspace: what exists itself, of
/// what does not exist yet the directory that would hold it, if there is one.
pub proof fn law_safe_iff_beneath_the_workspace(facts: FactsView)
    ensures
        facts.exists ==> (facts.is_safe() <==> exists|rest: Seq<ComponentView>|
            facts.resolved == #[trigger] (facts.workdir + rest)),
        !facts.exists && facts.parent is Some ==> (facts.is_safe() <==> exists|
            rest: Seq<ComponentView>,
        | facts.parent->Some_0 == #[trigger] (facts.workdir + rest)),
        !facts.exists && facts.parent is None ==> facts.is_safe(),
{
    if facts.exists {
        lemma_within(facts.resolved, facts.workdir);
    } else if let Some(parent) = facts.parent {
        lemma_within(parent, facts.workdir);
    } else {
        assert(facts.workdir.take(facts.workdir.len() as int) =~= facts.workdir);
    }
}

proof fn lemma_within(path: Seq<ComponentView>, base: Seq<ComponentView>)
    ensures
        is_within(path, base) <==> exists|rest: Seq<ComponentView>| path == #[trigger] (base + rest),
{
    if is_within(path, base) {
        assert(path =~= base + path.skip(base.len() as int));
    }
    if exists|rest: Seq<ComponentView>| path == #[trigger] (base + rest) {
        let rest = choose|rest: Seq<ComponentView>| path == #[trigger] (base + rest);
        assert(path.take(base.len() as int) =~= base);
    }
}

} // verus!

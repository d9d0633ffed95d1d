//! Commits of surfaces.
use crate::search::first_where;
use crate::search::lemma_first_found;
use crate::search::lemma_first_missing;
use crate::search::lemma_first_where;
use crate::space::has_surface;
use crate::space::Window;
use crate::state::ProjectWC;
use vstd::prelude::*;

verus! {

/// The way from a surface up to the root of its tree.
#[derive(Clone, Copy, PartialEq, Eq, Structural, Debug)]
pub enum CommitWalk {
    /// Who is the parent of this surface?
    AskParent(u64),
    /// This surface has none.
    Root(u64),
    /// The surface's state is applied together with its parent's, so there is no need to go.
    Skipped,
}

/// A step of handling a commit.
#[derive(Clone, Copy, PartialEq, Eq, Structural, Debug)]
pub enum CommitCommand {
    /// Take up the surface's new buffer.
    ProcessBuffer(u64),
    /// Tell the window.
    WindowCommit(u64),
    /// Tell the shell's popups and toplevels.
    ShellCommit(u64),
    /// Tell a window that is being resized.
    ResizeCommit(u64),
    /// Tell the layers.
    LayerCommit(u64),
}

impl CommitWalk {
    /// The start of the way.
    pub open spec fn started(surface: u64, sync_subsurface: bool) -> CommitWalk {
        if sync_subsurface {
            CommitWalk::Skipped
        } else {
            CommitWalk::AskParent(surface)
        }
    }

    /// One step up.
    pub open spec fn stepped(self, parent: Option<u64>) -> CommitWalk {
        match (self, parent) {
            (CommitWalk::AskParent(_), Some(p)) => CommitWalk::AskParent(p),
            (CommitWalk::AskParent(s), None) => CommitWalk::Root(s),
            (done, _) => done,
        }
    }

    /// Sets out from a surface.
    pub fn start(surface: u64, sync_subsurface: bool) -> (r: CommitWalk)
        ensures
            r == CommitWalk::started(surface, sync_subsurface),
    {
        if sync_subsurface {
            CommitWalk::Skipped
        } else {
            CommitWalk::AskParent(surface)
        }
    }

    /// Goes one step up, with the parent that was asked for.
    pub fn step(self, parent: Option<u64>) -> (r: CommitWalk)
        ensures
            r == self.stepped(parent),
    {
        match self {
            CommitWalk::AskParent(surface) => match parent {
                Some(p) => CommitWalk::AskParent(p),
                None => CommitWalk::Root(surface),
            },
            done => done,
        }
    }
}

/// The window that a commit concerns: the one whose toplevel is the root of the tree.
pub open spec fn window_steps(walk: CommitWalk, windows: Seq<Window>) -> Seq<CommitCommand> {
    match walk {
        CommitWalk::Root(root) => match first_where(windows, has_surface(root)) {
            Some(i) => seq![CommitCommand::WindowCommit(windows[i].id)],
            None => Seq::empty(),
        },
        _ => Seq::empty(),
    }
}

/// The steps of handling a commit of a surface, at the end of the way to its root.
pub open spec fn commit_steps(surface: u64, walk: CommitWalk, windows: Seq<Window>) -> Seq<
    CommitCommand,
> {
    seq![CommitCommand::ProcessBuffer(surface)] + window_steps(walk, windows) + seq![
        CommitCommand::ShellCommit(surface),
        CommitCommand::ResizeCommit(surface),
        CommitCommand::LayerCommit(surface),
    ]
}

/// Handles a commit of a surface, once the way to its root has been gone.
pub fn commit(surface: u64, walk: CommitWalk, projectwc: &ProjectWC) -> (r: Vec<CommitCommand>)
    requires
        !(walk is AskParent),
    ensures
        r@ == commit_steps(surface, walk, projectwc.space.elements@),
        forall|id: u64| #[trigger]
            r@.contains(CommitCommand::WindowCommit(id)) ==> walk is Root && exists|i: int|
                0 <= i < projectwc.space.elements@.len() && (
                #[trigger] projectwc.space.elements@[i]).id == id
                    && projectwc.space.elements@[i].toplevel == Some(walk->Root_0),
{
    let mut r: Vec<CommitCommand> = Vec::new();
    r.push(CommitCommand::ProcessBuffer(surface));
    if let CommitWalk::Root(root) = walk {
        if let Some(window) = projectwc.window_for_surface(root) {
            r.push(CommitCommand::WindowCommit(window.id));
        }
    }
    r.push(CommitCommand::ShellCommit(surface));
    r.push(CommitCommand::ResizeCommit(surface));
    r.push(CommitCommand::LayerCommit(surface));
    proof {
        assert(r@ =~= commit_steps(surface, walk, projectwc.space.elements@));
        let windows = projectwc.space.elements@;
        assert forall|id: u64| #[trigger]
            r@.contains(CommitCommand::WindowCommit(id)) implies walk is Root && exists|i: int|
            0 <= i < windows.len() && (#[trigger] windows[i]).id == id && windows[i].toplevel == Some(
                walk->Root_0,
            ) by {
            if let CommitWalk::Root(root) = walk {
                law_told_window_has_the_root(surface, root, windows, id);
            }
        }
    }
    r
}

/// The way after all of these answers.
pub open spec fn walked(walk: CommitWalk, answers: Seq<Option<u64>>) -> CommitWalk
    decreases answers.len(),
{
    if answers.len() == 0 {
        walk
    } else {
        walked(walk, answers.drop_last()).stepped(answers.last())
    }
}

/// What is answered along a chain of surfaces, each the parent of the one before: the next
/// surface, and nothing for the last.
pub open spec fn answers_along(chain: Seq<u64>) -> Seq<Option<u64>> {
    Seq::new(
        chain.len(),
        |i: int|
            if i + 1 < chain.len() {
                Some(chain[i + 1])
            } else {
                None
            },
    )
}

proof fn lemma_walked_part(chain: Seq<u64>, n: int)
    requires
        0 <= n < chain.len(),
    ensures
        walked(CommitWalk::AskParent(chain[0]), answers_along(chain).take(n))
            == CommitWalk::AskParent(chain[n]),
    decreases n,
{
    let answers = answers_along(chain);
    if n == 0 {
        assert(answers.take(0) =~= Seq::<Option<u64>>::empty());
    } else {
        lemma_walked_part(chain, n - 1);
        assert(answers.take(n).drop_last() =~= answers.take(n - 1));
        assert(answers.take(n).last() == answers[n - 1]);
    }
}

/// However deep a surface lies in its tree, the way up from it ends at the root.
pub proof fn law_walk_ends_at_root(chain: Seq<u64>)
    requires
        chain.len() > 0,
    ensures
        walked(CommitWalk::started(chain[0], false), answers_along(chain)) == CommitWalk::Root(
            chain.last(),
        ),
{
    let answers = answers_along(chain);
    let n = chain.len() - 1;
    lemma_walked_part(chain, n);
    assert(answers.drop_last() =~= answers.take(n));
}

/// Whatever is answered, nothing is asked of a surface whose state is applied together with
/// its parent's, and its commit reaches no window.
pub proof fn law_sync_subsurface_reaches_no_window(
    surface: u64,
    answers: Seq<Option<u64>>,
    windows: Seq<Window>,
)
    ensures
        walked(CommitWalk::started(surface, true), answers) == CommitWalk::Skipped,
        window_steps(walked(CommitWalk::started(surface, true), answers), windows).len() == 0,
    decreases answers.len(),
{
    if answers.len() > 0 {
        law_sync_subsurface_reaches_no_window(surface, answers.drop_last(), windows);
    }
}

/// Where a commit tells a window, the window is on the space and its toplevel's surface is
/// the root of the tree that was committed.
pub proof fn law_told_window_has_the_root(
    surface: u64,
    root: u64,
    windows: Seq<Window>,
    id: u64,
)
    requires
        commit_steps(surface, CommitWalk::Root(root), windows).contains(
            CommitCommand::WindowCommit(id),
        ),
    ensures
        exists|i: int|
            0 <= i < windows.len() && (#[trigger] windows[i]).id == id && windows[i].toplevel == Some(
                root,
            ) && forall|j: int| 0 <= j < i ==> (#[trigger] windows[j]).toplevel != Some(root),
{
    let steps = commit_steps(surface, CommitWalk::Root(root), windows);
    let wanted = has_surface(root);
    lemma_first_where(windows, wanted);
    let k = choose|k: int| 0 <= k < steps.len() && steps[k] == CommitCommand::WindowCommit(id);
    match first_where(windows, wanted) {
        Some(i) => {
            assert(k == 1);
            assert(windows[i].id == id);
            assert forall|j: int| 0 <= j < i implies (#[trigger] windows[j]).toplevel != Some(root) by {
                assert(!wanted(windows[j]));
            }
        },
        None => {
            assert(steps.len() == 4);
        },
    }
}

/// A commit takes up the surface's new buffer, then tells the window of the root, if there
/// is one, the first where there are several, and then the shell, the resizing and the
/// layers. No other window is told, and none where the way did not end at a root.
pub proof fn law_commit_goes_in_order(surface: u64, walk: CommitWalk, windows: Seq<Window>, i: int)
    requires
        0 <= i < windows.len(),
    ensures
        ({
            let steps = commit_steps(surface, walk, windows);
            let n = steps.len() as int;
            let first = walk matches CommitWalk::Root(root) && windows[i].toplevel == Some(root)
                && forall|j: int| 0 <= j < i ==> (#[trigger] windows[j]).toplevel != Some(root);
            &&& n == 4 || n == 5
            &&& steps[0] == CommitCommand::ProcessBuffer(surface)
            &&& first ==> n == 5 && steps[1] == CommitCommand::WindowCommit(windows[i].id)
            &&& steps[n - 3] == CommitCommand::ShellCommit(surface)
            &&& steps[n - 2] == CommitCommand::ResizeCommit(surface)
            &&& steps[n - 1] == CommitCommand::LayerCommit(surface)
            &&& !(walk is Root) ==> n == 4
        }),
{
    if let CommitWalk::Root(root) = walk {
        if windows[i].toplevel == Some(root) && forall|j: int|
            0 <= j < i ==> (#[trigger] windows[j]).toplevel != Some(root) {
            lemma_first_found(windows, has_surface(root), i);
        }
    }
}

/// Where no window has the root of the tree, a commit tells no window.
pub proof fn law_commit_without_window(surface: u64, root: u64, windows: Seq<Window>)
    requires
        forall|j: int| 0 <= j < windows.len() ==> (#[trigger] windows[j]).toplevel != Some(root),
    ensures
        commit_steps(surface, CommitWalk::Root(root), windows) == seq![
            CommitCommand::ProcessBuffer(surface),
            CommitCommand::ShellCommit(surface),
            CommitCommand::ResizeCommit(surface),
            CommitCommand::LayerCommit(surface),
        ],
{
    lemma_first_missing(windows, has_surface(root));
    assert(commit_steps(surface, CommitWalk::Root(root), windows) =~= seq![
        CommitCommand::ProcessBuffer(surface),
        CommitCommand::ShellCommit(surface),
        CommitCommand::ResizeCommit(surface),
        CommitCommand::LayerCommit(surface),
    ]);
}

/// A way that has ended stays where it ended, whatever is answered after that; one that goes
/// on is at the parent that was answered.
pub proof fn law_walk_goes_up_and_stops(surface: u64, parent: u64, answer: Option<u64>)
    ensures
        CommitWalk::started(surface, false) == CommitWalk::AskParent(surface),
        CommitWalk::AskParent(surface).stepped(Some(parent)) == CommitWalk::AskParent(parent),
        CommitWalk::AskParent(surface).stepped(None) == CommitWalk::Root(surface),
        CommitWalk::Root(surface).stepped(answer) == CommitWalk::Root(surface),
        CommitWalk::Skipped.stepped(answer) == CommitWalk::Skipped,
{
}

/// Where the way did not end at a root, a commit tells no window, whatever windows there are.
pub proof fn law_commit_off_the_root(surface: u64, walk: CommitWalk, windows: Seq<Window>)
    requires
        !(walk is Root),
    ensures
        commit_steps(surface, walk, windows) == seq![
            CommitCommand::ProcessBuffer(surface),
            CommitCommand::ShellCommit(surface),
            CommitCommand::ResizeCommit(surface),
            CommitCommand::LayerCommit(surface),
        ],
{
    assert(commit_steps(surface, walk, windows) =~= seq![
        CommitCommand::ProcessBuffer(surface),
        CommitCommand::ShellCommit(surface),
        CommitCommand::ResizeCommit(surface),
        CommitCommand::LayerCommit(surface),
    ]);
}

} // verus!

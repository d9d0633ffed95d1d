//! What the user can ask for.
use crate::search::first_where;
use crate::search::lemma_first_found;
use crate::search::lemma_first_missing;
use crate::space::has_surface;
use crate::space::Window;
use crate::state::ProjectWC;
use vstd::prelude::*;

verus! {

/// A thing that the user can ask for.
#[derive(Clone, Copy, PartialEq, Eq, Structural, Debug)]
pub enum Action {
    FocusNext,
    FocusPrevious,
}

/// Which way the focus moves.
#[derive(Clone, Copy, PartialEq, Eq, Structural, Debug)]
pub enum Direction {
    Next,
    Previous,
}

/// A step of a change of focus. Windows are named by their toplevel's surface.
#[derive(Clone, Copy, PartialEq, Eq, Structural, Debug)]
pub enum FocusCommand {
    /// Tell the toplevel that it is no longer active.
    Deactivate(u64),
    /// Tell the toplevel that it is active.
    Activate(u64),
    /// Give the keyboard to the surface.
    SetFocus(u64),
}

/// The index that the focus moves to: one further, but not past the ends of the stack.
pub open spec fn target_of(direction: Direction, current: int, count: int) -> int {
    match direction {
        Direction::Next => if current + 1 < count {
            current + 1
        } else {
            count - 1
        },
        Direction::Previous => if current > 0 {
            current - 1
        } else {
            0
        },
    }
}

/// The steps that move the focus away from one window and on to another.
pub open spec fn focus_steps(from: Window, to: Window) -> Seq<FocusCommand> {
    let leave = match from.toplevel {
        Some(s) => seq![FocusCommand::Deactivate(s)],
        None => Seq::<FocusCommand>::empty(),
    };
    let enter = match to.toplevel {
        Some(s) => seq![FocusCommand::Activate(s), FocusCommand::SetFocus(s)],
        None => Seq::<FocusCommand>::empty(),
    };
    leave + enter
}

/// The steps of a change of focus on a stack of windows where `focus` has the keyboard.
/// Nothing happens where the keyboard belongs to no window.
pub open spec fn change_focus_of(
    direction: Direction,
    windows: Seq<Window>,
    focus: Option<u64>,
) -> Seq<FocusCommand> {
    match focus {
        Some(surface) => match first_where(windows, has_surface(surface)) {
            Some(i) => focus_steps(
                windows[i],
                windows[target_of(direction, i, windows.len() as int)],
            ),
            None => Seq::empty(),
        },
        None => Seq::empty(),
    }
}

impl Action {
    /// The direction in which the action moves the focus.
    pub open spec fn direction(self) -> Direction {
        match self {
            Action::FocusNext => Direction::Next,
            Action::FocusPrevious => Direction::Previous,
        }
    }

    /// Performs the action; `focus` is the surface that has the keyboard.
    pub fn execute(self, projectwc: &ProjectWC, focus: Option<u64>) -> (r: Vec<FocusCommand>)
        ensures
            r@ == change_focus_of(self.direction(), projectwc.space.elements@, focus),
            r@ == change_focus_of(
                match self {
                    Action::FocusNext => Direction::Next,
                    Action::FocusPrevious => Direction::Previous,
                },
                projectwc.space.elements@,
                focus,
            ),
    {
        match self {
            Action::FocusNext => change_focus(Direction::Next, projectwc, focus),
            Action::FocusPrevious => change_focus(Direction::Previous, projectwc, focus),
        }
    }
}

/// Moves the focus to the next or the previous window of the stack.
pub fn change_focus(direction: Direction, projectwc: &ProjectWC, focus: Option<u64>) -> (r: Vec<
    FocusCommand,
>)
    ensures
        r@ == change_focus_of(direction, projectwc.space.elements@, focus),
{
    let windows = &projectwc.space.elements;
    let mut steps: Vec<FocusCommand> = Vec::new();
    let surface = match focus {
        Some(surface) => surface,
        None => return steps,
    };
    let current = match projectwc.window_index(surface) {
        Some(current) => current,
        None => return steps,
    };
    let target: usize = match direction {
        Direction::Next => if current < windows.len() - 1 {
            current + 1
        } else {
            windows.len() - 1
        },
        Direction::Previous => if current > 0 {
            current - 1
        } else {
            0
        },
    };
    if let Some(s) = windows[current].toplevel {
        steps.push(FocusCommand::Deactivate(s));
    }
    if let Some(s) = windows[target].toplevel {
        steps.push(FocusCommand::Activate(s));
        steps.push(FocusCommand::SetFocus(s));
    }
    proof {
        assert(steps@ =~= focus_steps(windows@[current as int], windows@[target as int]));
    }
    steps
}

/// Every window of the stack has a surface of its own.
pub open spec fn all_apart(windows: Seq<Window>) -> bool {
    &&& forall|i: int| 0 <= i < windows.len() ==> (#[trigger] windows[i]).toplevel is Some
    &&& forall|i: int, j: int|
        0 <= i < j < windows.len() ==> (#[trigger] windows[i]).toplevel != (
        #[trigger] windows[j]).toplevel
}

proof fn lemma_focused(windows: Seq<Window>, i: int)
    requires
        all_apart(windows),
        0 <= i < windows.len(),
    ensures
        first_where(windows, has_surface(windows[i].toplevel->Some_0)) == Some(i),
{
    lemma_first_found(windows, has_surface(windows[i].toplevel->Some_0), i);
}

/// The focus never leaves the stack.
pub proof fn law_focus_stays_on_the_stack(direction: Direction, current: int, count: int)
    requires
        0 <= current < count,
    ensures
        0 <= target_of(direction, current, count) < count,
        -1 <= target_of(direction, current, count) - current <= 1,
{
}

/// Moving the focus on and moving it back returns to where it was.
pub proof fn law_focus_there_and_back(windows: Seq<Window>, i: int)
    requires
        all_apart(windows),
        0 <= i,
        i + 1 < windows.len(),
    ensures
        ({
            let here = windows[i].toplevel->Some_0;
            let there = windows[i + 1].toplevel->Some_0;
            &&& change_focus_of(Direction::Next, windows, Some(here)) == seq![
                FocusCommand::Deactivate(here),
                FocusCommand::Activate(there),
                FocusCommand::SetFocus(there),
            ]
            &&& change_focus_of(Direction::Previous, windows, Some(there)) == seq![
                FocusCommand::Deactivate(there),
                FocusCommand::Activate(here),
                FocusCommand::SetFocus(here),
            ]
        }),
{
    lemma_focused(windows, i);
    lemma_focused(windows, i + 1);
    let here = windows[i].toplevel->Some_0;
    let there = windows[i + 1].toplevel->Some_0;
    assert(focus_steps(windows[i], windows[i + 1]) =~= seq![
        FocusCommand::Deactivate(here),
        FocusCommand::Activate(there),
        FocusCommand::SetFocus(there),
    ]);
    assert(focus_steps(windows[i + 1], windows[i]) =~= seq![
        FocusCommand::Deactivate(there),
        FocusCommand::Activate(here),
        FocusCommand::SetFocus(here),
    ]);
}

/// At the ends of the stack the focus stays on the window that has it, which is left and
/// entered again.
pub proof fn law_focus_stops_at_the_ends(windows: Seq<Window>)
    requires
        all_apart(windows),
        windows.len() > 0,
    ensures
        ({
            let top = windows.last().toplevel->Some_0;
            let bottom = windows[0].toplevel->Some_0;
            &&& change_focus_of(Direction::Next, windows, Some(top)) == seq![
                FocusCommand::Deactivate(top),
                FocusCommand::Activate(top),
                FocusCommand::SetFocus(top),
            ]
            &&& change_focus_of(Direction::Previous, windows, Some(bottom)) == seq![
                FocusCommand::Deactivate(bottom),
                FocusCommand::Activate(bottom),
                FocusCommand::SetFocus(bottom),
            ]
        }),
{
    let n = windows.len() - 1;
    lemma_focused(windows, n);
    lemma_focused(windows, 0);
    let top = windows.last().toplevel->Some_0;
    let bottom = windows[0].toplevel->Some_0;
    assert(focus_steps(windows[n], windows[n]) =~= seq![
        FocusCommand::Deactivate(top),
        FocusCommand::Activate(top),
        FocusCommand::SetFocus(top),
    ]);
    assert(focus_steps(windows[0], windows[0]) =~= seq![
        FocusCommand::Deactivate(bottom),
        FocusCommand::Activate(bottom),
        FocusCommand::SetFocus(bottom),
    ]);
}

/// The user's two wishes move the focus in opposite directions.
pub proof fn law_actions_have_their_direction(action: Action)
    ensures
        action == Action::FocusNext <==> action.direction() == Direction::Next,
        action == Action::FocusPrevious <==> action.direction() == Direction::Previous,
{
}

/// The window that has the keyboard, which is the first of its surface, is left. The window
/// above it is entered where the focus moves on, the one below it where it moves back, and
/// at the end of the stack the window itself. A window without a toplevel cannot be entered.
pub proof fn law_focus_moves_by_one(
    direction: Direction,
    windows: Seq<Window>,
    surface: u64,
    i: int,
)
    requires
        0 <= i < windows.len(),
        windows[i].toplevel == Some(surface),
        forall|j: int| 0 <= j < i ==> (#[trigger] windows[j]).toplevel != Some(surface),
    ensures
        ({
            let steps = change_focus_of(direction, windows, Some(surface));
            let to = if direction == Direction::Next && i < windows.len() - 1 {
                windows[i + 1]
            } else if direction == Direction::Previous && i > 0 {
                windows[i - 1]
            } else {
                windows[i]
            };
            &&& steps.len() > 0
            &&& steps[0] == FocusCommand::Deactivate(surface)
            &&& steps.skip(1) == (match to.toplevel {
                Some(entered) => seq![
                    FocusCommand::Activate(entered),
                    FocusCommand::SetFocus(entered),
                ],
                None => Seq::empty(),
            })
        }),
{
    lemma_first_found(windows, has_surface(surface), i);
    let steps = change_focus_of(direction, windows, Some(surface));
    let to = if direction == Direction::Next && i < windows.len() - 1 {
        windows[i + 1]
    } else if direction == Direction::Previous && i > 0 {
        windows[i - 1]
    } else {
        windows[i]
    };
    assert(steps == focus_steps(windows[i], to));
    match to.toplevel {
        Some(entered) => {
            assert(steps.skip(1) =~= seq![
                FocusCommand::Activate(entered),
                FocusCommand::SetFocus(entered),
            ]);
        },
        None => {
            assert(steps.skip(1) =~= Seq::empty());
        },
    }
}

/// Nothing moves where nothing has the keyboard, or something that belongs to no window.
pub proof fn law_focus_elsewhere_stays(direction: Direction, windows: Seq<Window>, surface: u64)
    ensures
        change_focus_of(direction, windows, None).len() == 0,
        (forall|j: int| 0 <= j < windows.len() ==> (#[trigger] windows[j]).toplevel != Some(surface))
            ==> change_focus_of(direction, windows, Some(surface)).len() == 0,
{
    if forall|j: int| 0 <= j < windows.len() ==> (#[trigger] windows[j]).toplevel != Some(surface) {
        lemma_first_missing(windows, has_surface(surface));
    }
}

} // verus!

use projectwc::action::{change_focus, Action, Direction, FocusCommand};
use projectwc::space::Window;
use projectwc::state::ProjectWC;

fn stack(windows: &[(u64, Option<u64>)]) -> ProjectWC {
    let mut wc = ProjectWC::new(String::from("wayland-1"));
    for (id, toplevel) in windows {
        wc.space.elements.push(Window { id: *id, toplevel: *toplevel });
    }
    wc
}

#[test]
fn focus_moves_to_the_next_window() {
    let wc = stack(&[(1, Some(11)), (2, Some(12))]);
    let steps = Action::FocusNext.execute(&wc, Some(11));
    assert_eq!(
        steps,
        vec![FocusCommand::Deactivate(11), FocusCommand::Activate(12), FocusCommand::SetFocus(12)]
    );
}

#[test]
fn focus_moves_to_the_previous_window() {
    let wc = stack(&[(1, Some(11)), (2, Some(12)), (3, Some(13))]);
    let steps = Action::FocusPrevious.execute(&wc, Some(13));
    assert_eq!(
        steps,
        vec![FocusCommand::Deactivate(13), FocusCommand::Activate(12), FocusCommand::SetFocus(12)]
    );
}

#[test]
fn focus_goes_there_and_back() {
    let wc = stack(&[(1, Some(11)), (2, Some(12)), (3, Some(13))]);
    let there = change_focus(Direction::Next, &wc, Some(12));
    assert_eq!(there[2], FocusCommand::SetFocus(13));
    let back = change_focus(Direction::Previous, &wc, Some(13));
    assert_eq!(back[2], FocusCommand::SetFocus(12));
}

#[test]
fn focus_stops_at_the_ends_of_the_stack() {
    let wc = stack(&[(1, Some(11)), (2, Some(12))]);
    let again = |s| vec![FocusCommand::Deactivate(s), FocusCommand::Activate(s), FocusCommand::SetFocus(s)];
    assert_eq!(Action::FocusNext.execute(&wc, Some(12)), again(12));
    assert_eq!(Action::FocusPrevious.execute(&wc, Some(11)), again(11));
}

#[test]
fn focus_passes_a_window_without_a_toplevel() {
    let wc = stack(&[(1, Some(11)), (2, None)]);
    assert_eq!(Action::FocusNext.execute(&wc, Some(11)), vec![FocusCommand::Deactivate(11)]);
}

#[test]
fn focus_stays_where_no_window_has_it() {
    let wc = stack(&[(1, Some(11))]);
    assert!(Action::FocusNext.execute(&wc, None).is_empty());
    assert!(Action::FocusPrevious.execute(&wc, Some(99)).is_empty());
    let empty = stack(&[]);
    assert!(Action::FocusNext.execute(&empty, Some(11)).is_empty());
}

use physics_rendering_engine::handles::BodyHandle;
use physics_rendering_engine::interaction::{Interaction, SwingAction, ToolType};

fn rb(i: u32) -> BodyHandle {
    BodyHandle { index: i, generation: 0 }
}

#[test]
fn press_prefers_item_drops_then_bodies_then_prying() {
    let mut it = Interaction::default();
    let o = it.interact(true, Some(7), Some(rb(1)), Some((0, 0, 0)));
    assert_eq!(o.picked_up_item, Some(7));
    assert!(o.grabbed.is_none());
    assert!(it.held_body.is_none());
    // Release, then press again with no drop around: grab the body.
    it.interact(false, None, None, None);
    let o = it.interact(true, None, Some(rb(1)), Some((0, 0, 0)));
    assert_eq!(o.grabbed, Some(rb(1)));
    assert_eq!(it.held_body, Some(rb(1)));
    assert!(!o.advance_pry);
    // Next press lets go.
    it.interact(false, None, None, None);
    let o = it.interact(true, None, None, None);
    assert_eq!(o.dropped, Some(rb(1)));
    assert!(it.held_body.is_none());
}

#[test]
fn prying_follows_the_aimed_cell() {
    let mut it = Interaction::default();
    let o = it.interact(true, None, None, Some((1, 2, 3)));
    assert!(o.reset_pry_timer && o.advance_pry);
    assert_eq!(it.pry_target, Some((1, 2, 3)));
    let o = it.interact(true, None, None, Some((1, 2, 3)));
    assert!(!o.reset_pry_timer && o.advance_pry);
    assert_eq!(it.take_pry_target(), Some((1, 2, 3)));
    assert_eq!(it.pry_target, None);
    // Looking away stops prying.
    it.interact(false, None, None, None);
    it.interact(true, None, None, Some((1, 2, 3)));
    let o = it.interact(true, None, None, Some((9, 9, 9)));
    assert!(o.reset_pry_timer && !o.advance_pry);
    assert_eq!(it.pry_target, None);
    // Releasing stops prying.
    it.interact(false, None, None, None);
    it.interact(true, None, None, Some((1, 2, 3)));
    let o = it.interact(false, None, None, Some((1, 2, 3)));
    assert!(o.reset_pry_timer);
    assert_eq!(it.pry_target, None);
}

#[test]
fn mouse_throws_or_swings() {
    let mut it = Interaction::default();
    assert_eq!(it.swing(true), SwingAction::Swing(ToolType::Hands));
    assert_eq!(it.swing(true), SwingAction::Idle);
    it.swing(false);
    it.interact(true, None, Some(rb(4)), None);
    assert_eq!(it.swing(true), SwingAction::Throw(rb(4)));
    assert!(it.held_body.is_none());
    it.cycle_tool(true);
    it.swing(false);
    assert_eq!(it.swing(true), SwingAction::Swing(ToolType::Axe));
    it.interact(false, None, None, None);
    it.interact(true, None, Some(rb(5)), None);
    assert_eq!(it.drop_held(), Some(rb(5)));
    assert_eq!(it.drop_held(), None);
}

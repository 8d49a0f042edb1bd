//! Tools the player can hold, and picking up, holding, throwing and prying.

use vstd::prelude::*;
use crate::building::grid::CellKey;
use crate::game::entity::EntityId;
use crate::handles::BodyHandle;

verus! {

#[derive(Debug, Clone, Copy, PartialEq, Eq, Structural)]
pub enum ToolType {
    Hands,
    Axe,
    Pickaxe,
    Hammer,
}

pub open spec fn tool_after(t: ToolType) -> ToolType {
    match t {
        ToolType::Hands => ToolType::Axe,
        ToolType::Axe => ToolType::Pickaxe,
        ToolType::Pickaxe => ToolType::Hammer,
        ToolType::Hammer => ToolType::Hands,
    }
}

pub open spec fn tool_name(t: ToolType) -> Seq<char> {
    match t {
        ToolType::Hands => "Hands"@,
        ToolType::Axe => "Axe"@,
        ToolType::Pickaxe => "Pickaxe"@,
        ToolType::Hammer => "Hammer"@,
    }
}

impl ToolType {
    pub fn next(self) -> (r: Self)
        ensures
            r == tool_after(self),
    {
        match self {
            ToolType::Hands => ToolType::Axe,
            ToolType::Axe => ToolType::Pickaxe,
            ToolType::Pickaxe => ToolType::Hammer,
            ToolType::Hammer => ToolType::Hands,
        }
    }

    pub fn name(self) -> (r: &'static str)
        ensures
            r@ == tool_name(self),
    {
        match self {
            ToolType::Hands => "Hands",
            ToolType::Axe => "Axe",
            ToolType::Pickaxe => "Pickaxe",
            ToolType::Hammer => "Hammer",
        }
    }
}

/// Cycling through the tools visits all four and comes back.
pub proof fn law_tool_cycle(t: ToolType)
    ensures
        tool_after(tool_after(tool_after(tool_after(t)))) == t,
        tool_after(t) != t,
{
}

/// Rising edge of a held button: pressed now and not pressed on the previous frame.
pub open spec fn rising_edge(pressed: bool, prev: bool) -> bool {
    pressed && !prev
}

/// What the interact key (E) did this frame. The pry timer is kept by the
/// caller: reset it first if `reset_pry_timer`, then advance it by the frame
/// time if `advance_pry`; once it reaches the pry duration, call
/// `take_pry_target` for the pried cell.
#[derive(Debug, Clone, Copy)]
pub struct InteractOutcome {
    /// The held body was let go (gravity back on).
    pub dropped: Option<BodyHandle>,
    /// The item drop to pick up.
    pub picked_up_item: Option<EntityId>,
    /// The dynamic body just picked up (gravity off while held).
    pub grabbed: Option<BodyHandle>,
    pub reset_pry_timer: bool,
    pub advance_pry: bool,
}

/// What the left mouse button did this frame.
#[derive(Debug, Clone, Copy, PartialEq, Eq, Structural)]
pub enum SwingAction {
    Idle,
    /// Throw the held body.
    Throw(BodyHandle),
    /// Use the equipped tool.
    Swing(ToolType),
}

/// Picking up, holding, throwing, punching, and prying building cubes: the
/// decisions, with the edge detectors of the keys that drive them.
#[derive(Debug, Clone, Copy)]
pub struct Interaction {
    pub held_body: Option<BodyHandle>,
    pub equipped_tool: ToolType,
    pub interact_prev: bool,
    pub punch_prev: bool,
    pub cycle_prev: bool,
    /// The building cell being pried loose while E is held.
    pub pry_target: Option<CellKey>,
}

impl Default for Interaction {
    fn default() -> (r: Self)
        ensures
            r.held_body is None,
            r.equipped_tool == ToolType::Hands,
            !r.interact_prev && !r.punch_prev && !r.cycle_prev,
            r.pry_target is None,
    {
        Interaction {
            held_body: None,
            equipped_tool: ToolType::Hands,
            interact_prev: false,
            punch_prev: false,
            cycle_prev: false,
            pry_target: None,
        }
    }
}

/// The interaction after the interact key's state `pressed` for one frame,
/// with what that frame did. `nearest_drop`: the item drop in pickup range;
/// `dynamic_hit`: the dynamic body under the crosshair in pickup range;
/// `aimed_cell`: the building cell under the crosshair.
pub open spec fn interact_spec(
    s: Interaction,
    pressed: bool,
    nearest_drop: Option<EntityId>,
    dynamic_hit: Option<BodyHandle>,
    aimed_cell: Option<CellKey>,
) -> (Interaction, InteractOutcome) {
    let edge = rising_edge(pressed, s.interact_prev);
    // E press: drop the held body, or pick up an item drop, or grab a
    // dynamic body, or start prying the aimed cell.
    let (held, target, dropped, picked, grabbed, reset1) = if !edge {
        (s.held_body, s.pry_target, None, None, None, false)
    } else if s.held_body is Some {
        (None, None, s.held_body, None, None, true)
    } else if nearest_drop is Some {
        (s.held_body, s.pry_target, None, nearest_drop, None, false)
    } else if dynamic_hit is Some {
        (dynamic_hit, None, None, None, dynamic_hit, true)
    } else if aimed_cell is Some {
        (s.held_body, aimed_cell, None, None, None, true)
    } else {
        (s.held_body, s.pry_target, None, None, None, false)
    };
    // Holding E keeps prying while the same cell stays aimed at.
    let holding_pry = pressed && held is None && target is Some;
    let advance = holding_pry && aimed_cell == target;
    let looked_away = holding_pry && aimed_cell != target;
    let target2 = if looked_away || !pressed {
        None
    } else {
        target
    };
    (
        Interaction { held_body: held, interact_prev: pressed, pry_target: target2, ..s },
        InteractOutcome {
            dropped,
            picked_up_item: picked,
            grabbed,
            reset_pry_timer: reset1 || looked_away || !pressed,
            advance_pry: advance,
        },
    )
}

impl Interaction {
    /// Cycle to the next equipped tool on the frame the button goes down.
    /// Returns true if the tool changed.
    pub fn cycle_tool(&mut self, pressed: bool) -> (r: bool)
        ensures
            r == rising_edge(pressed, old(self).cycle_prev),
            *final(self) == (Interaction {
                cycle_prev: pressed,
                equipped_tool: if r {
                    tool_after(old(self).equipped_tool)
                } else {
                    old(self).equipped_tool
                },
                ..*old(self)
            }),
    {
        let edge = pressed && !self.cycle_prev;
        self.cycle_prev = pressed;
        if edge {
            self.equipped_tool = self.equipped_tool.next();
            true
        } else {
            false
        }
    }

    /// Let go of the held body (if any) and stop prying. Returns the body let go.
    pub fn drop_held(&mut self) -> (r: Option<BodyHandle>)
        ensures
            r == old(self).held_body,
            *final(self) == (Interaction { held_body: None, pry_target: None, ..*old(self) }),
    {
        let held = self.held_body;
        self.held_body = None;
        self.pry_target = None;
        held
    }

    /// One frame of the interact key (E).
    pub fn interact(
        &mut self,
        pressed: bool,
        nearest_drop: Option<EntityId>,
        dynamic_hit: Option<BodyHandle>,
        aimed_cell: Option<CellKey>,
    ) -> (r: InteractOutcome)
        ensures
            (*final(self), r) == interact_spec(*old(self), pressed, nearest_drop, dynamic_hit, aimed_cell),
    {
        let edge = pressed && !self.interact_prev;
        self.interact_prev = pressed;
        let mut out = InteractOutcome {
            dropped: None,
            picked_up_item: None,
            grabbed: None,
            reset_pry_timer: false,
            advance_pry: false,
        };
        if edge {
            match self.held_body {
                Some(h) => {
                    self.held_body = None;
                    out.dropped = Some(h);
                    self.pry_target = None;
                    out.reset_pry_timer = true;
                },
                None => {
                    match nearest_drop {
                        Some(d) => {
                            out.picked_up_item = Some(d);
                        },
                        None => {
                            match dynamic_hit {
                                Some(b) => {
                                    self.held_body = Some(b);
                                    out.grabbed = Some(b);
                                    self.pry_target = None;
                                    out.reset_pry_timer = true;
                                },
                                None => {
                                    match aimed_cell {
                                        Some(c) => {
                                            self.pry_target = Some(c);
                                            out.reset_pry_timer = true;
                                        },
                                        None => {},
                                    }
                                },
                            }
                        },
                    }
                },
            }
        }
        if pressed && self.held_body.is_none() && self.pry_target.is_some() {
            let same = match (aimed_cell, self.pry_target) {
                (Some(a), Some(t)) => a.0 == t.0 && a.1 == t.1 && a.2 == t.2,
                _ => false,
            };
            if same {
                out.advance_pry = true;
            } else {
                out.reset_pry_timer = true;
                self.pry_target = None;
            }
        }
        if !pressed {
            out.reset_pry_timer = true;
            self.pry_target = None;
        }
        out
    }

    /// The cell being pried, which comes loose now; prying stops.
    pub fn take_pry_target(&mut self) -> (r: Option<CellKey>)
        ensures
            r == old(self).pry_target,
            *final(self) == (Interaction { pry_target: None, ..*old(self) }),
    {
        let t = self.pry_target;
        self.pry_target = None;
        t
    }

    /// One frame of the left mouse button: throw the held body, or swing the
    /// equipped tool, on the frame the button goes down.
    pub fn swing(&mut self, pressed: bool) -> (r: SwingAction)
        ensures
            !rising_edge(pressed, old(self).punch_prev) ==> r == SwingAction::Idle && *final(self) == (Interaction { punch_prev: pressed, ..*old(self) }),
            rising_edge(pressed, old(self).punch_prev) ==> match old(self).held_body {
                Some(h) => r == SwingAction::Throw(h) && *final(self) == (Interaction { punch_prev: pressed, held_body: None, ..*old(self) }),
                None => r == SwingAction::Swing(old(self).equipped_tool) && *final(self) == (Interaction { punch_prev: pressed, ..*old(self) }),
            },
    {
        let edge = pressed && !self.punch_prev;
        self.punch_prev = pressed;
        if !edge {
            return SwingAction::Idle;
        }
        match self.held_body {
            Some(h) => {
                self.held_body = None;
                SwingAction::Throw(h)
            },
            None => SwingAction::Swing(self.equipped_tool),
        }
    }
}

/// A frame of the interact key does at most one thing: let go, pick up an
/// item drop, or grab a body.
pub proof fn law_interact_one_action(
    s: Interaction,
    pressed: bool,
    nearest_drop: Option<EntityId>,
    dynamic_hit: Option<BodyHandle>,
    aimed_cell: Option<CellKey>,
)
    ensures
        ({
            let (t, o) = interact_spec(s, pressed, nearest_drop, dynamic_hit, aimed_cell);
            &&& o.dropped is Some ==> o.picked_up_item is None && o.grabbed is None && t.held_body is None
            &&& o.picked_up_item is Some ==> o.grabbed is None && t.held_body == s.held_body
            &&& o.grabbed is Some ==> t.held_body == o.grabbed && t.pry_target is None
        }),
{
}

/// Releasing the interact key always stops prying and restarts the pry timer;
/// while a body is held nothing is pried.
pub proof fn law_release_stops_prying(
    s: Interaction,
    pressed: bool,
    nearest_drop: Option<EntityId>,
    dynamic_hit: Option<BodyHandle>,
    aimed_cell: Option<CellKey>,
)
    ensures
        ({
            let (t, o) = interact_spec(s, pressed, nearest_drop, dynamic_hit, aimed_cell);
            &&& !pressed ==> t.pry_target is None && o.reset_pry_timer && !o.advance_pry
            &&& t.held_body is Some ==> !o.advance_pry
            &&& o.advance_pry ==> t.pry_target is Some && aimed_cell == t.pry_target
        }),
{
}

} // verus!

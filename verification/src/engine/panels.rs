//! The ocean panel grid: each panel holds one island.

use vstd::prelude::*;

verus! {

/// A panel of the world grid. The island generated on it is kept by the
/// caller, under the same index in `world_panels()`.
#[derive(Debug, Clone, Copy)]
pub struct PanelDef {
    pub grid_x: i32,
    pub grid_z: i32,
    pub name: &'static str,
}

/// The panels of the world, in order.
pub open spec fn panels_spec() -> Seq<(int, int, Seq<char>)> {
    seq![(0int, 0int, "Starter Island"@), (1int, 0int, "Crystal Island"@)]
}

pub open spec fn panel_is(p: PanelDef, d: (int, int, Seq<char>)) -> bool {
    p.grid_x == d.0 && p.grid_z == d.1 && p.name@ == d.2
}

pub fn world_panels() -> (r: Vec<PanelDef>)
    ensures
        r@.len() == panels_spec().len(),
        forall|i: int| 0 <= i < r@.len() ==> panel_is(#[trigger] r@[i], panels_spec()[i]),
{
    let mut v: Vec<PanelDef> = Vec::new();
    v.push(PanelDef { grid_x: 0, grid_z: 0, name: "Starter Island" });
    v.push(PanelDef { grid_x: 1, grid_z: 0, name: "Crystal Island" });
    v
}

/// The first panel at grid position `(gx, gz)`, with its index in `world_panels()`.
pub fn find_panel(gx: i32, gz: i32) -> (r: Option<(usize, PanelDef)>)
    ensures
        r is None <==> forall|i: int| 0 <= i < panels_spec().len() ==> !(#[trigger] panels_spec()[i].0 == gx && panels_spec()[i].1 == gz),
        r matches Some((i, p)) ==> {
            &&& i < panels_spec().len()
            &&& panel_is(p, panels_spec()[i as int])
            &&& p.grid_x == gx && p.grid_z == gz
            &&& forall|j: int| 0 <= j < i ==> !(#[trigger] panels_spec()[j].0 == gx && panels_spec()[j].1 == gz)
        },
{
    let panels = world_panels();
    let mut i: usize = 0;
    while i < panels.len()
        invariant
            i <= panels@.len(),
            panels@.len() == panels_spec().len(),
            forall|k: int| 0 <= k < panels@.len() ==> panel_is(#[trigger] panels@[k], panels_spec()[k]),
            forall|j: int| 0 <= j < i ==> !(#[trigger] panels_spec()[j].0 == gx && panels_spec()[j].1 == gz),
        decreases panels@.len() - i,
    {
        let p = panels[i];
        proof {
            assert(panel_is(panels@[i as int], panels_spec()[i as int]));
        }
        if p.grid_x == gx && p.grid_z == gz {
            return Some((i, p));
        }
        i = i + 1;
    }
    None
}

/// The panel the player moves to after leaving the current one
/// `(panel_x, panel_z)`: the first side crossed, checked in the order +X,
/// -X, +Z, -Z; `None` while the player is inside.
pub fn crossed_panel(
    beyond_pos_x: bool,
    beyond_neg_x: bool,
    beyond_pos_z: bool,
    beyond_neg_z: bool,
    panel_x: i32,
    panel_z: i32,
) -> (r: Option<(i32, i32)>)
    requires
        i32::MIN < panel_x < i32::MAX,
        i32::MIN < panel_z < i32::MAX,
    ensures
        r == (if beyond_pos_x {
            Some(((panel_x + 1) as i32, panel_z))
        } else if beyond_neg_x {
            Some(((panel_x - 1) as i32, panel_z))
        } else if beyond_pos_z {
            Some((panel_x, (panel_z + 1) as i32))
        } else if beyond_neg_z {
            Some((panel_x, (panel_z - 1) as i32))
        } else {
            None
        }),
{
    if beyond_pos_x {
        Some((panel_x + 1, panel_z))
    } else if beyond_neg_x {
        Some((panel_x - 1, panel_z))
    } else if beyond_pos_z {
        Some((panel_x, panel_z + 1))
    } else if beyond_neg_z {
        Some((panel_x, panel_z - 1))
    } else {
        None
    }
}

/// Whether to start preloading panel `(gx, gz)` in the background: it must
/// exist, and be neither the panel being preloaded nor the one already
/// preloaded.
pub fn should_preload(gx: i32, gz: i32, preloading: Option<(i32, i32)>, preloaded: Option<(i32, i32)>) -> (r: bool)
    ensures
        r == ((exists|i: int| 0 <= i < panels_spec().len() && #[trigger] panels_spec()[i].0 == gx && panels_spec()[i].1 == gz)
            && preloading != Some((gx, gz)) && preloaded != Some((gx, gz))),
{
    let found = find_panel(gx, gz);
    proof {
        if found is None {
            assert forall|i: int| 0 <= i < panels_spec().len() implies !(#[trigger] panels_spec()[i].0 == gx && panels_spec()[i].1 == gz) by {}
        } else {
            let (i, p) = found->Some_0;
            assert(panels_spec()[i as int].0 == gx && panels_spec()[i as int].1 == gz);
        }
    }
    if found.is_none() {
        return false;
    }
    let busy = match preloading {
        Some((x, z)) => x == gx && z == gz,
        None => false,
    };
    let done = match preloaded {
        Some((x, z)) => x == gx && z == gz,
        None => false,
    };
    !busy && !done
}

/// The panel whose teleport slot `slot` was chosen, if it exists, and
/// whether it differs from the current panel (then it must be loaded).
pub fn teleport_target(slot: usize, panel_x: i32, panel_z: i32) -> (r: Option<(i32, i32, bool)>)
    ensures
        slot >= panels_spec().len() ==> r is None,
        slot < panels_spec().len() ==> r == Some((
            panels_spec()[slot as int].0 as i32,
            panels_spec()[slot as int].1 as i32,
            panels_spec()[slot as int].0 != panel_x || panels_spec()[slot as int].1 != panel_z,
        )),
{
    let panels = world_panels();
    if slot < panels.len() {
        let p = panels[slot];
        proof {
            assert(panel_is(panels@[slot as int], panels_spec()[slot as int]));
        }
        Some((p.grid_x, p.grid_z, p.grid_x != panel_x || p.grid_z != panel_z))
    } else {
        None
    }
}

} // verus!

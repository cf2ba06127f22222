//! Rules of play around the units: what a click selects, when the build
//! menu is open and what it sells, and what is shown at a distance.

use crate::geometry::Position;
use crate::resource_collection::{BatchOfResources, CollectedResources};
use vstd::prelude::*;

verus! {

/// Beyond this distance from the camera particles are not shown.
pub const MAX_PARTICLES_VISIBILITY_DISTANCE: u32 = 15_000;

/// Beyond this distance from the camera shadows are not cast.
pub const MAX_SHADOWS_VISIBILITY_DISTANCE: u32 = 50_000;

/// What the player may do at the moment.
#[derive(Clone, Copy, Debug, PartialEq, Eq, Structural)]
pub struct PlayerState {
    pub drilling_animation_allowed: bool,
}

/// An object that the pointer can pick out. One that is `hover_only` is
/// shown as pointed at but is never selected.
#[derive(Clone, Copy, Debug, PartialEq, Eq, Structural)]
pub struct Selectable {
    pub hover_only: bool,
}

/// The mark of a selected object.
#[derive(Clone, Copy, Debug, PartialEq, Eq, Structural)]
pub struct Selected;

/// What is left out of the picture of an object far from the camera.
#[derive(Clone, Copy, Debug, PartialEq, Eq, Structural)]
pub struct Culling {
    pub particles: bool,
    pub shadows: bool,
}

/// Whether the build menu is open.
#[derive(Clone, Copy, Debug, PartialEq, Eq, Structural)]
pub struct BuildMenuState {
    pub active: bool,
}

/// The buttons that matter for selecting, in one frame.
#[derive(Clone, Copy, Debug, PartialEq, Eq, Structural)]
pub struct SelectionInput {
    /// The select button went down in this frame.
    pub just_pressed: bool,
    /// The select button is held and went down in an earlier frame.
    pub pressed: bool,
    /// The key that adds to the selection is held.
    pub add: bool,
    /// The key that takes from the selection is held.
    pub remove: bool,
}

/// What happens to the mark of one object.
#[derive(Clone, Copy, Debug, PartialEq, Eq, Structural)]
pub enum SelectionChange {
    Keep,
    Select,
    Deselect,
}

/// What happens to the shadows of one object.
#[derive(Clone, Copy, Debug, PartialEq, Eq, Structural)]
pub enum ShadowChange {
    Keep,
    /// The object and all below it stop casting shadows.
    Hide,
    /// The object and all below it cast shadows again.
    Show,
}

impl Default for PlayerState {
    fn default() -> (state: Self)
        ensures
            !state.drilling_animation_allowed,
    {
        Self { drilling_animation_allowed: false }
    }
}

impl Default for Selectable {
    fn default() -> (selectable: Self)
        ensures
            !selectable.hover_only,
    {
        Self { hover_only: false }
    }
}

impl Default for Culling {
    fn default() -> (culling: Self)
        ensures
            !culling.particles,
            !culling.shadows,
    {
        Self { particles: false, shadows: false }
    }
}

impl Default for BuildMenuState {
    fn default() -> (state: Self)
        ensures
            !state.active,
    {
        Self { active: false }
    }
}

/// Whether the player may start drilling: the pointer is captured, the
/// player's camera is the active one, and what the camera points at is not
/// an object that can be selected.
pub fn player_state_control(cursor_visible: bool, camera_active: bool, picked: Option<&Selectable>) -> (state:
    PlayerState)
    ensures
        state.drilling_animation_allowed == (!cursor_visible && camera_active && !(
        picked matches Some(selectable) && !selectable.hover_only)),
{
    let selectable_picked: bool = match picked {
        Some(selectable) => !selectable.hover_only,
        None => false,
    };
    PlayerState { drilling_animation_allowed: !cursor_visible && camera_active && !selectable_picked }
}

/// What a frame of input does to the mark of one object.
pub open spec fn selection_change(
    selectable: Selectable,
    selected: bool,
    pointed_at: bool,
    input: SelectionInput,
) -> SelectionChange {
    if selectable.hover_only {
        SelectionChange::Keep
    } else if pointed_at && (input.just_pressed || input.pressed) && (input.add || input.pressed)
        && !input.remove && !selected {
        SelectionChange::Select
    } else if pointed_at && (input.just_pressed || input.pressed) && input.remove && selected {
        SelectionChange::Deselect
    } else if input.just_pressed && !input.add && !input.remove && selected {
        SelectionChange::Deselect
    } else {
        SelectionChange::Keep
    }
}

/// What a frame of input does to the mark of one object.
///
/// An object that is pointed at while the button is held becomes selected,
/// and so does one that is clicked with the adding key held; with the
/// removing key held a selected one loses its mark instead. A plain click
/// anywhere takes the mark from every selected object.
pub fn selectable_control(
    selectable: &Selectable,
    selected: bool,
    pointed_at: bool,
    input: &SelectionInput,
) -> (change: SelectionChange)
    ensures
        change == selection_change(*selectable, selected, pointed_at, *input),
{
    if selectable.hover_only {
        return SelectionChange::Keep;
    }
    if pointed_at && (input.just_pressed || input.pressed) {
        if (input.add || input.pressed) && !input.remove && !selected {
            return SelectionChange::Select;
        } else if input.remove && selected {
            return SelectionChange::Deselect;
        }
    }
    if input.just_pressed && !input.add && !input.remove && selected {
        return SelectionChange::Deselect;
    }
    SelectionChange::Keep
}

/// Opens and closes the build menu. The menu may be open only while a base
/// is selected and nothing else is; the toggle key flips it while it may.
pub fn build_menu_control(
    state: &mut BuildMenuState,
    base_selected: bool,
    other_selected: bool,
    toggle_pressed: bool,
) -> (menu_allowed: bool)
    ensures
        menu_allowed == (base_selected && !other_selected),
        final(state).active == (menu_allowed && (old(state).active != toggle_pressed)),
{
    let menu_allowed: bool = base_selected && !other_selected;
    if toggle_pressed {
        state.active = state.active != menu_allowed;
    }
    if !menu_allowed && state.active {
        state.active = false;
    }
    menu_allowed
}

/// Buys one unit for each of `bases` selected bases, as far as the totals
/// reach: every purchase pays `price`, and the buying stops with the first
/// base for which the totals no longer cover it.
pub fn buy_svins(collected: &mut CollectedResources, price: &BatchOfResources, bases: usize) -> (bought:
    usize)
    ensures
        bought <= bases,
        final(collected).purplite == old(collected).purplite - bought * price.purplite,
        final(collected).tealite == old(collected).tealite - bought * price.tealite,
        bought < bases ==> !final(collected).covers(*price),
{
    let mut bought: usize = 0;
    while bought < bases && collected.is_enough(price)
        invariant
            bought <= bases,
            collected.purplite == old(collected).purplite - bought * price.purplite,
            collected.tealite == old(collected).tealite - bought * price.tealite,
        decreases bases - bought,
    {
        assert((bought + 1) * price.purplite == bought * price.purplite + price.purplite)
            by (nonlinear_arith);
        assert((bought + 1) * price.tealite == bought * price.tealite + price.tealite)
            by (nonlinear_arith);
        collected.deduct(price);
        bought += 1;
    }
    bought
}

impl Culling {
    /// The marks of an object at `position` seen from `camera`.
    pub open spec fn seen_from(position: Position, camera: Position) -> Culling {
        Culling {
            particles: position.dist_sq(camera) > MAX_PARTICLES_VISIBILITY_DISTANCE
                * MAX_PARTICLES_VISIBILITY_DISTANCE,
            shadows: position.dist_sq(camera) > MAX_SHADOWS_VISIBILITY_DISTANCE
                * MAX_SHADOWS_VISIBILITY_DISTANCE,
        }
    }
}

/// Decides what is left out of the picture of an object: particles beyond
/// [`MAX_PARTICLES_VISIBILITY_DISTANCE`] from the camera, shadows beyond
/// [`MAX_SHADOWS_VISIBILITY_DISTANCE`]. The result says what to do about the
/// shadows when their mark changed.
pub fn culling_control(culling: &mut Culling, position: &Position, camera: &Position) -> (change:
    ShadowChange)
    ensures
        *final(culling) == Culling::seen_from(*position, *camera),
        change == (if final(culling).shadows == old(culling).shadows {
            ShadowChange::Keep
        } else if final(culling).shadows {
            ShadowChange::Hide
        } else {
            ShadowChange::Show
        }),
{
    let distance: u128 = position.distance_squared(camera);
    let particles_limit: u64 = crate::geometry::square(MAX_PARTICLES_VISIBILITY_DISTANCE);
    let shadows_limit: u64 = crate::geometry::square(MAX_SHADOWS_VISIBILITY_DISTANCE);
    culling.particles = distance > particles_limit as u128;
    let perform_shadow_culling: bool = distance > shadows_limit as u128;
    if perform_shadow_culling && !culling.shadows {
        culling.shadows = true;
        ShadowChange::Hide
    } else if !perform_shadow_culling && culling.shadows {
        culling.shadows = false;
        ShadowChange::Show
    } else {
        ShadowChange::Keep
    }
}

} // verus!

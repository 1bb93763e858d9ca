//! The marks of a resource, as `bevy_ecs` keeps them for change detection:
//! a tick for the making of the resource and a tick for its last
//! modification. The contracts are taken from `bevy_ecs`'s source and are not
//! proved here.

use bevy_ecs::component::{ComponentTicks, Tick};
use vstd::prelude::*;

verus! {

#[verifier::external_type_specification]
#[verifier::external_body]
pub struct ExTick(Tick);

#[verifier::external_type_specification]
#[verifier::external_body]
pub struct ExComponentTicks(ComponentTicks);

/// The number that a tick wraps.
pub uninterp spec fn tick_number(t: Tick) -> u32;

/// The tick of the making of a resource.
pub uninterp spec fn added_tick(ticks: ComponentTicks) -> Tick;

/// The tick of the last modification of a resource.
pub uninterp spec fn changed_tick(ticks: ComponentTicks) -> Tick;

/// `Tick::new`: the tick that wraps `number`.
#[verifier::external_body]
pub(crate) fn tick_new(number: u32) -> (t: Tick)
    ensures
        tick_number(t) == number,
{
    Tick::new(number)
}

/// `Tick::get`: the number that the tick wraps.
#[verifier::external_body]
pub(crate) fn tick_get(t: Tick) -> (number: u32)
    ensures
        number == tick_number(t),
{
    t.get()
}

/// `ComponentTicks::new`: both ticks are the given one.
#[verifier::external_body]
pub(crate) fn ticks_new(t: Tick) -> (ticks: ComponentTicks)
    ensures
        added_tick(ticks) == t,
        changed_tick(ticks) == t,
{
    ComponentTicks::new(t)
}

/// `ComponentTicks::set_changed`, on a copy of the ticks: the tick of the
/// last modification becomes the given one, the tick of the making stays.
#[verifier::external_body]
pub(crate) fn ticks_with_changed(ticks: ComponentTicks, t: Tick) -> (after: ComponentTicks)
    ensures
        changed_tick(after) == t,
        added_tick(after) == added_tick(ticks),
{
    let mut after = ticks;
    after.set_changed(t);
    after
}

/// The field `added` of `ComponentTicks`: the tick of the making.
#[verifier::external_body]
pub(crate) fn ticks_added(ticks: &ComponentTicks) -> (t: Tick)
    ensures
        t == added_tick(*ticks),
{
    ticks.added
}

/// The field `changed` of `ComponentTicks`: the tick of the last
/// modification.
#[verifier::external_body]
pub(crate) fn ticks_changed(ticks: &ComponentTicks) -> (t: Tick)
    ensures
        t == changed_tick(*ticks),
{
    ticks.changed
}

} // verus!

//! Resources: the cells that hold the values of the cvars, with the two
//! marks from which it is told whether a value is still the default one.
//!
//! The marks are the ticks that `bevy_ecs` keeps for change detection. A
//! resource counts its own modifications: its tick of the last modification
//! moves on by one with each recorded modification.

use crate::defaults::{IsDefault, IsDefaultMut};
use crate::ticks::{
    added_tick, changed_tick, tick_get, tick_new, tick_number, ticks_added, ticks_changed,
    ticks_new, ticks_with_changed,
};
use crate::value::{duplicate_all, value_views, CVarValue, ValueModel};
use bevy_ecs::component::ComponentTicks;
use vstd::prelude::*;

verus! {

/// A resource: a tuple of fields, of which the first is a cvar's value, the
/// fields that it was made with, and the marks of its making and of its last
/// modification.
#[derive(Debug)]
pub struct Resource {
    fields: Vec<CVarValue>,
    initial: Vec<CVarValue>,
    ticks: ComponentTicks,
}

/// What a resource holds.
pub struct ResourceState {
    /// The fields, in order.
    pub fields: Seq<ValueModel>,
    /// The fields as they were when the resource was made.
    pub initial: Seq<ValueModel>,
    /// The mark of the resource's making.
    pub added: u32,
    /// The mark of its last modification.
    pub changed: u32,
}

impl ResourceState {
    /// The state of a resource that was just made with the given fields.
    pub open spec fn fresh(fields: Seq<ValueModel>) -> ResourceState {
        ResourceState { fields, initial: fields, added: 0, changed: 0 }
    }

    /// The value counts as the default one: it was not modified since the
    /// resource was made or last flagged as default.
    pub open spec fn is_default(self) -> bool {
        self.added == self.changed
    }

    /// The state after a modification was recorded: the mark of the last
    /// modification moves on, and stays where it is once it has reached the
    /// last number.
    pub open spec fn touched(self) -> ResourceState {
        ResourceState {
            changed: if self.changed < u32::MAX {
                (self.changed + 1) as u32
            } else {
                self.changed
            },
            ..self
        }
    }

    /// The state once the current value counts as the default one.
    pub open spec fn settled(self) -> ResourceState {
        ResourceState { changed: self.added, ..self }
    }

    /// The state after a reset to the default: the fields are those that the
    /// resource was made with, and they count as the default.
    pub open spec fn reset(self) -> ResourceState {
        ResourceState { fields: self.initial, changed: self.added, ..self }
    }

    /// The state with `value` in place of the first field.
    pub open spec fn with_inner(self, value: ValueModel) -> ResourceState {
        ResourceState { fields: self.fields.update(0, value), ..self }
    }

    /// The state that a resource can be in: the mark of its making is not
    /// after that of its last modification, and is not the last number.
    pub open spec fn valid(self) -> bool {
        self.added <= self.changed && self.added < u32::MAX
    }
}

/// A modification that is recorded on a valid resource makes its value count
/// as modified; flagging the value as default, or resetting it, makes it
/// count as the default again, and a reset brings back the fields that the
/// resource was made with.
pub proof fn lemma_default_tracking(state: ResourceState)
    requires
        state.valid(),
    ensures
        !state.touched().is_default(),
        state.touched().valid(),
        state.settled().is_default(),
        state.settled().valid(),
        state.settled().fields == state.fields,
        state.reset().is_default(),
        state.reset().valid(),
        state.reset().fields == state.initial,
        ResourceState::fresh(state.fields).is_default(),
        ResourceState::fresh(state.fields).valid(),
{
}

impl View for Resource {
    type V = ResourceState;

    closed spec fn view(&self) -> ResourceState {
        ResourceState {
            fields: value_views(self.fields@),
            initial: value_views(self.initial@),
            added: tick_number(added_tick(self.ticks)),
            changed: tick_number(changed_tick(self.ticks)),
        }
    }
}

impl Resource {
    #[verifier::type_invariant]
    spec fn marks_in_order(self) -> bool {
        tick_number(added_tick(self.ticks)) <= tick_number(changed_tick(self.ticks))
            && tick_number(added_tick(self.ticks)) < u32::MAX
    }

    /// A resource of the layout that a cvar has: one field, the value.
    pub fn new(value: CVarValue) -> (resource: Resource)
        ensures
            resource@ == ResourceState::fresh(seq![value@]),
    {
        let mut fields: Vec<CVarValue> = Vec::new();
        let mut initial: Vec<CVarValue> = Vec::new();
        initial.push(value.duplicate());
        fields.push(value);
        let resource = Resource { fields, initial, ticks: ticks_new(tick_new(0)) };
        proof {
            assert(resource@.fields =~= seq![value@]);
            assert(resource@.initial =~= seq![value@]);
        }
        resource
    }

    /// A resource of any layout, with the given fields.
    pub fn from_fields(fields: Vec<CVarValue>) -> (resource: Resource)
        ensures
            resource@ == ResourceState::fresh(value_views(fields@)),
    {
        let initial = duplicate_all(&fields);
        Resource { fields, initial, ticks: ticks_new(tick_new(0)) }
    }

    /// The cvar's value: the first field, if the resource has one.
    pub fn get(&self) -> (r: Option<&CVarValue>)
        ensures
            self@.valid(),
            match r {
                Some(value) => self@.fields.len() > 0 && value@ == self@.fields[0],
                None => self@.fields.len() == 0,
            },
    {
        proof {
            use_type_invariant(self);
        }
        if self.fields.len() > 0 {
            Some(&self.fields[0])
        } else {
            None
        }
    }

    /// The cvar's value, to be modified in place. The marks stay as they
    /// are: see [`Resource::set_changed`].
    pub fn get_mut(&mut self) -> (r: Option<&mut CVarValue>)
        ensures
            match r {
                Some(value) => old(self)@.fields.len() > 0 && value@ == old(self)@.fields[0]
                    && final(self)@ == old(self)@.with_inner(final(value)@),
                None => old(self)@.fields.len() == 0 && final(self)@ == old(self)@,
            },
    {
        proof {
            use_type_invariant(&*self);
        }
        if self.fields.len() > 0 {
            let ghost before = self.fields@;
            let value = &mut self.fields[0];
            proof {
                assert(value_views(before.update(0, *final(value))) =~= value_views(
                    before,
                ).update(0, final(value)@));
            }
            Some(value)
        } else {
            None
        }
    }

    /// The cvar's value, to be modified in place. Handing the value out is
    /// recorded as a modification.
    pub fn value_mut(&mut self) -> (r: Option<&mut CVarValue>)
        ensures
            match r {
                Some(value) => old(self)@.fields.len() > 0 && value@ == old(self)@.fields[0]
                    && final(self)@ == old(self)@.touched().with_inner(final(value)@)
                    && !final(self)@.is_default(),
                None => old(self)@.fields.len() == 0 && final(self)@ == old(self)@,
            },
    {
        if self.fields.len() > 0 {
            self.set_changed();
            self.get_mut()
        } else {
            None
        }
    }

    /// Records a modification.
    pub fn set_changed(&mut self)
        ensures
            final(self)@ == old(self)@.touched(),
            !final(self)@.is_default(),
    {
        proof {
            use_type_invariant(&*self);
        }
        let changed = tick_get(ticks_changed(&self.ticks));
        if changed < u32::MAX {
            self.ticks = ticks_with_changed(self.ticks, tick_new(changed + 1));
        }
    }
}

/// A cvar's value handed out for reading and writing. Reading leaves the
/// marks of the resource as they are; writing through the handle records a
/// modification.
pub struct Mut<'a> {
    /// The resource of the cvar. What is written to it directly, and not
    /// through the handle, is recorded only as far as the resource's own
    /// methods record it.
    pub resource: &'a mut Resource,
}

impl<'a> Mut<'a> {
    /// What the resource holds now.
    pub open spec fn state(&self) -> ResourceState {
        self.resource@
    }

    /// A handle on the value of `resource`. Making the handle changes
    /// nothing.
    pub fn new(resource: &'a mut Resource) -> (handle: Mut<'a>)
        ensures
            *handle.resource == *old(resource),
            *final(handle.resource) == *final(resource),
    {
        Mut { resource }
    }

    /// The value, if the resource has the layout of a cvar. The marks of the
    /// resource stay as they are.
    pub fn get(&self) -> (r: Option<&CVarValue>)
        ensures
            match r {
                Some(value) => self.state().fields.len() > 0 && value@ == self.state().fields[0],
                None => self.state().fields.len() == 0,
            },
    {
        self.resource.get()
    }

    /// Whether the value counts as the default one.
    pub fn is_default(&self) -> (r: bool)
        ensures
            r == self.state().is_default(),
    {
        self.resource.is_default()
    }

    /// Replaces the value by `value`, and records the modification. A
    /// resource that has not the layout of a cvar stays as it is.
    pub fn set(&mut self, value: CVarValue) -> (done: bool)
        ensures
            done == (old(self).state().fields.len() > 0),
            done ==> final(self).state() == old(self).state().touched().with_inner(value@),
            done ==> !final(self).state().is_default(),
            !done ==> final(self).state() == old(self).state(),
            *final(final(self).resource) == *final(old(self).resource),
    {
        proof {
            lemma_touch_then_write(self.resource@, value@);
        }
        match self.resource.value_mut() {
            Some(slot) => {
                *slot = value;
                true
            },
            None => false,
        }
    }
}

/// A value written after a modification was recorded leaves the resource
/// marked as modified.
pub proof fn lemma_touch_then_write(state: ResourceState, value: ValueModel)
    ensures
        state.touched().with_inner(value).changed == state.touched().changed,
        state.touched().with_inner(value).added == state.added,
{
}

impl IsDefault for Resource {
    open spec fn is_default_spec(&self) -> bool {
        self@.is_default()
    }

    fn is_default(&self) -> (r: bool)
        ensures
            self@.valid(),
    {
        proof {
            use_type_invariant(self);
        }
        tick_get(ticks_added(&self.ticks)) == tick_get(ticks_changed(&self.ticks))
    }
}

impl IsDefaultMut for Resource {
    fn set_is_default(&mut self)
        ensures
            final(self)@ == old(self)@.settled(),
    {
        proof {
            use_type_invariant(&*self);
        }
        self.ticks = ticks_with_changed(self.ticks, ticks_added(&self.ticks));
    }

    fn reset_to_default(&mut self)
        ensures
            final(self)@ == old(self)@.reset(),
    {
        proof {
            use_type_invariant(&*self);
        }
        let fields = duplicate_all(&self.initial);
        self.fields = fields;
        self.ticks = ticks_with_changed(self.ticks, ticks_added(&self.ticks));
    }
}

} // verus!

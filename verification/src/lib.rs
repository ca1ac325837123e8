//! # Pure HFSM
//!
//! A hierarchical finite state machine library with a clear separation
//! between the description of the machines and the changing state of a
//! running instance.
//!
//! Three kinds of value cooperate:
//! * [`builder::StateMachines`] describes several interacting machines, whose
//!   states and machines refer to each other by name;
//! * [`StateMachines`] is the compact description that
//!   [`builder::StateMachines::build`] makes of it, in which every name has
//!   become a small integer handle;
//! * [`label::NestedMachine`] is the state of one running instance: a stack of
//!   frames that [`label::NestedMachine::update`] drives one tick at a time
//!   against a [`StateMachines`].
//!
//! What a state does and when it is left is supplied by the consumer through
//! the [`Behavior`] and [`Transition`] traits. The contracts of this crate
//! describe the engine relative to those two traits: which calls are made, in
//! which order, on which private data, and what the engine does with each
//! answer.
use vstd::prelude::*;

pub mod builder;
pub mod label;
pub mod names;

verus! {

/// The largest number of machines one store can hold: one per `SmHandle`.
pub const MAX_MACHINES: usize = 65536;

/// The largest number of states one machine can hold: one per `SHandle`.
pub const MAX_STATES: usize = 256;

/// `State` handle: the position of a state within its machine.
#[derive(Debug, Clone, PartialEq)]
pub struct SHandle(u8);

impl SHandle {
    /// The position this handle stands for.
    pub closed spec fn index(&self) -> nat {
        self.0 as nat
    }

    /// Every handle stands for a position below `MAX_STATES`.
    pub proof fn index_in_range(&self)
        ensures
            self.index() < MAX_STATES,
    {
    }

    pub(crate) fn at(position: u8) -> (handle: SHandle)
        ensures
            handle.index() == position,
    {
        SHandle(position)
    }

}

/// `StateMachine` handle: the position of a machine within its store.
#[derive(Debug, Clone, PartialEq)]
pub struct SmHandle(u16);

impl SmHandle {
    /// The position this handle stands for.
    pub closed spec fn index(&self) -> nat {
        self.0 as nat
    }

    /// Every handle stands for a position below `MAX_MACHINES`.
    pub proof fn index_in_range(&self)
        ensures
            self.index() < MAX_MACHINES,
    {
    }

    pub(crate) fn at(position: u16) -> (handle: SmHandle)
        ensures
            handle.index() == position,
    {
        SmHandle(position)
    }

    pub(crate) fn position(&self) -> (position: u16)
        ensures
            position == self.index(),
    {
        self.0
    }
}

/// Result of a transition
#[derive(Clone, Debug)]
#[non_exhaustive]
pub enum Target {
    /// Keep the current `State`
    Continue,
    /// Transition into a new `State`
    Goto(SHandle),
    /// Start a nested `StateMachine`, will come back to this `State` once
    /// the nested state machine completes
    Enter(SmHandle),
    /// Terminate the state machine
    Complete,
}

/// Potential errors from running a state machine
#[derive(Debug)]
pub enum Error {
    EmptyStack,
    BadMachineName,
    BadStateName,
}

/// Behavior to adopt when in a state
pub trait Behavior {
    /// The world we live in and that influences our behavior
    type World;

    /// Things our behavior changes in the world
    type Update;

    /// Private data of one visit of a state, owned by the running instance
    type Data;

    /// What one call of [`Behavior::update`] may do: `data` and `commands`
    /// are the values handed in, `data_after` and `commands_after` the values
    /// left behind. An implementation that says nothing keeps this default,
    /// which allows every outcome.
    open spec fn acts(
        &self,
        data: Self::Data,
        commands: Self::Update,
        world: Self::World,
        data_after: Self::Data,
        commands_after: Self::Update,
    ) -> bool {
        true
    }

    /// The behavior, what to do to `commands` given `world`
    fn update(&self, data: &mut Self::Data, commands: &mut Self::Update, world: &Self::World)
        ensures
            self.acts(*old(data), *old(commands), *world, *final(data), *final(commands)),
    ;
}

/// Decider for state transition
///
/// Each state has many `Transition`s. `Transition`s are ran every update in
/// order. The first to return a non-[`Target::Continue`] result will dictate
/// the next `State` or nested `StateMachine` the machine enters.
pub trait Transition {
    /// The world to observe to make a transition decision
    type World;

    /// Private data of this transition for one visit of its state
    type Data;

    /// What one call of [`Transition::decide`] may do: `data` is the value
    /// handed in, `data_after` the value left behind and `target` the answer.
    /// An implementation that says nothing keeps this default, which allows
    /// every outcome.
    open spec fn decides(
        &self,
        data: Self::Data,
        world: Self::World,
        data_after: Self::Data,
        target: Target,
    ) -> bool {
        true
    }

    /// To what [`Target`] transition given `world`?
    fn decide(&self, data: &mut Self::Data, world: &Self::World) -> (target: Target)
        ensures
            self.decides(*old(data), *world, *final(data), target),
    ;
}

/// State and the transitions in a state machine
#[derive(Debug, Clone)]
pub(crate) struct State<B, Trs> {
    /// Criterias for exiting the current State (See [`Transition`])
    pub(crate) transitions: Vec<Trs>,
    /// What to do when in this state (see [`Behavior`])
    pub(crate) behavior: B,
}

/// A classical state machine: its states in declaration order
#[derive(Debug, Clone)]
pub(crate) struct StateMachine<B, Trs> {
    pub(crate) states: Vec<State<B, Trs>>,
}

impl<B, T> StateMachine<B, T> {
    pub(crate) fn state(&self, state: &SHandle) -> (found: Option<&State<B, T>>)
        ensures
            match found {
                Some(definition) => state.index() < self.states@.len() && *definition
                    == self.states@[state.index() as int],
                None => state.index() >= self.states@.len(),
            },
    {
        let position = state.0 as usize;
        if position < self.states.len() {
            Some(&self.states[position])
        } else {
            None
        }
    }
}

/// A collection of state machines
///
/// Each state machine within this collection can refer to each other. Use
/// [`label::NestedMachine`] to manage the state of a running instance.
///
/// Machines and states are found by position: the handle of a machine is its
/// position in the store, the handle of a state its position in its machine.
/// The names are kept for introspection only.
#[derive(Debug)]
pub struct StateMachines<B, T> {
    machines: Vec<StateMachine<B, T>>,
    machine_names: Vec<String>,
    state_names: Vec<Vec<String>>,
}

impl<B, T> StateMachines<B, T> {
    /// The names of the machines, by handle.
    pub closed spec fn machine_names(&self) -> Seq<Seq<char>> {
        names::texts(self.machine_names@)
    }

    /// The names of the states of each machine, by machine handle and then
    /// by state handle.
    pub closed spec fn state_names(&self) -> Seq<Seq<Seq<char>>> {
        names::nested_texts(self.state_names@)
    }

    /// How many machines the store holds.
    pub closed spec fn machine_count(&self) -> nat {
        self.machines@.len()
    }

    /// How many states the machine at position `machine` has; 0 where there
    /// is no such machine.
    pub closed spec fn state_count(&self, machine: int) -> nat {
        if 0 <= machine < self.machines@.len() {
            self.machines@[machine].states@.len()
        } else {
            0
        }
    }

    /// What the state at position `state` of the machine at position
    /// `machine` does.
    pub closed spec fn behavior(&self, machine: int, state: int) -> B {
        self.machines@[machine].states@[state].behavior
    }

    /// The transitions of the state at position `state` of the machine at
    /// position `machine`, in declaration order.
    pub closed spec fn transitions(&self, machine: int, state: int) -> Seq<T> {
        self.machines@[machine].states@[state].transitions@
    }

    /// The store's invariant: every machine and every state has exactly one
    /// name, and every position fits its handle type.
    pub closed spec fn wf(&self) -> bool {
        &&& self.machines@.len() == self.machine_names@.len()
        &&& self.machines@.len() == self.state_names@.len()
        &&& self.machines@.len() <= MAX_MACHINES
        &&& forall|m: int|
            0 <= m < self.machines@.len() ==> {
                &&& (#[trigger] self.machines@[m]).states@.len() == self.state_names@[m]@.len()
                &&& self.machines@[m].states@.len() <= MAX_STATES
            }
    }

    #[verifier::type_invariant]
    spec fn inv(&self) -> bool {
        self.wf()
    }

    /// A store is well formed: it names every machine and state it holds.
    pub proof fn wf_names(&self)
        requires
            self.wf(),
        ensures
            self.machine_names().len() == self.machine_count(),
            self.state_names().len() == self.machine_count(),
            self.machine_count() <= MAX_MACHINES,
            forall|m: int|
                0 <= m < self.state_names().len() ==> (#[trigger] self.state_names()[m]).len()
                    == self.state_count(m) && self.state_count(m) <= MAX_STATES,
            forall|m: int| m < 0 || m >= self.state_names().len() ==> self.state_count(m) == 0,
    {
    }

    /// Puts a store together from its three parts.
    pub(crate) fn assemble(
        machines: Vec<StateMachine<B, T>>,
        machine_names: Vec<String>,
        state_names: Vec<Vec<String>>,
    ) -> (store: Self)
        requires
            machines@.len() == machine_names@.len(),
            machines@.len() == state_names@.len(),
            machines@.len() <= MAX_MACHINES,
            forall|m: int|
                0 <= m < machines@.len() ==> (#[trigger] machines@[m]).states@.len()
                    == state_names@[m]@.len() && machines@[m].states@.len() <= MAX_STATES,
        ensures
            store.wf(),
            store.machine_count() == machines@.len(),
            store.machine_names() == names::texts(machine_names@),
            store.state_names() == names::nested_texts(state_names@),
            forall|m: int|
                0 <= m < machines@.len() ==> #[trigger] store.state_count(m)
                    == machines@[m].states@.len(),
            forall|m: int, s: int|
                0 <= m < machines@.len() && 0 <= s < machines@[m].states@.len() ==> {
                    &&& #[trigger] store.behavior(m, s) == machines@[m].states@[s].behavior
                    &&& store.transitions(m, s) == machines@[m].states@[s].transitions@
                },
    {
        StateMachines { machines, machine_names, state_names }
    }

    /// Get all machine names with their handles
    pub fn machines<'s>(&'s self) -> (listed: Vec<(SmHandle, &'s str)>)
        ensures
            listed@.len() == self.machine_names().len(),
            forall|m: int|
                0 <= m < listed@.len() ==> (#[trigger] listed@[m]).0.index() == m && listed@[m].1@
                    == self.machine_names()[m],
    {
        proof {
            use_type_invariant(self);
        }
        let mut listed: Vec<(SmHandle, &'s str)> = Vec::new();
        let mut m: usize = 0;
        while m < self.machine_names.len()
            invariant
                m <= self.machine_names@.len(),
                self.machine_names@.len() <= MAX_MACHINES,
                listed@.len() == m,
                forall|k: int|
                    0 <= k < m ==> (#[trigger] listed@[k]).0.index() == k && listed@[k].1@
                        == self.machine_names@[k]@,
            decreases self.machine_names@.len() - m,
        {
            listed.push((SmHandle(m as u16), self.machine_names[m].as_str()));
            m += 1;
        }
        listed
    }

    /// Get all state names with their state handles in provided machine
    pub fn states<'s>(&'s self, machine: &SmHandle) -> (listed: Option<Vec<(SHandle, &'s str)>>)
        ensures
            match listed {
                Some(states) => {
                    &&& machine.index() < self.state_names().len()
                    &&& states@.len() == self.state_names()[machine.index() as int].len()
                    &&& forall|s: int|
                        0 <= s < states@.len() ==> (#[trigger] states@[s]).0.index() == s
                            && states@[s].1@ == self.state_names()[machine.index() as int][s]
                },
                None => machine.index() >= self.state_names().len(),
            },
    {
        proof {
            use_type_invariant(self);
        }
        let position = machine.0 as usize;
        if position >= self.state_names.len() {
            return None;
        }
        let names = &self.state_names[position];
        assert(self.machines@[position as int].states@.len() <= MAX_STATES);
        let mut listed: Vec<(SHandle, &'s str)> = Vec::new();
        let mut s: usize = 0;
        while s < names.len()
            invariant
                s <= names@.len(),
                names@.len() <= MAX_STATES,
                listed@.len() == s,
                forall|k: int|
                    0 <= k < s ==> (#[trigger] listed@[k]).0.index() == k && listed@[k].1@
                        == names@[k]@,
            decreases names@.len() - s,
        {
            listed.push((SHandle(s as u8), names[s].as_str()));
            s += 1;
        }
        Some(listed)
    }

    pub(crate) fn machine<'s>(&'s self, machine: &SmHandle) -> (found: Option<
        &'s StateMachine<B, T>,
    >)
        ensures
            match found {
                Some(definition) => {
                    &&& machine.index() < self.machine_count()
                    &&& definition.states@.len() == self.state_count(machine.index() as int)
                    &&& forall|s: int|
                        0 <= s < definition.states@.len() ==> {
                            &&& (#[trigger] definition.states@[s]).behavior == self.behavior(
                                machine.index() as int,
                                s,
                            )
                            &&& definition.states@[s].transitions@ == self.transitions(
                                machine.index() as int,
                                s,
                            )
                        }
                },
                None => machine.index() >= self.machine_count(),
            },
    {
        let position = machine.0 as usize;
        if position < self.machines.len() {
            Some(&self.machines[position])
        } else {
            None
        }
    }

    pub(crate) fn state_name<'s>(&'s self, machine: &SmHandle, state: &SHandle) -> (found: Option<
        &'s str,
    >)
        ensures
            match found {
                Some(name) => {
                    &&& machine.index() < self.state_names().len()
                    &&& state.index() < self.state_names()[machine.index() as int].len()
                    &&& name@ == self.state_names()[machine.index() as int][state.index() as int]
                },
                None => machine.index() >= self.state_names().len() || state.index()
                    >= self.state_names()[machine.index() as int].len(),
            },
    {
        let m = machine.0 as usize;
        if m >= self.state_names.len() {
            return None;
        }
        let names = &self.state_names[m];
        let s = state.0 as usize;
        if s >= names.len() {
            return None;
        }
        Some(names[s].as_str())
    }

    pub(crate) fn machine_name<'s>(&'s self, machine: &SmHandle) -> (found: Option<&'s str>)
        ensures
            match found {
                Some(name) => machine.index() < self.machine_names().len() && name@
                    == self.machine_names()[machine.index() as int],
                None => machine.index() >= self.machine_names().len(),
            },
    {
        let m = machine.0 as usize;
        if m >= self.machine_names.len() {
            return None;
        }
        Some(self.machine_names[m].as_str())
    }

    /// Get machine handle for provided machine name: the first machine of
    /// that name, if there is one.
    pub fn machine_handle(&self, name: &str) -> (found: Option<SmHandle>)
        ensures
            match found {
                Some(handle) => names::first_at(self.machine_names(), name@, handle.index() as int),
                None => !self.machine_names().contains(name@),
            },
    {
        proof {
            use_type_invariant(self);
        }
        let wanted = name.to_owned();
        let mut m: usize = 0;
        while m < self.machine_names.len()
            invariant
                m <= self.machine_names@.len(),
                self.machine_names@.len() <= MAX_MACHINES,
                wanted@ == name@,
                forall|k: int| 0 <= k < m ==> self.machine_names@[k]@ != name@,
            decreases self.machine_names@.len() - m,
        {
            if self.machine_names[m] == wanted {
                return Some(SmHandle(m as u16));
            }
            m += 1;
        }
        None
    }
}

} // verus!

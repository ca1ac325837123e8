//! Builder describing multiple interacting state machines
//!
//! Define a [`StateMachines`] and use [`StateMachines::build`] to get a
//! runnable [`crate::StateMachines`].
//!
//! A [`crate::Transition`] answers with a [`crate::Target`], and the handles
//! inside a [`crate::Target`] cannot be made up: they come from a
//! [`NameMapping`]. So the transitions of a description are values that can
//! be converted, given the [`NameMapping`] of that description, into the
//! transitions that run: that is [`IntoTransition`]. A conversion that finds
//! a name unresolved may give `None`, and the build is then rejected.
//!
//! The name tables of a [`NameMapping`] are `ahash::AHashMap`s. What they
//! hold is known to the contracts of this module through two uninterpreted
//! functions, [`state_entries`] and [`machine_entries`], and through the
//! contracts, taken on trust, of the functions that call into `ahash`.
use ahash::AHashMap;
use vstd::prelude::*;
use crate::names::{
    last_at, nested_texts, positions, positions_at_last, positions_of_declared, positions_push,
    state_positions, state_positions_declared, state_positions_exist, state_positions_last, texts,
};
use crate::{SHandle, SmHandle, MAX_MACHINES, MAX_STATES};

verus! {

/// `ahash::AHashMap`, a hash map. Nothing of its inside is known here.
#[verifier::external_type_specification]
#[verifier::external_body]
#[verifier::reject_recursive_types(K)]
#[verifier::reject_recursive_types(V)]
#[verifier::reject_recursive_types(S)]
pub struct ExAHashMap<K, V, S>(AHashMap<K, V, S>);

/// `ahash::RandomState`, the hasher that an `AHashMap` has unless it is
/// given another. Nothing of its inside is known here.
#[verifier::external_type_specification]
#[verifier::external_body]
pub struct ExRandomState(ahash::RandomState);

/// Handles of states by name, as a name table holds them.
pub type StateEntries = Map<Seq<char>, u8>;

/// Handles of machines by name, as a name table holds them.
pub type MachineEntries = Map<Seq<char>, u16>;

/// The entries of a table of state names: each key's text, with its value.
pub uninterp spec fn state_entries(table: AHashMap<String, u8>) -> Map<Seq<char>, u8>;

/// The entries of a table of machine names: each key's text, with its value.
pub uninterp spec fn machine_entries(table: AHashMap<String, u16>) -> Map<Seq<char>, u16>;

/// `AHashMap::new`: the table it makes has no entry.
#[verifier::external_body]
fn state_table() -> (table: AHashMap<String, u8>)
    ensures
        state_entries(table) == StateEntries::empty(),
{
    AHashMap::new()
}

/// `AHashMap::insert`: afterwards the table holds `handle` under `name`, in
/// place of what it held under that name, and every other entry as before.
#[verifier::external_body]
fn state_table_insert(table: &mut AHashMap<String, u8>, name: String, handle: u8)
    ensures
        state_entries(*final(table)) == state_entries(*old(table)).insert(name@, handle),
{
    table.insert(name, handle);
}

/// `AHashMap::get`: the value that the table holds under `name`, if it holds
/// one.
#[verifier::external_body]
fn state_table_get(table: &AHashMap<String, u8>, name: &str) -> (found: Option<u8>)
    ensures
        found == (if state_entries(*table).contains_key(name@) {
            Some(state_entries(*table)[name@])
        } else {
            None
        }),
{
    table.get(name).copied()
}

/// `AHashMap::new`: the table it makes has no entry.
#[verifier::external_body]
fn machine_table() -> (table: AHashMap<String, u16>)
    ensures
        machine_entries(table) == MachineEntries::empty(),
{
    AHashMap::new()
}

/// `AHashMap::insert`: afterwards the table holds `handle` under `name`, in
/// place of what it held under that name, and every other entry as before.
#[verifier::external_body]
fn machine_table_insert(table: &mut AHashMap<String, u16>, name: String, handle: u16)
    ensures
        machine_entries(*final(table)) == machine_entries(*old(table)).insert(name@, handle),
{
    table.insert(name, handle);
}

/// `AHashMap::get`: the value that the table holds under `name`, if it holds
/// one.
#[verifier::external_body]
fn machine_table_get(table: &AHashMap<String, u16>, name: &str) -> (found: Option<u16>)
    ensures
        found == (if machine_entries(*table).contains_key(name@) {
            Some(machine_entries(*table)[name@])
        } else {
            None
        }),
{
    table.get(name).copied()
}

/// What the names of a description resolve to: for each declared state name
/// and each declared machine name, a position.
pub struct Resolution {
    pub states: Map<Seq<char>, nat>,
    pub machines: Map<Seq<char>, nat>,
}

/// Convert `Self` into something that implements [`crate::Transition`]
///
/// The [`NameMapping`] resolves the names that were given to the states and
/// machines of the description into the [`SHandle`]s and [`SmHandle`]s that a
/// [`crate::Transition`] needs for its [`crate::Target`]s.
pub trait IntoTransition<T>: Sized {
    /// What one call of [`IntoTransition::into_with`] may give, under a
    /// mapping that resolves names as `mapping` says. An implementation that
    /// says nothing keeps this default, which allows every outcome.
    open spec fn converts(self, mapping: Resolution, converted: Option<T>) -> bool {
        true
    }

    /// Convert `Self` into `T`, or give `None` to have the build rejected.
    fn into_with(self, mapping: &NameMapping) -> (converted: Option<T>)
        ensures
            self.converts(mapping@, converted),
    ;
}

/// Obtain a [`Target`](crate::Target) based on serialized state and machine names
///
/// Use the [`NameMapping::target`], [`NameMapping::goto`] and
/// [`NameMapping::enter`] methods to convert a [`Target`] with a [`String`]
/// state or machine name into a [`Target`](crate::Target) with a handle,
/// usable with the compact [`crate::StateMachines`].
pub struct NameMapping {
    state_names: AHashMap<String, u8>,
    machine_names: AHashMap<String, u16>,
}

impl View for NameMapping {
    type V = Resolution;

    closed spec fn view(&self) -> Resolution {
        Resolution {
            states: state_entries(self.state_names).map_values(|handle: u8| handle as nat),
            machines: machine_entries(self.machine_names).map_values(|handle: u16| handle as nat),
        }
    }
}

/// What `target` resolves to under `mapping`, and whether it resolves.
pub open spec fn resolves(mapping: Resolution, target: Target, resolved: Option<crate::Target>) -> bool {
    match target {
        Target::Goto(name) => goes_to(mapping, name@, resolved),
        Target::Enter(name) => enters(mapping, name@, resolved),
        Target::End => resolved matches Some(crate::Target::Complete),
    }
}

/// `resolved` is the move to the state named `name`, or nothing where
/// `mapping` has no state of that name.
pub open spec fn goes_to(mapping: Resolution, name: Seq<char>, resolved: Option<crate::Target>) -> bool {
    if mapping.states.contains_key(name) {
        resolved matches Some(crate::Target::Goto(state)) && state.index() == mapping.states[name]
    } else {
        resolved is None
    }
}

/// `resolved` is the entry into the machine named `name`, or nothing where
/// `mapping` has no machine of that name.
pub open spec fn enters(mapping: Resolution, name: Seq<char>, resolved: Option<crate::Target>) -> bool {
    if mapping.machines.contains_key(name) {
        resolved matches Some(crate::Target::Enter(machine)) && machine.index()
            == mapping.machines[name]
    } else {
        resolved is None
    }
}

impl NameMapping {
    fn new() -> (mapping: Self)
        ensures
            mapping@.states == Map::<Seq<char>, nat>::empty(),
            mapping@.machines == Map::<Seq<char>, nat>::empty(),
    {
        let mapping = NameMapping { state_names: state_table(), machine_names: machine_table() };
        assert(mapping@.states =~= Map::<Seq<char>, nat>::empty());
        assert(mapping@.machines =~= Map::<Seq<char>, nat>::empty());
        mapping
    }

    /// Records that the state named `name` stands at `position` of its
    /// machine.
    fn declare_state(&mut self, name: String, position: u8)
        ensures
            final(self)@.states == old(self)@.states.insert(name@, position as nat),
            final(self)@.machines == old(self)@.machines,
    {
        state_table_insert(&mut self.state_names, name, position);
        assert(self@.states =~= old(self)@.states.insert(name@, position as nat));
    }

    /// Records that the machine named `name` stands at `position`.
    fn declare_machine(&mut self, name: String, position: u16)
        ensures
            final(self)@.machines == old(self)@.machines.insert(name@, position as nat),
            final(self)@.states == old(self)@.states,
    {
        machine_table_insert(&mut self.machine_names, name, position);
        assert(self@.machines =~= old(self)@.machines.insert(name@, position as nat));
    }

    /// Get [`crate::Target`] corresponding to this [`Target`]
    pub fn target(&self, target: &Target) -> (resolved: Option<crate::Target>)
        ensures
            resolves(self@, *target, resolved),
    {
        match target {
            Target::Goto(name) => self.goto(name.as_str()),
            Target::Enter(name) => self.enter(name.as_str()),
            Target::End => Some(crate::Target::Complete),
        }
    }

    /// Get a [`crate::Target::Goto`] pointing to `State` named `name`
    pub fn goto(&self, name: &str) -> (resolved: Option<crate::Target>)
        ensures
            goes_to(self@, name@, resolved),
    {
        match state_table_get(&self.state_names, name) {
            Some(position) => Some(crate::Target::Goto(SHandle::at(position))),
            None => None,
        }
    }

    /// Get a [`crate::Target::Enter`] pointing to `StateMachine` named `name`
    pub fn enter(&self, name: &str) -> (resolved: Option<crate::Target>)
        ensures
            enters(self@, name@, resolved),
    {
        match machine_table_get(&self.machine_names, name) {
            Some(position) => Some(crate::Target::Enter(SmHandle::at(position))),
            None => None,
        }
    }
}

/// Convenience enum for serialized state machines
///
/// Pass this enum to the [`NameMapping::target`] method to get the
/// corresponding [`crate::Target`] needed to implement the
/// [`crate::Transition`] trait.
pub enum Target {
    Goto(String),
    Enter(String),
    End,
}

/// A state and what leads out of it
pub struct State<B, T> {
    pub name: String,
    pub behavior: B,
    pub transitions: Vec<T>,
}

/// A single state machine which states can refer to each other by [`String`] name
pub struct StateMachine<B, T> {
    pub name: String,
    pub states: Vec<State<B, T>>,
}

/// Why a description cannot be built.
#[derive(Debug)]
pub enum BuildError {
    /// The description has more machines than there are machine handles.
    TooManyMachines,
    /// A machine has more states than there are state handles.
    TooManyStates,
    /// The conversion of a transition gave `None`.
    Unresolved,
}

/// Multiple state machines that may refer each other by [`String`] name
///
/// Use [`StateMachines::build`] to get a [`crate::StateMachines`] usable with
/// [`label::NestedMachine`](crate::label::NestedMachine). `T` must implement
/// [`IntoTransition`].
pub struct StateMachines<B, T>(pub Vec<StateMachine<B, T>>);

/// The names of `states`, in declaration order.
pub open spec fn names_of_states<B, T>(states: Seq<State<B, T>>) -> Seq<Seq<char>> {
    Seq::new(states.len(), |s: int| states[s].name@)
}

/// Every transition of `declared` was converted under `mapping`, and
/// `converted` holds the results in the same order.
pub open spec fn all_converted<T: IntoTransition<Trs>, Trs>(
    declared: Seq<T>,
    mapping: Resolution,
    converted: Seq<Trs>,
) -> bool {
    &&& converted.len() == declared.len()
    &&& forall|j: int|
        0 <= j < declared.len() ==> (#[trigger] declared[j]).converts(mapping, Some(converted[j]))
}

/// The conversion of some transition of `declared` under `mapping` may give
/// `None`.
pub open spec fn some_unresolved<T: IntoTransition<Trs>, Trs>(declared: Seq<T>, mapping: Resolution) -> bool {
    exists|j: int|
        0 <= j < declared.len() && (#[trigger] declared[j]).converts(mapping, None::<Trs>)
}

impl<B, T> StateMachines<B, T> {
    /// The names of the machines, in declaration order.
    pub open spec fn machine_names(&self) -> Seq<Seq<char>> {
        Seq::new(self.0@.len(), |m: int| self.0@[m].name@)
    }

    /// The names of the states of each machine, in declaration order.
    pub open spec fn state_names(&self) -> Seq<Seq<Seq<char>>> {
        Seq::new(self.0@.len(), |m: int| names_of_states(self.0@[m].states@))
    }

    /// What the names of this description resolve to: a machine name to the
    /// position of the last machine of that name, a state name to its last
    /// position within the last machine that has a state of that name.
    pub open spec fn resolution(&self) -> Resolution {
        Resolution {
            states: state_positions(self.state_names()),
            machines: positions(self.machine_names()),
        }
    }

    /// Every machine and every state can have a handle.
    pub open spec fn fits(&self) -> bool {
        &&& self.0@.len() <= MAX_MACHINES
        &&& forall|m: int| 0 <= m < self.0@.len() ==> (#[trigger] self.0@[m]).states@.len() <= MAX_STATES
    }

    /// A machine name resolves to the position of the last machine declared
    /// under it: a name that only one machine has resolves to the position
    /// at which that machine is declared.
    pub proof fn machine_name_resolves(&self, m: int)
        requires
            0 <= m < self.0@.len(),
            forall|later: int|
                m < later < self.0@.len() ==> (#[trigger] self.0@[later]).name@ != self.0@[m].name@,
        ensures
            self.resolution().machines.contains_key(self.0@[m].name@),
            self.resolution().machines[self.0@[m].name@] == m,
    {
        let names = self.machine_names();
        assert(names[m] == self.0@[m].name@);
        assert forall|later: int| m < later < names.len() implies names[later] != names[m] by {
            assert(names[later] == self.0@[later].name@);
        }
        positions_at_last(names, names[m], m);
    }

    /// A state name resolves to its last position within the last machine
    /// that has a state of that name: a name that only one state has
    /// resolves to the position at which that state is declared in its
    /// machine.
    pub proof fn state_name_resolves(&self, m: int, s: int)
        requires
            0 <= m < self.0@.len(),
            0 <= s < self.0@[m].states@.len(),
            forall|later: int|
                s < later < self.0@[m].states@.len() ==> (#[trigger] self.0@[m].states@[later]).name@
                    != self.0@[m].states@[s].name@,
            forall|other: int, any: int|
                m < other < self.0@.len() && 0 <= any < self.0@[other].states@.len() ==> (
                #[trigger] self.0@[other].states@[any]).name@ != self.0@[m].states@[s].name@,
        ensures
            self.resolution().states.contains_key(self.0@[m].states@[s].name@),
            self.resolution().states[self.0@[m].states@[s].name@] == s,
    {
        let all = self.state_names();
        let name = self.0@[m].states@[s].name@;
        assert(all[m][s] == name);
        assert(all[m].contains(name));
        assert forall|later: int| m < later < all.len() implies !(#[trigger] all[later]).contains(
            name,
        ) by {
            if all[later].contains(name) {
                let any = choose|any: int| 0 <= any < all[later].len() && all[later][any] == name;
                assert(self.0@[later].states@[any].name@ == name);
            }
        }
        state_positions_last(all, m, name);
        assert forall|later: int| s < later < all[m].len() implies all[m][later] != name by {
            assert(all[m][later] == self.0@[m].states@[later].name@);
        }
        assert(last_at(all[m], name, s));
        positions_at_last(all[m], name, s);
    }

    /// A name resolves exactly when the description declares it, and then to
    /// a position at which the description declares it: no name resolves to
    /// a position that the description does not have.
    pub proof fn only_declared_names_resolve(&self, name: Seq<char>)
        ensures
            self.resolution().machines.contains_key(name) <==> exists|m: int|
                0 <= m < self.0@.len() && (#[trigger] self.0@[m]).name@ == name,
            self.resolution().machines.contains_key(name) ==> {
                &&& self.resolution().machines[name] < self.0@.len()
                &&& self.0@[self.resolution().machines[name] as int].name@ == name
            },
            self.resolution().states.contains_key(name) <==> exists|m: int, s: int|
                0 <= m < self.0@.len() && 0 <= s < self.0@[m].states@.len() && (
                #[trigger] self.0@[m].states@[s]).name@ == name,
            self.resolution().states.contains_key(name) ==> exists|m: int|
                {
                    &&& 0 <= m < self.0@.len()
                    &&& self.resolution().states[name] < (#[trigger] self.0@[m]).states@.len()
                    &&& self.0@[m].states@[self.resolution().states[name] as int].name@ == name
                },
    {
        let names = self.machine_names();
        let all = self.state_names();
        positions_of_declared(names, name);
        if names.contains(name) {
            let m = choose|m: int| 0 <= m < names.len() && names[m] == name;
            assert(self.0@[m].name@ == name);
        }
        if exists|m: int| 0 <= m < self.0@.len() && (#[trigger] self.0@[m]).name@ == name {
            let m = choose|m: int| 0 <= m < self.0@.len() && (#[trigger] self.0@[m]).name@ == name;
            assert(names[m] == name);
        }
        state_positions_declared(all, name);
        if self.resolution().states.contains_key(name) {
            state_positions_exist(all, name);
            let m = choose|m: int|
                0 <= m < all.len() && last_at(
                    #[trigger] all[m],
                    name,
                    state_positions(all)[name] as int,
                );
            let s = state_positions(all)[name] as int;
            assert(all[m][s] == self.0@[m].states@[s].name@);
            assert(self.0@[m].states@[s].name@ == name);
        }
        if exists|m: int, s: int|
            0 <= m < self.0@.len() && 0 <= s < self.0@[m].states@.len() && (
            #[trigger] self.0@[m].states@[s]).name@ == name {
            let (m, s) = choose|m: int, s: int|
                0 <= m < self.0@.len() && 0 <= s < self.0@[m].states@.len() && (
                #[trigger] self.0@[m].states@[s]).name@ == name;
            assert(all[m][s] == name);
            assert(all[m].contains(name));
        }
    }

    /// Whether no machine has more states than there are state handles.
    fn states_fit(&self) -> (fit: bool)
        ensures
            fit == (forall|m: int|
                0 <= m < self.0@.len() ==> (#[trigger] self.0@[m]).states@.len() <= MAX_STATES),
    {
        let mut m: usize = 0;
        while m < self.0.len()
            invariant
                m <= self.0@.len(),
                forall|k: int| 0 <= k < m ==> (#[trigger] self.0@[k]).states@.len() <= MAX_STATES,
            decreases self.0@.len() - m,
        {
            if self.0[m].states.len() > MAX_STATES {
                return false;
            }
            m += 1;
        }
        true
    }

    /// Collects the names of all machines and states, in declaration order,
    /// and what each resolves to.
    fn declare(&self) -> (declared: (NameMapping, Vec<String>, Vec<Vec<String>>))
        requires
            self.fits(),
        ensures
            declared.0@ == self.resolution(),
            texts(declared.1@) == self.machine_names(),
            nested_texts(declared.2@) == self.state_names(),
    {
        let mut mapping = NameMapping::new();
        let mut machine_names: Vec<String> = Vec::with_capacity(self.0.len());
        let mut state_names: Vec<Vec<String>> = Vec::with_capacity(self.0.len());
        let mut mi: usize = 0;
        assert(self.machine_names().take(0) =~= Seq::<Seq<char>>::empty());
        assert(self.state_names().take(0) =~= Seq::<Seq<Seq<char>>>::empty());
        assert(positions(Seq::<Seq<char>>::empty()) =~= Map::<Seq<char>, nat>::empty());
        while mi < self.0.len()
            invariant
                mi <= self.0@.len(),
                self.fits(),
                texts(machine_names@) == self.machine_names().take(mi as int),
                nested_texts(state_names@) == self.state_names().take(mi as int),
                mapping@.machines == positions(self.machine_names().take(mi as int)),
                mapping@.states == state_positions(self.state_names().take(mi as int)),
            decreases self.0@.len() - mi,
        {
            let machine = &self.0[mi];
            let ghost declared_machines = self.machine_names().take(mi as int);
            let ghost declared_states = self.state_names().take(mi as int);
            let ghost these = self.state_names()[mi as int];
            machine_names.push(machine.name.clone());
            mapping.declare_machine(machine.name.clone(), mi as u16);
            proof {
                positions_push(declared_machines, machine.name@);
                assert(self.machine_names().take(mi + 1) =~= declared_machines.push(machine.name@));
                assert(texts(machine_names@) =~= self.machine_names().take(mi + 1));
            }
            let mut names: Vec<String> = Vec::with_capacity(machine.states.len());
            let mut si: usize = 0;
            proof {
                assert(these.take(0) =~= Seq::<Seq<char>>::empty());
                assert(mapping@.states =~= state_positions(declared_states).union_prefer_right(
                    positions(these.take(0)),
                ));
            }
            while si < machine.states.len()
                invariant
                    si <= machine.states@.len(),
                    machine.states@.len() <= MAX_STATES,
                    these == names_of_states(machine.states@),
                    texts(names@) == these.take(si as int),
                    mapping@.machines == positions(self.machine_names().take(mi + 1)),
                    mapping@.states == state_positions(declared_states).union_prefer_right(
                        positions(these.take(si as int)),
                    ),
                decreases machine.states@.len() - si,
            {
                let state = &machine.states[si];
                names.push(state.name.clone());
                mapping.declare_state(state.name.clone(), si as u8);
                proof {
                    positions_push(these.take(si as int), state.name@);
                    assert(these.take(si + 1) =~= these.take(si as int).push(state.name@));
                    assert(texts(names@) =~= these.take(si + 1));
                    assert(mapping@.states =~= state_positions(declared_states).union_prefer_right(
                        positions(these.take(si + 1)),
                    ));
                }
                si += 1;
            }
            state_names.push(names);
            proof {
                let longer = self.state_names().take(mi + 1);
                assert(these.take(si as int) =~= these);
                assert(longer.drop_last() =~= declared_states);
                assert(longer.last() == these);
                assert(nested_texts(state_names@) =~= longer);
            }
            mi += 1;
        }
        proof {
            assert(self.machine_names().take(mi as int) =~= self.machine_names());
            assert(self.state_names().take(mi as int) =~= self.state_names());
        }
        (mapping, machine_names, state_names)
    }

    /// Convert `Self` into a [`crate::StateMachines`]
    ///
    /// The store holds the machines and states at the positions at which
    /// they are declared, under their names, each state with its behavior
    /// and with its transitions converted, in order, under the mapping that
    /// [`StateMachines::resolution`] describes.
    ///
    /// A description with more machines than `MAX_MACHINES` or with a
    /// machine of more states than `MAX_STATES` is rejected, and so is one
    /// with a transition whose conversion gives `None`.
    pub fn build<Trs>(self) -> (built: Result<crate::StateMachines<B, Trs>, BuildError>) where
        T: IntoTransition<Trs>,

        ensures
            match built {
                Ok(store) => {
                    &&& self.fits()
                    &&& store.wf()
                    &&& store.machine_count() == self.0@.len()
                    &&& forall|m: int|
                        0 <= m < self.0@.len() ==> #[trigger] store.state_count(m)
                            == self.0@[m].states@.len()
                    &&& store.machine_names() == self.machine_names()
                    &&& store.state_names() == self.state_names()
                    &&& forall|m: int, s: int|
                        0 <= m < self.0@.len() && 0 <= s < self.0@[m].states@.len() ==> {
                            &&& #[trigger] store.behavior(m, s) == self.0@[m].states@[s].behavior
                            &&& all_converted(
                                self.0@[m].states@[s].transitions@,
                                self.resolution(),
                                store.transitions(m, s),
                            )
                        }
                },
                Err(BuildError::TooManyMachines) => self.0@.len() > MAX_MACHINES,
                Err(BuildError::TooManyStates) => self.0@.len() <= MAX_MACHINES && !self.fits(),
                Err(BuildError::Unresolved) => {
                    &&& self.fits()
                    &&& exists|m: int, s: int|
                        0 <= m < self.0@.len() && 0 <= s < self.0@[m].states@.len()
                            && #[trigger] some_unresolved::<T, Trs>(
                            self.0@[m].states@[s].transitions@,
                            self.resolution(),
                        )
                },
            },
    {
        if self.0.len() > MAX_MACHINES {
            return Err(BuildError::TooManyMachines);
        }
        if !self.states_fit() {
            return Err(BuildError::TooManyStates);
        }
        // First: go through the description to collect all state and machine names
        let (mapping, machine_names, state_names) = self.declare();
        // Then the store can be built, now that every name resolves
        let mut machines: Vec<crate::StateMachine<B, Trs>> = Vec::with_capacity(self.0.len());
        let ghost description = self.0@;
        let ghost resolution = self.resolution();
        for machine in every: self.0.into_iter()
            invariant
                every.seq() == description,
                description == self.0@,
                resolution == self.resolution(),
                self.fits(),
                mapping@ == resolution,
                machines@.len() == every.index(),
                forall|m: int|
                    0 <= m < machines@.len() ==> converted_machine(
                        description[m],
                        resolution,
                        #[trigger] machines@[m],
                    ),
        {
            match Self::resolve_machine(machine, &mapping) {
                Some(converted) => machines.push(converted),
                None => {
                    proof {
                        let m = every.index() as int;
                        let s = choose|s: int|
                            0 <= s < description[m].states@.len() && #[trigger] some_unresolved::<
                                T,
                                Trs,
                            >(description[m].states@[s].transitions@, resolution);
                        assert(some_unresolved::<T, Trs>(
                            self.0@[m].states@[s].transitions@,
                            self.resolution(),
                        ));
                    }
                    return Err(BuildError::Unresolved);
                },
            }
        }
        assert forall|m: int| 0 <= m < machines@.len() implies (#[trigger] machines@[m]).states@.len()
            == state_names@[m]@.len() && machines@[m].states@.len() <= MAX_STATES by {
            assert(converted_machine(description[m], resolution, machines@[m]));
            assert(nested_texts(state_names@)[m].len() == self.state_names()[m].len());
        }
        assert(texts(machine_names@).len() == self.machine_names().len());
        assert(nested_texts(state_names@).len() == self.state_names().len());
        let store = crate::StateMachines::assemble(machines, machine_names, state_names);
        assert forall|m: int, s: int|
            0 <= m < self.0@.len() && 0 <= s < self.0@[m].states@.len() implies {
            &&& #[trigger] store.behavior(m, s) == self.0@[m].states@[s].behavior
            &&& all_converted(
                self.0@[m].states@[s].transitions@,
                self.resolution(),
                store.transitions(m, s),
            )
        } by {
            assert(converted_machine(description[m], resolution, machines@[m]));
            assert(converted_state(
                description[m].states@[s],
                resolution,
                machines@[m].states@[s],
            ));
        }
        Ok(store)
    }

    /// Converts the transitions of one state, in order; gives `None` as soon
    /// as one conversion does.
    fn resolve_transitions<Trs>(transitions: Vec<T>, mapping: &NameMapping) -> (converted: Option<
        Vec<Trs>,
    >) where T: IntoTransition<Trs>
        ensures
            match converted {
                Some(converted) => all_converted(transitions@, mapping@, converted@),
                None => some_unresolved::<T, Trs>(transitions@, mapping@),
            },
    {
        let mut converted: Vec<Trs> = Vec::with_capacity(transitions.len());
        let ghost declared = transitions@;
        for transition in every: transitions.into_iter()
            invariant
                every.seq() == declared,
                converted@.len() == every.index(),
                forall|j: int|
                    0 <= j < converted@.len() ==> (#[trigger] declared[j]).converts(
                        mapping@,
                        Some(converted@[j]),
                    ),
        {
            match transition.into_with(mapping) {
                Some(transition) => converted.push(transition),
                None => {
                    assert(declared[every.index() as int].converts(mapping@, None::<Trs>));
                    return None;
                },
            }
        }
        Some(converted)
    }

    /// Converts one state: its behavior as it is, its transitions each.
    fn resolve_state<Trs>(state: State<B, T>, mapping: &NameMapping) -> (converted: Option<
        crate::State<B, Trs>,
    >) where T: IntoTransition<Trs>
        ensures
            match converted {
                Some(converted) => converted_state(state, mapping@, converted),
                None => some_unresolved::<T, Trs>(state.transitions@, mapping@),
            },
    {
        let State { name: _, behavior, transitions } = state;
        match Self::resolve_transitions(transitions, mapping) {
            Some(transitions) => Some(crate::State { transitions, behavior }),
            None => None,
        }
    }

    /// Converts one machine: its states each, in order.
    fn resolve_machine<Trs>(machine: StateMachine<B, T>, mapping: &NameMapping) -> (converted:
        Option<crate::StateMachine<B, Trs>>) where T: IntoTransition<Trs>
        ensures
            match converted {
                Some(converted) => converted_machine(machine, mapping@, converted),
                None => exists|s: int|
                    0 <= s < machine.states@.len() && #[trigger] some_unresolved::<T, Trs>(
                        machine.states@[s].transitions@,
                        mapping@,
                    ),
            },
    {
        let StateMachine { name: _, states } = machine;
        let mut converted: Vec<crate::State<B, Trs>> = Vec::with_capacity(states.len());
        let ghost declared = states@;
        for state in every: states.into_iter()
            invariant
                every.seq() == declared,
                declared == machine.states@,
                converted@.len() == every.index(),
                forall|s: int|
                    0 <= s < converted@.len() ==> converted_state(
                        declared[s],
                        mapping@,
                        #[trigger] converted@[s],
                    ),
        {
            match Self::resolve_state(state, mapping) {
                Some(state) => converted.push(state),
                None => {
                    assert(some_unresolved::<T, Trs>(
                        machine.states@[every.index() as int].transitions@,
                        mapping@,
                    ));
                    return None;
                },
            }
        }
        Some(crate::StateMachine { states: converted })
    }
}

/// `converted` is `state` with its transitions converted under `mapping`.
pub(crate) open spec fn converted_state<B, T: IntoTransition<Trs>, Trs>(
    state: State<B, T>,
    mapping: Resolution,
    converted: crate::State<B, Trs>,
) -> bool {
    &&& converted.behavior == state.behavior
    &&& all_converted(state.transitions@, mapping, converted.transitions@)
}

/// `converted` is `machine` with each of its states converted under `mapping`.
pub(crate) open spec fn converted_machine<B, T: IntoTransition<Trs>, Trs>(
    machine: StateMachine<B, T>,
    mapping: Resolution,
    converted: crate::StateMachine<B, Trs>,
) -> bool {
    &&& converted.states@.len() == machine.states@.len()
    &&& forall|s: int|
        0 <= s < machine.states@.len() ==> converted_state(
            machine.states@[s],
            mapping,
            #[trigger] converted.states@[s],
        )
}

} // verus!

//! State of a state machine and Hierarchical state machine.
//!
//! A [`NestedMachine`] manages one running instance of a hierarchical finite
//! state machine (HFSM): a stack of frames, the last of which is the machine
//! that is driven. [`NestedMachine::update`] runs one tick on it.
//!
//! Contracts speak of an instance through its view, a sequence of [`Frame`]s,
//! and of one tick through three relations: [`scanned`] (the transitions of
//! the active state, in order, up to the first that does not continue),
//! [`stepped`] (the behavior, then the transitions) and [`applied`] (what the
//! outcome does to the stack).
use vstd::prelude::*;
use crate::{Behavior, Error, SHandle, SmHandle, StateMachines, Target, Transition};

verus! {

/// Whether the instance still has something to run.
#[derive(Debug)]
pub enum Complete {
    Done,
    Running,
}

/// `value` is a value that `D::default()` may return.
pub open spec fn is_default<D: Default>(value: D) -> bool {
    call_ensures(D::default, (), value)
}

/// One active or suspended machine of a running instance, as contracts see it.
pub struct Frame<BD, TD> {
    /// Position of the machine in the store.
    pub machine: nat,
    /// Position of the current state in that machine.
    pub state: nat,
    /// Private data of the current state's behavior.
    pub behavior: BD,
    /// Private data of the current state's transitions, one slot each, in
    /// declaration order; `None` until the state has been run once.
    pub transitions: Option<Seq<TD>>,
}

/// `frame` is a frame as it is when `state` of `machine` has just been
/// entered: its private data is new, and nothing of an earlier visit is left.
pub open spec fn entered<BD: Default, TD>(frame: Frame<BD, TD>, machine: nat, state: nat) -> bool {
    &&& frame.machine == machine
    &&& frame.state == state
    &&& is_default(frame.behavior)
    &&& frame.transitions is None
}

/// `slots` are the transition slots a state is scanned with: those it kept
/// from its last tick, or, on its first tick, `count` new ones.
pub open spec fn prepared<TD: Default>(kept: Option<Seq<TD>>, count: nat, slots: Seq<TD>) -> bool {
    match kept {
        Some(earlier) => slots == earlier,
        None => slots.len() == count && forall|i: int|
            0 <= i < count ==> is_default(#[trigger] slots[i]),
    }
}

/// How many transitions a scan can reach: each needs a slot of its own.
pub open spec fn reach(transitions: nat, slots: nat) -> nat {
    if transitions <= slots {
        transitions
    } else {
        slots
    }
}

/// One scan of `transitions` over `slots`: the first `evaluated` transitions
/// were asked, in order and once each, every one but the last of them
/// answered `Continue`, the last answered `target`, and no later transition
/// was asked, so that its slot is as it was. A scan answers `Continue` only
/// when it has asked every transition in reach.
pub open spec fn scanned<TD, T: Transition<Data = TD>>(
    transitions: Seq<T>,
    world: T::World,
    slots: Seq<TD>,
    slots_after: Seq<TD>,
    evaluated: int,
    target: Target,
) -> bool {
    &&& slots_after.len() == slots.len()
    &&& 0 <= evaluated <= reach(transitions.len(), slots.len())
    &&& forall|i: int|
        0 <= i < evaluated - 1 ==> (#[trigger] transitions[i]).decides(
            slots[i],
            world,
            slots_after[i],
            Target::Continue,
        )
    &&& evaluated > 0 ==> transitions[evaluated - 1].decides(
        slots[evaluated - 1],
        world,
        slots_after[evaluated - 1],
        target,
    )
    &&& evaluated == 0 ==> target is Continue
    &&& target is Continue ==> evaluated == reach(transitions.len(), slots.len())
    &&& forall|i: int| evaluated <= i < slots.len() ==> #[trigger] slots_after[i] == slots[i]
}

/// The transitions of a state were run once: its slots were prepared and
/// then scanned, which gave `target` and left `slots_after`.
pub open spec fn ran<TD: Default, T: Transition<Data = TD>>(
    transitions: Seq<T>,
    world: T::World,
    kept: Option<Seq<TD>>,
    slots_after: Seq<TD>,
    target: Target,
) -> bool {
    exists|slots: Seq<TD>, evaluated: int|
        prepared(kept, transitions.len(), slots) && #[trigger] scanned(
            transitions,
            world,
            slots,
            slots_after,
            evaluated,
            target,
        )
}

/// One step of the state made of `behavior` and `transitions` on the frame
/// `before`: the behavior ran once, then the transitions were run, which
/// gave `target`. The frame stays at its machine and state.
pub open spec fn stepped<BD, TD: Default, B: Behavior<Data = BD>, T: Transition<World = B::World, Data = TD>>(
    behavior: B,
    transitions: Seq<T>,
    before: Frame<BD, TD>,
    commands: B::Update,
    world: B::World,
    after: Frame<BD, TD>,
    commands_after: B::Update,
    target: Target,
) -> bool {
    &&& after.machine == before.machine
    &&& after.state == before.state
    &&& behavior.acts(before.behavior, commands, world, after.behavior, commands_after)
    &&& after.transitions is Some
    &&& ran(transitions, world, before.transitions, after.transitions->0, target)
}

/// What the outcome `target` of a step does to the stack `before`:
/// `Continue` nothing; `Goto` replaces the top frame by a new one for the
/// same machine at the state named; `Enter` leaves every frame as it is and
/// puts a new frame for the machine named on top, at its initial state;
/// `Complete` removes the top frame.
pub open spec fn applied<BD: Default, TD>(
    before: Seq<Frame<BD, TD>>,
    target: Target,
    after: Seq<Frame<BD, TD>>,
) -> bool
    recommends
        before.len() > 0,
{
    match target {
        Target::Continue => after == before,
        Target::Goto(state) => {
            &&& after.len() == before.len()
            &&& after.drop_last() == before.drop_last()
            &&& entered(after.last(), before.last().machine, state.index())
        },
        Target::Enter(machine) => {
            &&& after.len() == before.len() + 1
            &&& after.drop_last() == before
            &&& entered(after.last(), machine.index(), 0)
        },
        Target::Complete => after == before.drop_last(),
    }
}

/// What a tick reports when it leaves `depth` frames on the stack.
pub open spec fn completion(depth: nat) -> Complete {
    if depth == 0 {
        Complete::Done
    } else {
        Complete::Running
    }
}

/// A scan ends with the first answer that is not `Continue`: every
/// transition before the one that gave it was asked and answered `Continue`,
/// and no transition after it was asked, so that the slots of those are as
/// they were.
pub proof fn first_answer_ends_the_scan<TD, T: Transition<Data = TD>>(
    transitions: Seq<T>,
    world: T::World,
    slots: Seq<TD>,
    slots_after: Seq<TD>,
    evaluated: int,
    target: Target,
)
    requires
        scanned(transitions, world, slots, slots_after, evaluated, target),
        !(target is Continue),
    ensures
        1 <= evaluated <= transitions.len(),
        evaluated <= slots.len(),
        transitions[evaluated - 1].decides(
            slots[evaluated - 1],
            world,
            slots_after[evaluated - 1],
            target,
        ),
        forall|i: int|
            0 <= i < evaluated - 1 ==> (#[trigger] transitions[i]).decides(
                slots[i],
                world,
                slots_after[i],
                Target::Continue,
            ),
        forall|i: int| evaluated <= i < slots.len() ==> #[trigger] slots_after[i] == slots[i],
{
}

/// A scan in which every transition answers `Continue` has asked each
/// transition that has a slot, once.
pub proof fn a_scan_that_continues_asks_all<TD, T: Transition<Data = TD>>(
    transitions: Seq<T>,
    world: T::World,
    slots: Seq<TD>,
    slots_after: Seq<TD>,
    evaluated: int,
)
    requires
        scanned(transitions, world, slots, slots_after, evaluated, Target::Continue),
    ensures
        evaluated == reach(transitions.len(), slots.len()),
        forall|i: int|
            0 <= i < evaluated ==> (#[trigger] transitions[i]).decides(
                slots[i],
                world,
                slots_after[i],
                Target::Continue,
            ),
{
}

/// Entering a machine makes the stack one frame deeper: the frames that
/// were there stay as they are, and the new active frame is at the initial
/// state of the machine entered.
pub proof fn enter_adds_one_frame<BD: Default, TD>(
    before: Seq<Frame<BD, TD>>,
    machine: SmHandle,
    after: Seq<Frame<BD, TD>>,
)
    requires
        applied(before, Target::Enter(machine), after),
    ensures
        after.len() == before.len() + 1,
        after.last().machine == machine.index(),
        after.last().state == 0,
        is_default(after.last().behavior),
        after.last().transitions is None,
        forall|i: int| 0 <= i < before.len() ==> after[i] == before[i],
{
    assert forall|i: int| 0 <= i < before.len() implies after[i] == before[i] by {
        assert(after.drop_last()[i] == after[i]);
    }
}

/// Completing the active machine makes the stack one frame less deep and
/// leaves the other frames as they are; the tick reports `Done` exactly when
/// no frame is left.
pub proof fn complete_removes_one_frame<BD: Default, TD>(
    before: Seq<Frame<BD, TD>>,
    after: Seq<Frame<BD, TD>>,
)
    requires
        before.len() > 0,
        applied(before, Target::Complete, after),
    ensures
        after.len() == before.len() - 1,
        forall|i: int| 0 <= i < after.len() ==> after[i] == before[i],
        completion(after.len()) is Done <==> after.len() == 0,
        completion(after.len()) is Running <==> after.len() > 0,
{
}

/// Moving to a state keeps the depth of the stack and every suspended frame;
/// the active frame stays with its machine, is at the state moved to, and
/// holds nothing of the state that was left: its private data is new.
pub proof fn goto_replaces_the_active_frame<BD: Default, TD>(
    before: Seq<Frame<BD, TD>>,
    state: SHandle,
    after: Seq<Frame<BD, TD>>,
)
    requires
        before.len() > 0,
        applied(before, Target::Goto(state), after),
    ensures
        after.len() == before.len(),
        after.last().machine == before.last().machine,
        after.last().state == state.index(),
        is_default(after.last().behavior),
        after.last().transitions is None,
        forall|i: int| 0 <= i < before.len() - 1 ==> after[i] == before[i],
        completion(after.len()) is Running,
{
    assert forall|i: int| 0 <= i < before.len() - 1 implies after[i] == before[i] by {
        assert(after.drop_last()[i] == after[i]);
        assert(before.drop_last()[i] == before[i]);
    }
}

/// Continuing changes nothing of the stack: the private data of the active
/// state is kept for the next tick.
pub proof fn continue_keeps_the_stack<BD: Default, TD>(
    before: Seq<Frame<BD, TD>>,
    after: Seq<Frame<BD, TD>>,
)
    requires
        before.len() > 0,
        applied(before, Target::Continue, after),
    ensures
        after == before,
        completion(after.len()) is Running,
{
}

/// The slots of a state, as contracts see them.
pub(crate) open spec fn slots_of<TD>(slots: Option<Vec<TD>>) -> Option<Seq<TD>> {
    match slots {
        Some(kept) => Some(kept@),
        None => None,
    }
}

/// Asks `transitions` in order, each on its own slot, up to the first that
/// does not answer `Continue`.
fn scan<Trs: Transition>(transitions: &Vec<Trs>, slots: &mut Vec<Trs::Data>, world: &Trs::World) -> (target:
    Target)
    ensures
        exists|evaluated: int|
            scanned(transitions@, *world, old(slots)@, final(slots)@, evaluated, target),
{
    let ghost before = slots@;
    let within = if transitions.len() <= slots.len() {
        transitions.len()
    } else {
        slots.len()
    };
    let mut i: usize = 0;
    while i < within
        invariant
            i <= within,
            before == old(slots)@,
            within == reach(transitions@.len(), before.len()),
            slots@.len() == before.len(),
            forall|k: int|
                0 <= k < i ==> (#[trigger] transitions@[k]).decides(
                    before[k],
                    *world,
                    slots@[k],
                    Target::Continue,
                ),
            forall|k: int| i <= k < before.len() ==> #[trigger] slots@[k] == before[k],
        decreases within - i,
    {
        let target = transitions[i].decide(&mut slots[i], world);
        match target {
            Target::Continue => {},
            decided => {
                assert(scanned(transitions@, *world, before, slots@, i + 1, decided));
                return decided;
            },
        }
        i += 1;
    }
    assert(scanned(transitions@, *world, before, slots@, i as int, Target::Continue));
    Target::Continue
}

/// Data for individual state
struct State<BD, TD> {
    handle: SHandle,
    behavior: BD,
    transitions: Option<Vec<TD>>,
}

impl<BD: Default, TD: Default> State<BD, TD> {
    fn new(handle: SHandle) -> (state: Self)
        ensures
            state.handle.index() == handle.index(),
            is_default(state.behavior),
            state.transitions is None,
    {
        State { handle, behavior: BD::default(), transitions: None }
    }

    /// Makes the slots of a state that has `count` transitions.
    fn slots(count: usize) -> (slots: Vec<TD>)
        ensures
            prepared(None, count as nat, slots@),
    {
        let mut slots: Vec<TD> = Vec::with_capacity(count);
        let mut i: usize = 0;
        while i < count
            invariant
                i <= count,
                slots@.len() == i,
                forall|k: int| 0 <= k < i ==> is_default(#[trigger] slots@[k]),
            decreases count - i,
        {
            slots.push(TD::default());
            i += 1;
        }
        slots
    }

    fn update<B, Trs>(
        &mut self,
        state: &crate::State<B, Trs>,
        commands: &mut B::Update,
        world: &B::World,
    ) -> (target: Target) where
        B: Behavior<Data = BD>,
        Trs: Transition<World = B::World, Data = TD>,

        ensures
            final(self).handle == old(self).handle,
            state.behavior.acts(
                old(self).behavior,
                *old(commands),
                *world,
                final(self).behavior,
                *final(commands),
            ),
            final(self).transitions is Some,
            ran(
                state.transitions@,
                *world,
                slots_of(old(self).transitions),
                final(self).transitions->0@,
                target,
            ),
    {
        state.behavior.update(&mut self.behavior, commands, world);
        let mut slots = match self.transitions.take() {
            Some(kept) => kept,
            None => Self::slots(state.transitions.len()),
        };
        let ghost prepared_slots = slots@;
        let target = scan(&state.transitions, &mut slots, world);
        let ghost scanned_slots = slots@;
        self.transitions = Some(slots);
        proof {
            let evaluated = choose|evaluated: int|
                scanned(state.transitions@, *world, prepared_slots, scanned_slots, evaluated, target);
            assert(scanned(
                state.transitions@,
                *world,
                prepared_slots,
                scanned_slots,
                evaluated,
                target,
            ));
        }
        target
    }
}

/// Data for individual machines
struct Machine<BD, TD> {
    handle: SmHandle,
    state: State<BD, TD>,
}

impl<BD: Default, TD: Default> Machine<BD, TD> {
    spec fn frame(&self) -> Frame<BD, TD> {
        Frame {
            machine: self.handle.index(),
            state: self.state.handle.index(),
            behavior: self.state.behavior,
            transitions: slots_of(self.state.transitions),
        }
    }

    fn new(handle: SmHandle) -> (machine: Self)
        ensures
            entered(machine.frame(), handle.index(), 0),
    {
        Machine { handle, state: State::new(SHandle::at(0)) }
    }

    /// Leaves the current state for `state`: its private data is dropped.
    fn goto(&mut self, state: SHandle)
        ensures
            entered(final(self).frame(), old(self).frame().machine, state.index()),
    {
        self.state = State::new(state);
    }

    fn update<B, Trs>(
        &mut self,
        machine: &crate::StateMachine<B, Trs>,
        commands: &mut B::Update,
        world: &B::World,
    ) -> (outcome: Result<Target, Error>) where
        B: Behavior<Data = BD>,
        Trs: Transition<World = B::World, Data = TD>,

        ensures
            match outcome {
                Ok(target) => {
                    &&& old(self).frame().state < machine.states@.len()
                    &&& stepped(
                        machine.states@[old(self).frame().state as int].behavior,
                        machine.states@[old(self).frame().state as int].transitions@,
                        old(self).frame(),
                        *old(commands),
                        *world,
                        final(self).frame(),
                        *final(commands),
                        target,
                    )
                },
                Err(error) => {
                    &&& error is BadStateName
                    &&& old(self).frame().state >= machine.states@.len()
                    &&& *final(self) == *old(self)
                    &&& *final(commands) == *old(commands)
                },
            },
    {
        let state = match machine.state(&self.state.handle) {
            Some(state) => state,
            None => {
                return Err(Error::BadStateName);
            },
        };
        let target = self.state.update(state, commands, world);
        Ok(target)
    }
}

/// The managed state of a Hierarchical Finite State Machine (HFSM)
///
/// This contains the state pointers of inactive state machines that entered a
/// nested machine, and the private data of those machines.
pub struct NestedMachine<BD, TD> {
    stack: Vec<Machine<BD, TD>>,
}

impl<BD: Default, TD: Default> View for NestedMachine<BD, TD> {
    type V = Seq<Frame<BD, TD>>;

    /// The frames of the instance, the active one last.
    closed spec fn view(&self) -> Seq<Frame<BD, TD>> {
        Seq::new(self.stack@.len(), |i: int| self.stack@[i].frame())
    }
}

impl<BD: Default, TD: Default> Default for NestedMachine<BD, TD> {
    fn default() -> (machine: Self)
        ensures
            machine@.len() == 0,
    {
        Self::new()
    }
}

impl<BD: Default, TD: Default> NestedMachine<BD, TD> {
    /// Initialize a `NestedMachine` without any active state
    pub fn new() -> (machine: Self)
        ensures
            machine@.len() == 0,
    {
        NestedMachine { stack: Vec::with_capacity(1) }
    }

    /// Initialize a `NestedMachine` with the first `State` of the first
    /// `Machine` activated.
    pub fn new_active() -> (machine: Self)
        ensures
            machine@.len() == 1,
            entered(machine@[0], 0, 0),
    {
        let mut stack = Vec::new();
        stack.push(Machine::new(SmHandle::at(0)));
        NestedMachine { stack }
    }

    /// Enter the nested state described by [`SmHandle`]: a new frame for that
    /// machine, at its initial state, becomes the active one.
    pub fn enter(&mut self, machine: &SmHandle)
        ensures
            final(self)@.len() == old(self)@.len() + 1,
            final(self)@.drop_last() == old(self)@,
            entered(final(self)@.last(), machine.index(), 0),
            applied(old(self)@, Target::Enter(*machine), final(self)@),
    {
        self.stack.push(Machine::new(SmHandle::at(machine.position())));
        assert(self@.drop_last() =~= old(self)@);
    }

    /// How many machines are active or suspended.
    pub fn stack_len(&self) -> (depth: usize)
        ensures
            depth == self@.len(),
    {
        self.stack.len()
    }

    /// The name of the active state, if there is an active machine and
    /// `machines` names its state.
    pub fn current_state_name<'a, B, T>(&self, machines: &'a StateMachines<B, T>) -> (found: Option<
        &'a str,
    >)
        ensures
            match found {
                Some(name) => {
                    &&& self@.len() > 0
                    &&& self@.last().machine < machines.state_names().len()
                    &&& self@.last().state < machines.state_names()[self@.last().machine as int].len()
                    &&& name@ == machines.state_names()[self@.last().machine as int][self@.last().state as int]
                },
                None => {
                    ||| self@.len() == 0
                    ||| self@.last().machine >= machines.state_names().len()
                    ||| self@.last().state >= machines.state_names()[self@.last().machine as int].len()
                },
            },
    {
        let depth = self.stack.len();
        if depth == 0 {
            return None;
        }
        let machine = &self.stack[depth - 1];
        machines.state_name(&machine.handle, &machine.state.handle)
    }

    /// The name of the active machine, if there is one and `machines` names
    /// it.
    pub fn current_machine_name<'a, B, T>(&self, machines: &'a StateMachines<B, T>) -> (found:
        Option<&'a str>)
        ensures
            match found {
                Some(name) => {
                    &&& self@.len() > 0
                    &&& self@.last().machine < machines.machine_names().len()
                    &&& name@ == machines.machine_names()[self@.last().machine as int]
                },
                None => self@.len() == 0 || self@.last().machine >= machines.machine_names().len(),
            },
    {
        let depth = self.stack.len();
        if depth == 0 {
            return None;
        }
        let machine = &self.stack[depth - 1];
        machines.machine_name(&machine.handle)
    }

    /// Applies the outcome of a step to the stack and reports whether
    /// anything is left to run. Without an active machine there is nothing to
    /// apply an outcome to: that is the error `EmptyStack`.
    pub fn apply(&mut self, target: Target) -> (outcome: Result<Complete, Error>)
        ensures
            match outcome {
                Ok(complete) => {
                    &&& old(self)@.len() > 0
                    &&& applied(old(self)@, target, final(self)@)
                    &&& complete == completion(final(self)@.len())
                },
                Err(error) => {
                    &&& error is EmptyStack
                    &&& old(self)@.len() == 0
                    &&& final(self)@ == old(self)@
                },
            },
    {
        let depth = self.stack.len();
        if depth == 0 {
            return Err(Error::EmptyStack);
        }
        match target {
            Target::Continue => Ok(Complete::Running),
            Target::Goto(state) => {
                self.stack[depth - 1].goto(state);
                assert(self@.drop_last() =~= old(self)@.drop_last());
                Ok(Complete::Running)
            },
            Target::Enter(machine) => {
                self.enter(&machine);
                Ok(Complete::Running)
            },
            Target::Complete => {
                self.stack.pop();
                assert(self@ =~= old(self)@.drop_last());
                if self.stack.is_empty() {
                    Ok(Complete::Done)
                } else {
                    Ok(Complete::Running)
                }
            },
        }
    }

    /// Runs one tick: one step of the active state, then what its outcome
    /// asks for.
    ///
    /// Without an active machine the tick is the error `EmptyStack`; where
    /// `machines` has no machine, or that machine no state, at the active
    /// frame's position, it is `BadMachineName` or `BadStateName`. An error
    /// leaves the instance and `commands` as they were, and calls nothing.
    ///
    /// Otherwise the behavior of the active state runs once, its transitions
    /// are scanned (see [`stepped`]), and the outcome is applied to the stack
    /// (see [`applied`]). The tick reports `Done` exactly when that leaves no
    /// frame.
    pub fn update<B, Trs>(
        &mut self,
        machines: &StateMachines<B, Trs>,
        commands: &mut B::Update,
        world: &B::World,
    ) -> (outcome: Result<Complete, Error>) where
        B: Behavior<Data = BD>,
        Trs: Transition<World = B::World, Data = TD>,

        ensures
            match outcome {
                Ok(complete) => {
                    &&& old(self)@.len() > 0
                    &&& old(self)@.last().state < machines.state_count(
                        old(self)@.last().machine as int,
                    )
                    &&& exists|after: Frame<BD, TD>, target: Target|
                        {
                            &&& #[trigger] stepped(
                                machines.behavior(
                                    old(self)@.last().machine as int,
                                    old(self)@.last().state as int,
                                ),
                                machines.transitions(
                                    old(self)@.last().machine as int,
                                    old(self)@.last().state as int,
                                ),
                                old(self)@.last(),
                                *old(commands),
                                *world,
                                after,
                                *final(commands),
                                target,
                            )
                            &&& applied(old(self)@.drop_last().push(after), target, final(self)@)
                        }
                    &&& complete == completion(final(self)@.len())
                    &&& old(self)@.len() - 1 <= final(self)@.len() <= old(self)@.len() + 1
                    &&& forall|i: int|
                        0 <= i < old(self)@.len() - 1 ==> final(self)@[i] == old(self)@[i]
                },
                Err(error) => {
                    &&& final(self)@ == old(self)@
                    &&& *final(commands) == *old(commands)
                    &&& match error {
                        Error::EmptyStack => old(self)@.len() == 0,
                        Error::BadMachineName => {
                            &&& old(self)@.len() > 0
                            &&& old(self)@.last().machine >= machines.machine_count()
                        },
                        Error::BadStateName => {
                            &&& old(self)@.len() > 0
                            &&& old(self)@.last().machine < machines.machine_count()
                            &&& old(self)@.last().state >= machines.state_count(
                                old(self)@.last().machine as int,
                            )
                        },
                    }
                },
            },
    {
        let depth = self.stack.len();
        if depth == 0 {
            return Err(Error::EmptyStack);
        }
        let machine = match machines.machine(&self.stack[depth - 1].handle) {
            Some(machine) => machine,
            None => {
                return Err(Error::BadMachineName);
            },
        };
        let target = match self.stack[depth - 1].update(machine, commands, world) {
            Ok(target) => target,
            Err(error) => {
                assert(self@ =~= old(self)@);
                return Err(error);
            },
        };
        let ghost after = self@.last();
        let ghost stepped_stack = self@;
        let ghost answer = target;
        assert(stepped_stack =~= old(self)@.drop_last().push(after));
        let outcome = self.apply(target);
        proof {
            match answer {
                Target::Continue => {},
                Target::Goto(state) => goto_replaces_the_active_frame(stepped_stack, state, self@),
                Target::Enter(machine) => enter_adds_one_frame(stepped_stack, machine, self@),
                Target::Complete => complete_removes_one_frame(stepped_stack, self@),
            }
        }
        outcome
    }
}

} // verus!

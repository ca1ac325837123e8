use pure_hfsm::builder;
use pure_hfsm::builder::{BuildError, IntoTransition, NameMapping};
use pure_hfsm::{StateMachines, Target};
use std::cell::RefCell;
use std::rc::Rc;

/// A transition of a description that resolves its target and rejects the
/// build where the target does not resolve.
struct Strict(builder::Target);

impl IntoTransition<Target> for Strict {
    fn into_with(self, mapping: &NameMapping) -> Option<Target> {
        mapping.target(&self.0)
    }
}

/// What one look into a mapping found.
type Found = Rc<RefCell<Vec<(String, Option<Target>)>>>;

/// A transition of a description that asks the mapping for some names,
/// writes down what it was told, and never rejects the build.
struct Ask {
    states: Vec<&'static str>,
    machines: Vec<&'static str>,
    found: Found,
}

impl IntoTransition<()> for Ask {
    fn into_with(self, mapping: &NameMapping) -> Option<()> {
        for name in self.states {
            self.found.borrow_mut().push((format!("goto {}", name), mapping.goto(name)));
        }
        for name in self.machines {
            self.found.borrow_mut().push((format!("enter {}", name), mapping.enter(name)));
        }
        Some(())
    }
}

fn state<T>(name: &str, transitions: Vec<T>) -> builder::State<u8, T> {
    builder::State { name: name.to_string(), behavior: 0, transitions }
}

fn machine<T>(name: &str, states: Vec<builder::State<u8, T>>) -> builder::StateMachine<u8, T> {
    builder::StateMachine { name: name.to_string(), states }
}

fn goto(name: &str) -> Strict {
    Strict(builder::Target::Goto(name.to_string()))
}

fn enter(name: &str) -> Strict {
    Strict(builder::Target::Enter(name.to_string()))
}

fn names<H>(listed: Vec<(H, &str)>) -> Vec<String> {
    listed.into_iter().map(|entry| entry.1.to_string()).collect()
}

/// Builds a description whose only transition asks for the names given, and
/// returns the store with what the mapping answered.
fn ask(
    mut machines: Vec<builder::StateMachine<u8, Ask>>,
    states: Vec<&'static str>,
    enters: Vec<&'static str>,
) -> (StateMachines<u8, ()>, Vec<(String, Option<Target>)>) {
    let found: Found = Rc::new(RefCell::new(Vec::new()));
    machines[0].states[0].transitions.push(Ask { states, machines: enters, found: found.clone() });
    let store = builder::StateMachines(machines).build().unwrap();
    let answers = found.borrow().clone();
    (store, answers)
}

fn state_handle(target: &Option<Target>) -> String {
    match target {
        Some(Target::Goto(handle)) => format!("{:?}", handle),
        other => format!("unexpected {:?}", other),
    }
}

fn machine_handle(target: &Option<Target>) -> String {
    match target {
        Some(Target::Enter(handle)) => format!("{:?}", handle),
        other => format!("unexpected {:?}", other),
    }
}

#[test]
fn handles_are_declaration_positions() {
    let description: Vec<builder::StateMachine<u8, Strict>> = vec![
        machine("first", vec![state("a", vec![]), state("b", vec![]), state("c", vec![])]),
        machine("second", vec![]),
        machine("third", vec![state("x", vec![]), state("y", vec![])]),
    ];
    let store: StateMachines<u8, Target> = builder::StateMachines(description).build().unwrap();

    let machines = store.machines();
    assert_eq!(machines.len(), 3);
    for (position, (handle, _)) in machines.iter().enumerate() {
        assert_eq!(format!("{:?}", handle), format!("SmHandle({})", position));
    }
    assert_eq!(names(store.machines()), vec!["first", "second", "third"]);

    let expected: Vec<Vec<&str>> = vec![vec!["a", "b", "c"], vec![], vec!["x", "y"]];
    for (m, (handle, _)) in machines.iter().enumerate() {
        let states = store.states(handle).unwrap();
        assert_eq!(states.len(), expected[m].len());
        for (s, (state, name)) in states.iter().enumerate() {
            assert_eq!(format!("{:?}", state), format!("SHandle({})", s));
            assert_eq!(*name, expected[m][s]);
        }
    }
}

#[test]
fn building_twice_assigns_the_same_handles() {
    let describe = || -> Vec<builder::StateMachine<u8, Strict>> {
        vec![
            machine("first", vec![state("a", vec![goto("b")]), state("b", vec![enter("second")])]),
            machine("second", vec![state("c", vec![])]),
        ]
    };
    let one: StateMachines<u8, Target> = builder::StateMachines(describe()).build().unwrap();
    let other: StateMachines<u8, Target> = builder::StateMachines(describe()).build().unwrap();
    assert_eq!(one.machines(), other.machines());
    for (handle, _) in one.machines() {
        assert_eq!(one.states(&handle), other.states(&handle));
    }
    assert_eq!(one.machine_handle("second"), other.machine_handle("second"));
}

#[test]
fn the_mapping_resolves_names_to_their_positions() {
    let description = vec![
        machine("first", vec![state("a", vec![]), state("b", vec![]), state("c", vec![])]),
        machine("second", vec![state("x", vec![]), state("y", vec![])]),
    ];
    let (store, answers) = ask(description, vec!["a", "b", "c", "x", "y"], vec!["first", "second"]);
    let described: Vec<(String, String)> = answers
        .iter()
        .map(|(asked, target)| {
            let handle = if asked.starts_with("goto") {
                state_handle(target)
            } else {
                machine_handle(target)
            };
            (asked.clone(), handle)
        })
        .collect();
    let expected = vec![
        ("goto a", "SHandle(0)"),
        ("goto b", "SHandle(1)"),
        ("goto c", "SHandle(2)"),
        ("goto x", "SHandle(0)"),
        ("goto y", "SHandle(1)"),
        ("enter first", "SmHandle(0)"),
        ("enter second", "SmHandle(1)"),
    ];
    assert_eq!(described.len(), expected.len());
    for (got, wanted) in described.iter().zip(expected.iter()) {
        assert_eq!(got.0, wanted.0);
        assert_eq!(got.1, wanted.1);
    }
    // the handles are those of the store
    let second = store.machine_handle("second").unwrap();
    assert!(matches!(&answers[6].1, Some(Target::Enter(handle)) if *handle == second));
    let states = store.states(&second).unwrap();
    assert!(matches!(&answers[4].1, Some(Target::Goto(handle)) if *handle == states[1].0));
}

#[test]
fn names_declared_later_resolve_too() {
    // the asking transition stands in the first state of the first machine
    let description = vec![
        machine("early", vec![state("start", vec![])]),
        machine("late", vec![state("p", vec![]), state("q", vec![])]),
    ];
    let (_, answers) = ask(description, vec!["q"], vec!["late"]);
    assert_eq!(state_handle(&answers[0].1), "SHandle(1)");
    assert_eq!(machine_handle(&answers[1].1), "SmHandle(1)");
}

#[test]
fn unknown_names_are_absent() {
    let description = vec![
        machine("first", vec![state("a", vec![])]),
        machine("second", vec![state("b", vec![])]),
    ];
    let (store, answers) = ask(description, vec!["first", "missing", ""], vec!["a", "missing", ""]);
    // a machine name is no state name, and the other way round
    for (_, answer) in &answers {
        assert!(answer.is_none());
    }
    assert_eq!(answers.len(), 6);
    assert_eq!(store.machine_handle("missing"), None);
    assert_eq!(store.machine_handle("a"), None);
    assert_eq!(store.machine_handle(""), None);
    assert!(store.machine_handle("first").is_some());
}

#[test]
fn states_of_a_machine_the_store_lacks_are_absent() {
    let large: StateMachines<u8, Target> = builder::StateMachines(vec![
        machine::<Strict>("one", vec![]),
        machine("two", vec![state("s", vec![])]),
    ])
    .build()
    .unwrap();
    let small: StateMachines<u8, Target> =
        builder::StateMachines(vec![machine::<Strict>("one", vec![state("t", vec![])])]).build().unwrap();
    let second = large.machine_handle("two").unwrap();
    assert!(small.states(&second).is_none());
    assert_eq!(names(large.states(&second).unwrap()), vec!["s"]);
    let first = large.machine_handle("one").unwrap();
    assert_eq!(names(small.states(&first).unwrap()), vec!["t"]);
    assert!(large.states(&first).unwrap().is_empty());
}

#[test]
fn end_resolves_to_complete() {
    let description = vec![machine("m", vec![state("s", vec![Strict(builder::Target::End)])])];
    let store: Result<StateMachines<u8, Target>, BuildError> = builder::StateMachines(description).build();
    assert!(store.is_ok());
    let found: Rc<RefCell<Vec<Option<Target>>>> = Rc::new(RefCell::new(Vec::new()));
    struct Look(Rc<RefCell<Vec<Option<Target>>>>);
    impl IntoTransition<()> for Look {
        fn into_with(self, mapping: &NameMapping) -> Option<()> {
            self.0.borrow_mut().push(mapping.target(&builder::Target::End));
            self.0.borrow_mut().push(mapping.target(&builder::Target::Goto("s".to_string())));
            self.0.borrow_mut().push(mapping.target(&builder::Target::Enter("m".to_string())));
            self.0.borrow_mut().push(mapping.target(&builder::Target::Goto("m".to_string())));
            self.0.borrow_mut().push(mapping.target(&builder::Target::Enter("s".to_string())));
            Some(())
        }
    }
    let description = vec![machine("m", vec![state("zero", vec![]), state("s", vec![Look(found.clone())])])];
    let built: Result<StateMachines<u8, ()>, BuildError> = builder::StateMachines(description).build();
    assert!(built.is_ok());
    let found = found.borrow();
    assert!(matches!(found[0], Some(Target::Complete)));
    assert_eq!(state_handle(&found[1]), "SHandle(1)");
    assert_eq!(machine_handle(&found[2]), "SmHandle(0)");
    assert!(found[3].is_none());
    assert!(found[4].is_none());
}

#[test]
fn a_transition_to_an_undeclared_state_rejects_the_build() {
    let description = vec![machine(
        "signal",
        vec![state("red", vec![goto("green")]), state("green", vec![goto("purple")])],
    )];
    let built: Result<StateMachines<u8, Target>, BuildError> = builder::StateMachines(description).build();
    assert!(matches!(built, Err(BuildError::Unresolved)));
}

#[test]
fn a_transition_into_an_undeclared_machine_rejects_the_build() {
    let description = vec![
        machine("guard", vec![state("patrol", vec![enter("combat")])]),
        machine("rest", vec![state("sleep", vec![enter("guard"), enter("patrol")])]),
    ];
    let built: Result<StateMachines<u8, Target>, BuildError> = builder::StateMachines(description).build();
    assert!(matches!(built, Err(BuildError::Unresolved)));
}

#[test]
fn a_description_whose_names_all_resolve_builds() {
    let description = vec![
        machine("guard", vec![state("patrol", vec![enter("combat"), goto("patrol")])]),
        machine("combat", vec![state("fight", vec![Strict(builder::Target::End), enter("guard")])]),
    ];
    let built: Result<StateMachines<u8, Target>, BuildError> = builder::StateMachines(description).build();
    assert!(built.is_ok());
}

#[test]
fn an_empty_description_builds_an_empty_store() {
    let description: Vec<builder::StateMachine<u8, Strict>> = Vec::new();
    let store: StateMachines<u8, Target> = builder::StateMachines(description).build().unwrap();
    assert!(store.machines().is_empty());
    assert_eq!(store.machine_handle("any"), None);
}

#[test]
fn as_many_machines_as_there_are_handles_build() {
    let mut description: Vec<builder::StateMachine<u8, Strict>> = Vec::new();
    for m in 0..65536 {
        description.push(machine(&format!("m{}", m), vec![]));
    }
    let store: StateMachines<u8, Target> = builder::StateMachines(description).build().unwrap();
    let machines = store.machines();
    assert_eq!(machines.len(), 65536);
    assert_eq!(format!("{:?}", machines[65535].0), "SmHandle(65535)");
    assert_eq!(machines[65535].1, "m65535");
    assert_eq!(store.machine_handle("m65535"), Some(machines[65535].0.clone()));
}

#[test]
fn one_machine_too_many_rejects_the_build() {
    let mut description: Vec<builder::StateMachine<u8, Strict>> = Vec::new();
    for m in 0..65537 {
        description.push(machine(&format!("m{}", m), vec![]));
    }
    let built: Result<StateMachines<u8, Target>, BuildError> = builder::StateMachines(description).build();
    assert!(matches!(built, Err(BuildError::TooManyMachines)));
}

#[test]
fn as_many_states_as_there_are_handles_build() {
    let mut states: Vec<builder::State<u8, Strict>> = Vec::new();
    for s in 0..256 {
        states.push(state(&format!("s{}", s), vec![]));
    }
    states[0].transitions.push(goto("s255"));
    let store: StateMachines<u8, Target> =
        builder::StateMachines(vec![machine("m", states)]).build().unwrap();
    let listed = store.states(&store.machine_handle("m").unwrap()).unwrap();
    assert_eq!(listed.len(), 256);
    assert_eq!(format!("{:?}", listed[255].0), "SHandle(255)");
    assert_eq!(listed[255].1, "s255");
}

#[test]
fn one_state_too_many_rejects_the_build() {
    let mut states: Vec<builder::State<u8, Strict>> = Vec::new();
    for s in 0..257 {
        states.push(state(&format!("s{}", s), vec![]));
    }
    let description = vec![machine("small", vec![state("a", vec![])]), machine("big", states)];
    let built: Result<StateMachines<u8, Target>, BuildError> = builder::StateMachines(description).build();
    assert!(matches!(built, Err(BuildError::TooManyStates)));
}

#[test]
fn too_many_machines_is_reported_before_anything_else() {
    let mut description: Vec<builder::StateMachine<u8, Strict>> = Vec::new();
    let mut states: Vec<builder::State<u8, Strict>> = Vec::new();
    for s in 0..257 {
        states.push(state(&format!("s{}", s), vec![goto("nowhere")]));
    }
    description.push(machine("big", states));
    for m in 0..65536 {
        description.push(machine(&format!("m{}", m), vec![]));
    }
    let built: Result<StateMachines<u8, Target>, BuildError> = builder::StateMachines(description).build();
    assert!(matches!(built, Err(BuildError::TooManyMachines)));
}

#[test]
fn too_many_states_is_reported_before_an_unresolved_name() {
    let mut states: Vec<builder::State<u8, Strict>> = Vec::new();
    for s in 0..257 {
        states.push(state(&format!("s{}", s), vec![goto("nowhere")]));
    }
    let built: Result<StateMachines<u8, Target>, BuildError> =
        builder::StateMachines(vec![machine("big", states)]).build();
    assert!(matches!(built, Err(BuildError::TooManyStates)));
}

#[test]
fn a_name_declared_twice_resolves_to_its_last_declaration() {
    let description = vec![
        machine("twin", vec![state("a", vec![]), state("b", vec![]), state("a", vec![])]),
        machine("other", vec![state("x", vec![]), state("b", vec![])]),
        machine("twin", vec![state("y", vec![])]),
    ];
    let (store, answers) = ask(description, vec!["a", "b", "x", "y"], vec!["twin", "other"]);
    // `a`: last in its machine; `b`: in the last machine that has it
    assert_eq!(state_handle(&answers[0].1), "SHandle(2)");
    assert_eq!(state_handle(&answers[1].1), "SHandle(1)");
    assert_eq!(state_handle(&answers[2].1), "SHandle(0)");
    assert_eq!(state_handle(&answers[3].1), "SHandle(0)");
    assert_eq!(machine_handle(&answers[4].1), "SmHandle(2)");
    assert_eq!(machine_handle(&answers[5].1), "SmHandle(1)");
    // the store finds the first machine of a name
    let first = store.machine_handle("twin").unwrap();
    assert_eq!(format!("{:?}", first), "SmHandle(0)");
    assert_eq!(names(store.machines()), vec!["twin", "other", "twin"]);
    assert_eq!(names(store.states(&first).unwrap()), vec!["a", "b", "a"]);
}

#[test]
fn conversion_stops_at_the_first_transition_that_is_rejected() {
    let seen: Rc<RefCell<Vec<u32>>> = Rc::new(RefCell::new(Vec::new()));
    struct Step(u32, bool, Rc<RefCell<Vec<u32>>>);
    impl IntoTransition<u32> for Step {
        fn into_with(self, _mapping: &NameMapping) -> Option<u32> {
            self.2.borrow_mut().push(self.0);
            if self.1 {
                Some(self.0)
            } else {
                None
            }
        }
    }
    let description = vec![
        machine(
            "m",
            vec![
                state("a", vec![Step(1, true, seen.clone()), Step(2, true, seen.clone())]),
                state("b", vec![Step(3, false, seen.clone()), Step(4, true, seen.clone())]),
            ],
        ),
        machine("n", vec![state("c", vec![Step(5, true, seen.clone())])]),
    ];
    let built: Result<StateMachines<u8, u32>, BuildError> = builder::StateMachines(description).build();
    assert!(matches!(built, Err(BuildError::Unresolved)));
    assert_eq!(*seen.borrow(), vec![1, 2, 3]);
}

#[test]
fn transitions_are_converted_in_declaration_order() {
    let seen: Rc<RefCell<Vec<u32>>> = Rc::new(RefCell::new(Vec::new()));
    struct Step(u32, Rc<RefCell<Vec<u32>>>);
    impl IntoTransition<u32> for Step {
        fn into_with(self, _mapping: &NameMapping) -> Option<u32> {
            self.1.borrow_mut().push(self.0);
            Some(self.0)
        }
    }
    let description = vec![
        machine(
            "m",
            vec![
                state("a", vec![Step(1, seen.clone()), Step(2, seen.clone())]),
                state("b", vec![Step(3, seen.clone())]),
            ],
        ),
        machine("n", vec![state("c", vec![Step(4, seen.clone()), Step(5, seen.clone())])]),
    ];
    let built: Result<StateMachines<u8, u32>, BuildError> = builder::StateMachines(description).build();
    assert!(built.is_ok());
    assert_eq!(*seen.borrow(), vec![1, 2, 3, 4, 5]);
}

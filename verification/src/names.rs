//! Names and the positions they stand for.
//!
//! A description declares its machines and states by name, in order. These
//! functions say which position a name resolves to, and the proof functions
//! after them say what follows for the names a description declares.
use vstd::prelude::*;

verus! {

/// The texts of a sequence of strings.
pub open spec fn texts(names: Seq<String>) -> Seq<Seq<char>> {
    Seq::new(names.len(), |i: int| names[i]@)
}

/// The texts of a sequence of sequences of strings.
pub open spec fn nested_texts(names: Seq<Vec<String>>) -> Seq<Seq<Seq<char>>> {
    Seq::new(names.len(), |i: int| texts(names[i]@))
}

/// `at` is the first position of `name` in `names`.
pub open spec fn first_at(names: Seq<Seq<char>>, name: Seq<char>, at: int) -> bool {
    &&& 0 <= at < names.len()
    &&& names[at] == name
    &&& forall|earlier: int| 0 <= earlier < at ==> names[earlier] != name
}

/// `at` is the last position of `name` in `names`.
pub open spec fn last_at(names: Seq<Seq<char>>, name: Seq<char>, at: int) -> bool {
    &&& 0 <= at < names.len()
    &&& names[at] == name
    &&& forall|later: int| at < later < names.len() ==> names[later] != name
}

/// No name occurs twice in `names`.
pub open spec fn distinct(names: Seq<Seq<char>>) -> bool {
    forall|i: int, j: int| 0 <= i < j < names.len() ==> names[i] != names[j]
}

/// The last position of `name` in `names`; 0 where `names` does not hold it.
pub open spec fn last_position(names: Seq<Seq<char>>, name: Seq<char>) -> nat
    decreases names.len(),
{
    if names.len() == 0 {
        0
    } else if names.last() == name {
        (names.len() - 1) as nat
    } else {
        last_position(names.drop_last(), name)
    }
}

/// What each name of `names` resolves to: its position, and where a name
/// occurs more than once, the last of its positions.
pub open spec fn positions(names: Seq<Seq<char>>) -> Map<Seq<char>, nat> {
    Map::new(|name: Seq<char>| names.contains(name), |name: Seq<char>| last_position(names, name))
}

/// What each state name resolves to, given the state names of every
/// machine in declaration order. State names are resolved in one space for
/// all machines: a name resolves to its position within the last machine
/// that declares it.
pub open spec fn state_positions(machines: Seq<Seq<Seq<char>>>) -> Map<Seq<char>, nat>
    decreases machines.len(),
{
    if machines.len() == 0 {
        Map::empty()
    } else {
        state_positions(machines.drop_last()).union_prefer_right(positions(machines.last()))
    }
}

/// The position that a declared name resolves to is the last one at which
/// it is declared.
pub proof fn last_position_is_last(names: Seq<Seq<char>>, name: Seq<char>)
    requires
        names.contains(name),
    ensures
        last_at(names, name, last_position(names, name) as int),
    decreases names.len(),
{
    let found = choose|found: int| 0 <= found < names.len() && names[found] == name;
    if names.last() != name {
        let earlier = names.drop_last();
        assert(earlier[found] == name);
        last_position_is_last(earlier, name);
        let at = last_position(earlier, name) as int;
        assert(names[at] == earlier[at]);
        assert forall|later: int| at < later < names.len() implies names[later] != name by {
            if later < earlier.len() {
                assert(earlier[later] != name);
            }
        }
    }
}

/// Declaring one more name makes that name resolve to the new position and
/// leaves every other name as it was.
pub proof fn positions_push(names: Seq<Seq<char>>, name: Seq<char>)
    ensures
        positions(names.push(name)) == positions(names).insert(name, names.len()),
{
    let longer = names.push(name);
    assert(longer.drop_last() =~= names);
    assert(longer.last() == name);
    assert forall|other: Seq<char>| longer.contains(other) <==> names.contains(other) || other
        == name by {
        if names.contains(other) {
            let at = choose|at: int| 0 <= at < names.len() && names[at] == other;
            assert(longer[at] == other);
        }
        if other == name {
            assert(longer[names.len() as int] == other);
        }
    }
    assert(positions(longer) =~= positions(names).insert(name, names.len()));
}

/// A name resolves to position `at` where `at` is the last position at
/// which it is declared.
pub proof fn positions_at_last(names: Seq<Seq<char>>, name: Seq<char>, at: int)
    requires
        last_at(names, name, at),
    ensures
        positions(names).contains_key(name),
        positions(names)[name] == at,
{
    assert(names.contains(name));
    last_position_is_last(names, name);
}

/// Among names of which none occurs twice, each resolves to the position at
/// which it is declared.
pub proof fn positions_of_distinct(names: Seq<Seq<char>>, at: int)
    requires
        distinct(names),
        0 <= at < names.len(),
    ensures
        positions(names).contains_key(names[at]),
        positions(names)[names[at]] == at,
{
    assert(names.contains(names[at]));
    last_position_is_last(names, names[at]);
}

/// A name resolves exactly when it is declared, and then to a position at
/// which it is declared.
pub proof fn positions_of_declared(names: Seq<Seq<char>>, name: Seq<char>)
    ensures
        positions(names).contains_key(name) <==> names.contains(name),
        positions(names).contains_key(name) ==> positions(names)[name] < names.len()
            && names[positions(names)[name] as int] == name,
{
    if names.contains(name) {
        last_position_is_last(names, name);
    }
}

/// A state name resolves exactly when some machine declares it.
pub proof fn state_positions_declared(machines: Seq<Seq<Seq<char>>>, name: Seq<char>)
    ensures
        state_positions(machines).contains_key(name) <==> exists|m: int|
            0 <= m < machines.len() && (#[trigger] machines[m]).contains(name),
    decreases machines.len(),
{
    if machines.len() > 0 {
        let earlier = machines.drop_last();
        state_positions_declared(earlier, name);
        if state_positions(machines).contains_key(name) {
            if machines.last().contains(name) {
                assert(machines[machines.len() - 1].contains(name));
            } else {
                let m = choose|m: int| 0 <= m < earlier.len() && (#[trigger] earlier[m]).contains(name);
                assert(machines[m].contains(name));
            }
        }
        if exists|m: int| 0 <= m < machines.len() && (#[trigger] machines[m]).contains(name) {
            let m = choose|m: int| 0 <= m < machines.len() && (#[trigger] machines[m]).contains(name);
            if m < machines.len() - 1 {
                assert(earlier[m].contains(name));
            }
        }
    }
}

/// A state name resolves to its last position within the last machine that
/// declares it.
pub proof fn state_positions_last(machines: Seq<Seq<Seq<char>>>, m: int, name: Seq<char>)
    requires
        0 <= m < machines.len(),
        machines[m].contains(name),
        forall|later: int| m < later < machines.len() ==> !(#[trigger] machines[later]).contains(name),
    ensures
        state_positions(machines).contains_key(name),
        state_positions(machines)[name] == last_position(machines[m], name),
        last_at(machines[m], name, state_positions(machines)[name] as int),
    decreases machines.len(),
{
    last_position_is_last(machines[m], name);
    if m < machines.len() - 1 {
        let earlier = machines.drop_last();
        assert(!machines[machines.len() - 1].contains(name));
        state_positions_last(earlier, m, name);
    }
}

/// A state name that resolves does so to a position at which some machine
/// declares it.
pub proof fn state_positions_exist(machines: Seq<Seq<Seq<char>>>, name: Seq<char>)
    requires
        state_positions(machines).contains_key(name),
    ensures
        exists|m: int|
            0 <= m < machines.len() && last_at(
                #[trigger] machines[m],
                name,
                state_positions(machines)[name] as int,
            ),
    decreases machines.len(),
{
    if machines.len() > 0 {
        let earlier = machines.drop_last();
        let last = machines.len() - 1;
        if machines.last().contains(name) {
            last_position_is_last(machines[last], name);
            assert(last_at(machines[last], name, state_positions(machines)[name] as int));
        } else {
            state_positions_exist(earlier, name);
            let m = choose|m: int|
                0 <= m < earlier.len() && last_at(
                    #[trigger] earlier[m],
                    name,
                    state_positions(earlier)[name] as int,
                );
            assert(last_at(machines[m], name, state_positions(machines)[name] as int));
        }
    }
}

/// Where every state name of a description is declared once only, each
/// resolves to the position at which its machine declares it.
pub proof fn state_positions_of_distinct(machines: Seq<Seq<Seq<char>>>, m: int, s: int)
    requires
        0 <= m < machines.len(),
        0 <= s < machines[m].len(),
        distinct(machines[m]),
        forall|other: int|
            0 <= other < machines.len() && other != m ==> !(#[trigger] machines[other]).contains(
                machines[m][s],
            ),
    ensures
        state_positions(machines).contains_key(machines[m][s]),
        state_positions(machines)[machines[m][s]] == s,
{
    let name = machines[m][s];
    assert(machines[m].contains(name));
    state_positions_last(machines, m, name);
}

} // verus!

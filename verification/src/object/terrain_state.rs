use crate::object::connection::Connection;
use crate::object::object_name::ObjectName;
use vstd::prelude::*;

verus! {

/// A state that a cell of an object grid may collapse to: an object name with its sprite index, its weight in the
/// random selection, and for each side of the cell the names its neighbour on that side may have.
#[derive(Debug)]
pub struct TerrainState {
    pub name: ObjectName,
    pub index: i32,
    pub weight: i32,
    pub permitted_neighbours: Vec<(Connection, Vec<ObjectName>)>,
}

/// A copy of a list of object names.
pub fn copy_names(names: &Vec<ObjectName>) -> (copy: Vec<ObjectName>)
    ensures
        copy@ == names@,
{
    let mut copy: Vec<ObjectName> = Vec::new();
    let mut i: usize = 0;
    while i < names.len()
        invariant
            i <= names.len(),
            copy@ == names@.subrange(0, i as int),
        decreases names.len() - i,
    {
        copy.push(names[i]);
        i = i + 1;
        assert(copy@ =~= names@.subrange(0, i as int));
    }
    assert(names@.subrange(0, names.len() as int) =~= names@);
    copy
}

/// A list holding only [`ObjectName::Empty`].
fn only_empty() -> (names: Vec<ObjectName>)
    ensures
        names@ == seq![ObjectName::Empty],
{
    let mut names: Vec<ObjectName> = Vec::new();
    names.push(ObjectName::Empty);
    names
}

impl TerrainState {
    /// The names permitted as neighbours on each side, side by side with the names as plain sequences.
    pub open spec fn rules(self) -> Seq<(Connection, Seq<ObjectName>)> {
        self.permitted_neighbours@.map_values(|rule: (Connection, Vec<ObjectName>)| (rule.0, rule.1@))
    }

    /// The state as plain values.
    pub open spec fn spec_view(self) -> (ObjectName, i32, i32, Seq<(Connection, Seq<ObjectName>)>) {
        (self.name, self.index, self.weight, self.rules())
    }

    /// A state whose neighbours on all four sides may only be [`ObjectName::Empty`].
    pub fn new_with_no_neighbours(name: ObjectName, index: i32, weight: i32) -> (state: TerrainState)
        ensures
            state.name == name,
            state.index == index,
            state.weight == weight,
            state.rules() == seq![
                (Connection::Top, seq![ObjectName::Empty]),
                (Connection::Right, seq![ObjectName::Empty]),
                (Connection::Bottom, seq![ObjectName::Empty]),
                (Connection::Left, seq![ObjectName::Empty]),
            ],
    {
        let mut permitted_neighbours: Vec<(Connection, Vec<ObjectName>)> = Vec::new();
        permitted_neighbours.push((Connection::Top, only_empty()));
        permitted_neighbours.push((Connection::Right, only_empty()));
        permitted_neighbours.push((Connection::Bottom, only_empty()));
        permitted_neighbours.push((Connection::Left, only_empty()));
        let state = TerrainState { name, index, weight, permitted_neighbours };
        assert(state.rules() =~= seq![
            (Connection::Top, seq![ObjectName::Empty]),
            (Connection::Right, seq![ObjectName::Empty]),
            (Connection::Bottom, seq![ObjectName::Empty]),
            (Connection::Left, seq![ObjectName::Empty]),
        ]);
        state
    }

    /// Returns a copy of this state.
    pub fn copy(&self) -> (copy: TerrainState)
        ensures
            copy.spec_view() == self.spec_view(),
    {
        let mut rules: Vec<(Connection, Vec<ObjectName>)> = Vec::new();
        let mut i: usize = 0;
        while i < self.permitted_neighbours.len()
            invariant
                i <= self.permitted_neighbours.len(),
                rules@.len() == i,
                forall|j: int|
                    0 <= j < i ==> (#[trigger] rules@[j]).0 == self.permitted_neighbours@[j].0
                        && rules@[j].1@ == self.permitted_neighbours@[j].1@,
            decreases self.permitted_neighbours.len() - i,
        {
            let connection = self.permitted_neighbours[i].0;
            let names = copy_names(&self.permitted_neighbours[i].1);
            rules.push((connection, names));
            i = i + 1;
        }
        let copy = TerrainState {
            name: self.name,
            index: self.index,
            weight: self.weight,
            permitted_neighbours: rules,
        };
        assert(copy.rules() =~= self.rules());
        copy
    }
}

} // verus!

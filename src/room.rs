//! Rooms of a cave and the halls between them.
//!
//! A hall names the two rooms it joins; a room knows its halls.
use vstd::prelude::*;
use std::rc::Rc;

verus! {

/// Something that can be found in a room.
pub enum Curio {
    Chest(u32),
    SpikeTrap(u32),
    Food(u32),
    IronMaiden(Box<Curio>, u32),
    FallenAdventurer(Box<Curio>),
}

/// A hall between the rooms named `left` and `right`.
pub struct Hall {
    pub left: String,
    pub right: String,
}

/// The name of the room at the other end of hall `h`, seen from room `from`.
pub open spec fn other_end(h: Hall, from: Seq<char>) -> Seq<char> {
    if h.left@ == from {
        h.right@
    } else {
        h.left@
    }
}

impl Hall {
    pub fn new(left: String, right: String) -> (r: Hall)
        ensures
            r.left@ == left@,
            r.right@ == right@,
    {
        Hall { left, right }
    }

    /// The name of the room at the other end from `room`.
    pub fn other(&self, room: &Room) -> (r: String)
        ensures
            r@ == other_end(*self, room.name@),
    {
        if self.left.eq(&room.name) {
            self.right.clone()
        } else {
            self.left.clone()
        }
    }
}

/// A room: its name, what lies in it, its halls, and whether the wumpus is
/// there. Two rooms are equal when their names are.
pub struct Room {
    pub name: String,
    pub contents: Vec<Curio>,
    pub halls: Vec<Rc<Hall>>,
    pub wumpus: bool,
}

impl PartialEq for Room {
    fn eq(&self, other: &Room) -> (r: bool) {
        self.name.eq(&other.name)
    }
}

impl vstd::std_specs::cmp::PartialEqSpecImpl for Room {
    open spec fn obeys_eq_spec() -> bool {
        true
    }

    open spec fn eq_spec(&self, other: &Room) -> bool {
        self.name@ == other.name@
    }
}

/// Names joined with a comma between each two.
pub open spec fn joined(names: Seq<Seq<char>>) -> Seq<char>
    decreases names.len(),
{
    if names.len() == 0 {
        Seq::empty()
    } else if names.len() == 1 {
        names[0]
    } else {
        joined(names.drop_last()) + seq![','] + names.last()
    }
}

/// The lower-case form of `s`, as `str::to_lowercase` gives it.
pub uninterp spec fn lower_of(s: Seq<char>) -> Seq<char>;

/// Relies on `str::to_lowercase`: the result depends on the characters alone.
#[verifier::external_body]
fn lowercase(s: &str) -> (r: String)
    ensures
        r@ == lower_of(s@),
{
    s.to_lowercase()
}

impl Room {
    pub fn new(name: String, contents: Vec<Curio>, halls: Vec<Rc<Hall>>, wumpus: bool) -> (r: Room)
        ensures
            r.name@ == name@,
            r.contents@ == contents@,
            r.halls@ == halls@,
            r.wumpus == wumpus,
    {
        Room { name: name, contents: contents, halls: halls, wumpus: wumpus }
    }

    /// The names of the neighbouring rooms, one per hall, in hall order.
    pub open spec fn neighbors(&self) -> Seq<Seq<char>> {
        Seq::new(self.halls@.len(), |i: int| other_end(*self.halls@[i], self.name@))
    }

    /// The neighbours' names, separated by commas.
    pub fn neighbors_string(&self) -> (r: String)
        ensures
            r@ == joined(self.neighbors()),
    {
        let mut out = String::new();
        let mut i: usize = 0;
        while i < self.halls.len()
            invariant
                i <= self.halls@.len(),
                out@ == joined(self.neighbors().take(i as int)),
            decreases self.halls@.len() - i,
        {
            let other_room = self.halls[i].other(self);
            if i > 0 {
                out.append(",");
                proof {
                    reveal_strlit(",");
                }
            }
            out.append(other_room.as_str());
            proof {
                assert(self.neighbors().take(i as int + 1).drop_last() =~= self.neighbors().take(
                    i as int,
                ));
                if i == 0 {
                    assert(out@ =~= joined(self.neighbors().take(1)));
                } else {
                    assert(out@ =~= joined(self.neighbors().take(i as int + 1)));
                }
            }
            i = i + 1;
        }
        assert(self.neighbors().take(i as int) =~= self.neighbors());
        out
    }

    /// The first neighbour whose name, in lower case, is `room`.
    pub fn find_room(&self, room: String) -> (r: Result<String, ()>)
        ensures
            r matches Ok(n) ==> exists|i: int|
                0 <= i < self.neighbors().len() && n@ == self.neighbors()[i] && lower_of(
                    self.neighbors()[i],
                ) == room@ && forall|j: int| 0 <= j < i ==> lower_of(self.neighbors()[j]) != room@,
            r is Err ==> forall|j: int|
                0 <= j < self.neighbors().len() ==> lower_of(self.neighbors()[j]) != room@,
    {
        let mut lowered: Vec<String> = Vec::new();
        let mut i: usize = 0;
        while i < self.halls.len()
            invariant
                i <= self.halls@.len(),
                lowered@.len() == i,
                forall|j: int| 0 <= j < i ==> lowered@[j]@ == lower_of(self.neighbors()[j]),
            decreases self.halls@.len() - i,
        {
            let other_room = self.halls[i].other(self);
            lowered.push(lowercase(other_room.as_str()));
            i = i + 1;
        }
        self.pick_room(&lowered, &room)
    }

    /// The first neighbour whose entry in `lowered` (one entry per hall, in
    /// hall order) is `room`.
    pub fn pick_room(&self, lowered: &Vec<String>, room: &String) -> (r: Result<String, ()>)
        requires
            lowered@.len() == self.halls@.len(),
        ensures
            r matches Ok(n) ==> exists|i: int|
                0 <= i < lowered@.len() && n@ == self.neighbors()[i] && lowered@[i]@ == room@
                    && forall|j: int| 0 <= j < i ==> lowered@[j]@ != room@,
            r is Err ==> forall|j: int| 0 <= j < lowered@.len() ==> lowered@[j]@ != room@,
    {
        let mut i: usize = 0;
        while i < lowered.len()
            invariant
                i <= lowered@.len(),
                lowered@.len() == self.halls@.len(),
                forall|j: int| 0 <= j < i ==> lowered@[j]@ != room@,
            decreases lowered@.len() - i,
        {
            if lowered[i].eq(room) {
                let other_room = self.halls[i].other(self);
                assert(other_room@ == self.neighbors()[i as int]);
                return Ok(other_room);
            }
            i = i + 1;
        }
        Err(())
    }
}

} // verus!

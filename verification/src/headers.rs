//! The header mapping of a parsed request: ordered `(name, value)` pairs,
//! viewed as a map from name to value where a later pair for the same name
//! overwrites an earlier one (last-write-wins).

use crate::text::str_eq;
use vstd::prelude::*;

verus! {

/// A collection of header `(name, value)` pairs. Names are stored as the
/// parser inserted them (lowercased); lookup compares names exactly.
#[derive(PartialEq, Eq, Debug)]
pub struct Headers {
    entries: Vec<(String, String)>,
}

/// The mapping described by a pair sequence: each pair inserted in order,
/// so that a later pair for the same name wins.
pub open spec fn map_of(es: Seq<(String, String)>) -> Map<Seq<char>, Seq<char>>
    decreases es.len(),
{
    if es.len() == 0 {
        Map::empty()
    } else {
        map_of(es.drop_last()).insert(es.last().0@, es.last().1@)
    }
}

impl View for Headers {
    type V = Map<Seq<char>, Seq<char>>;

    closed spec fn view(&self) -> Map<Seq<char>, Seq<char>> {
        map_of(self.entries@)
    }
}

/// A pair whose name no later pair repeats gives the map its value.
proof fn lemma_map_of_found(es: Seq<(String, String)>, i: int)
    requires
        0 <= i < es.len(),
        forall|j: int| i < j < es.len() ==> es[j].0@ != es[i].0@,
    ensures
        map_of(es).contains_key(es[i].0@),
        map_of(es)[es[i].0@] == es[i].1@,
    decreases es.len(),
{
    if i < es.len() - 1 {
        assert(es.drop_last()[i] == es[i]);
        lemma_map_of_found(es.drop_last(), i);
    }
}

/// A name no pair carries is not in the map.
proof fn lemma_map_of_absent(es: Seq<(String, String)>, k: Seq<char>)
    requires
        forall|j: int| 0 <= j < es.len() ==> es[j].0@ != k,
    ensures
        !map_of(es).contains_key(k),
    decreases es.len(),
{
    if es.len() > 0 {
        lemma_map_of_absent(es.drop_last(), k);
    }
}

impl Headers {
    /// An empty header mapping.
    pub fn new() -> (r: Headers)
        ensures
            r@ == Map::<Seq<char>, Seq<char>>::empty(),
    {
        Headers { entries: Vec::new() }
    }

    /// Adds a pair; for the mapping the new value overwrites any earlier
    /// value under the same name.
    pub fn insert(&mut self, name: String, value: String)
        ensures
            final(self)@ == old(self)@.insert(name@, value@),
    {
        let ghost prev = self.entries@;
        self.entries.push((name, value));
        proof {
            assert(self.entries@.drop_last() =~= prev);
        }
    }

    /// The value stored under exactly `name`, if any.
    pub fn get<'a>(&'a self, name: &str) -> (r: Option<&'a String>)
        ensures
            match r {
                Some(v) => self@.contains_key(name@) && self@[name@] == v@,
                None => !self@.contains_key(name@),
            },
    {
        let mut i: usize = self.entries.len();
        while i > 0
            invariant
                i <= self.entries@.len(),
                forall|j: int| i <= j < self.entries@.len() ==> self.entries@[j].0@ != name@,
            decreases i,
    {
            i -= 1;
            let e = &self.entries[i];
            if str_eq(e.0.as_str(), name) {
                proof {
                    lemma_map_of_found(self.entries@, i as int);
                }
                return Some(&e.1);
            }
        }
        proof {
            lemma_map_of_absent(self.entries@, name@);
        }
        None
    }
}

} // verus!

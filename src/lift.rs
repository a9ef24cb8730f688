use vstd::prelude::*;

verus! {

/// A configuration value that may be written as a single item, a list of
/// items, or left out.
#[derive(Debug, Clone)]
pub enum Lift<T> {
    More(Vec<T>),
    One(T),
    Empty,
}

impl<T> Lift<T> {
    /// The items the value stands for, in order.
    pub open spec fn items(&self) -> Seq<T> {
        match self {
            Lift::More(vs) => vs@,
            Lift::One(v) => seq![*v],
            Lift::Empty => Seq::empty(),
        }
    }
}

impl<T: Clone> Lift<T> {
    /// Returns the items as a list: all of them for `More`, one for `One`,
    /// none for `Empty`.
    pub fn resolve(&self) -> (r: Vec<T>)
        ensures
            r@.len() == self.items().len(),
            forall|i: int| 0 <= i < r@.len() ==> cloned::<T>(#[trigger] self.items()[i], r@[i]),
    {
        match self {
            Lift::More(vs) => vs.clone(),
            Lift::One(v) => {
                let mut r: Vec<T> = Vec::new();
                r.push(v.clone());
                r
            },
            Lift::Empty => Vec::new(),
        }
    }
}

/// The items of a list of strings, as a sequence of character sequences.
pub open spec fn string_seq(v: Seq<String>) -> Seq<Seq<char>> {
    v.map_values(|s: String| s@)
}

/// Returns the items of a string-valued `Lift` as owned strings.
pub fn resolve_strings(l: &Lift<String>) -> (r: Vec<String>)
    ensures
        r@ == l.items(),
{
    let r = l.resolve();
    proof {
        assert forall|i: int| 0 <= i < r@.len() implies r@[i] == l.items()[i] by {
            assert(cloned::<String>(l.items()[i], r@[i]));
        }
        assert(r@ =~= l.items());
    }
    r
}

} // verus!

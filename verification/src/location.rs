//! Places in the file system, named by a root directory and the names below it.

use vstd::prelude::*;

use crate::words::texts;

verus! {

/// The directories that a build knows where to find only when it runs.
#[derive(Clone, Copy, PartialEq, Eq, Debug, Structural)]
pub enum Root {
    /// The directory that `OUT_DIR` names.
    OutDir,
    /// The directory in which the `botan-src` crate built Botan.
    BotanBuild,
}

/// A path: a root directory and the names that are joined to it, in order.
#[derive(Debug)]
pub struct Location {
    pub root: Root,
    pub parts: Vec<String>,
}

/// The model of a [`Location`].
#[verifier::ext_equal]
pub struct LocationView {
    pub root: Root,
    pub parts: Seq<Seq<char>>,
}

impl LocationView {
    /// The root directory itself.
    pub open spec fn root(root: Root) -> LocationView {
        LocationView { root, parts: seq![] }
    }

    /// The place called `name` in this one.
    pub open spec fn join(self, name: Seq<char>) -> LocationView {
        LocationView { root: self.root, parts: self.parts.push(name) }
    }

    /// This place is `ancestor` or lies below it.
    pub open spec fn is_under(self, ancestor: LocationView) -> bool {
        &&& self.root == ancestor.root
        &&& ancestor.parts.is_prefix_of(self.parts)
    }
}

impl View for Location {
    type V = LocationView;

    open spec fn view(&self) -> LocationView {
        LocationView { root: self.root, parts: texts(self.parts@) }
    }
}

impl Location {
    /// The root directory itself.
    pub fn at(root: Root) -> (location: Location)
        ensures
            location@ == LocationView::root(root),
    {
        let location: Location = Location { root, parts: Vec::new() };
        assert(location@.parts =~= seq![]);
        location
    }

    /// The place called `name` in this one.
    pub fn join(&self, name: &str) -> (location: Location)
        ensures
            location@ == self@.join(name@),
    {
        let mut location: Location = self.clone();
        let ghost before = location@;
        location.parts.push(name.to_string());
        assert(location@.parts =~= before.parts.push(name@));
        location
    }
}

impl Clone for Location {
    fn clone(&self) -> (location: Location)
        ensures
            location@ == self@,
    {
        let mut parts: Vec<String> = Vec::new();
        let mut i: usize = 0;
        while i < self.parts.len()
            invariant
                i <= self.parts@.len(),
                texts(parts@) == texts(self.parts@).take(i as int),
            decreases self.parts@.len() - i,
        {
            let ghost sofar = texts(parts@);
            parts.push(self.parts[i].clone());
            assert(texts(parts@) =~= sofar.push(self.parts@[i as int]@));
            assert(texts(parts@) =~= texts(self.parts@).take(i + 1));
            i = i + 1;
        }
        assert(texts(parts@) =~= texts(self.parts@));
        Location { root: self.root, parts }
    }
}

/// The views of a list of places.
pub open spec fn places(list: Seq<Location>) -> Seq<LocationView> {
    list.map_values(|location: Location| location@)
}

/// A place lies below the one that it was made from.
pub proof fn law_join_is_under(location: LocationView, name: Seq<char>)
    ensures
        location.join(name).is_under(location),
{
}

/// Joining loses nothing: different names in one place, or one name in different
/// places, are different places.
pub proof fn law_join_is_injective(
    a: LocationView,
    left: Seq<char>,
    b: LocationView,
    right: Seq<char>,
)
    requires
        a.join(left) == b.join(right),
    ensures
        a == b,
        left == right,
{
    assert(a.join(left).parts.last() == left);
    assert(b.join(right).parts.last() == right);
    assert(a.join(left).parts.drop_last() =~= a.parts);
    assert(b.join(right).parts.drop_last() =~= b.parts);
}

/// Joining adds one name at the end, below the same root.
pub proof fn law_join_adds_one_name(location: LocationView, name: Seq<char>)
    ensures
        location.join(name).root == location.root,
        location.join(name).parts.len() == location.parts.len() + 1,
        location.join(name).parts.last() == name,
        location.join(name).parts.drop_last() == location.parts,
{
    assert(location.join(name).parts.drop_last() =~= location.parts);
}

} // verus!

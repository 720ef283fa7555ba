//! Paths and file names as plain bytes.

use vstd::prelude::*;

verus! {

/// A path, held as its components from the root down. The root itself is a
/// component of its own, and each component is in the platform's own encoding.
///
/// Two paths are the same when their components are.
#[derive(Debug, PartialEq, Eq)]
pub struct CachePath {
    pub parts: Vec<Vec<u8>>,
}

/// The contents of a list of names.
pub open spec fn names_view(names: Seq<Vec<u8>>) -> Seq<Seq<u8>> {
    names.map_values(|name: Vec<u8>| name@)
}

impl View for CachePath {
    type V = Seq<Seq<u8>>;

    open spec fn view(&self) -> Seq<Seq<u8>> {
        names_view(self.parts@)
    }
}

impl Clone for CachePath {
    fn clone(&self) -> (copy: Self)
        ensures
            copy@ == self@,
    {
        let mut parts: Vec<Vec<u8>> = Vec::new();
        let mut i: usize = 0;
        while i < self.parts.len()
            invariant
                i <= self.parts.len(),
                names_view(parts@) == self@.take(i as int),
            decreases self.parts.len() - i,
        {
            let ghost before = parts@;
            parts.push(copy_name(&self.parts[i]));
            proof {
                assert(names_view(parts@) =~= names_view(before).push(self@[i as int]));
                assert(self@.take(i + 1) =~= self@.take(i as int).push(self@[i as int]));
            }
            i = i + 1;
        }
        assert(self@.take(self@.len() as int) =~= self@);
        CachePath { parts }
    }
}

impl CachePath {
    /// The path of the entry called `name` in the directory at this path.
    pub fn join(&self, name: &Vec<u8>) -> (child: CachePath)
        ensures
            child@ == self@.push(name@),
            child.parts@.len() == self.parts@.len() + 1,
            child.parts@.last()@ == name@,
            forall|i: int|
                0 <= i < self.parts@.len() ==> (#[trigger] child.parts@[i])@ == self.parts@[i]@,
    {
        let mut child = self.clone();
        let ghost before = child.parts@;
        child.parts.push(copy_name(name));
        assert(child@ =~= names_view(before).push(name@));
        assert forall|i: int| 0 <= i < self.parts@.len() implies (#[trigger] child.parts@[i])@
            == self.parts@[i]@ by {
            assert(child@[i] == self@[i]);
        }
        child
    }

    /// Whether both are the same path.
    pub fn same(&self, other: &CachePath) -> (same: bool)
        ensures
            same == (self@ == other@),
            same <==> self.parts@.len() == other.parts@.len() && forall|i: int|
                0 <= i < self.parts@.len() ==> (#[trigger] self.parts@[i])@ == other.parts@[i]@,
    {
        if self.parts.len() != other.parts.len() {
            assert(self@.len() != other@.len());
            return false;
        }
        let mut i: usize = 0;
        while i < self.parts.len()
            invariant
                i <= self.parts.len(),
                self.parts.len() == other.parts.len(),
                forall|k: int| 0 <= k < i ==> self@[k] == other@[k],
                forall|k: int| 0 <= k < i ==> (#[trigger] self.parts@[k])@ == other.parts@[k]@,
            decreases self.parts.len() - i,
        {
            if !same_name(&self.parts[i], &other.parts[i]) {
                assert(self@[i as int] != other@[i as int]);
                assert(self.parts@[i as int]@ != other.parts@[i as int]@);
                return false;
            }
            assert(self@[i as int] == other@[i as int]);
            i = i + 1;
        }
        assert(self@ =~= other@);
        true
    }
}

/// A copy of a name.
pub(crate) fn copy_name(name: &Vec<u8>) -> (copy: Vec<u8>)
    ensures
        copy@ == name@,
{
    let mut copy: Vec<u8> = Vec::new();
    append_name(&mut copy, name);
    copy
}

/// Appends the bytes of one name to another.
pub(crate) fn append_name(name: &mut Vec<u8>, tail: &Vec<u8>)
    ensures
        final(name)@ == old(name)@ + tail@,
{
    name.extend_from_slice(tail.as_slice());
    assert(name@ =~= old(name)@ + tail@);
}

/// Whether both are the same name, byte for byte.
pub(crate) fn same_name(a: &Vec<u8>, b: &Vec<u8>) -> (same: bool)
    ensures
        same == (a@ == b@),
{
    assert(a@.subrange(0, a@.len() as int) =~= a@);
    a.len() == b.len() && starts_with(a, b)
}

/// Whether `name` begins with the bytes of `prefix`.
pub(crate) fn starts_with(name: &Vec<u8>, prefix: &Vec<u8>) -> (begins: bool)
    ensures
        begins == prefix@.is_prefix_of(name@),
{
    if name.len() < prefix.len() {
        return false;
    }
    let mut i: usize = 0;
    while i < prefix.len()
        invariant
            i <= prefix.len() <= name.len(),
            forall|k: int| 0 <= k < i ==> name@[k] == prefix@[k],
        decreases prefix.len() - i,
    {
        if name[i] != prefix[i] {
            assert(name@.subrange(0, prefix@.len() as int)[i as int] != prefix@[i as int]);
            return false;
        }
        i = i + 1;
    }
    assert(name@.subrange(0, prefix@.len() as int) =~= prefix@);
    true
}

/// A list of names is told by the bytes of each name, in the order of the list.
pub proof fn names_are_told_one_by_one(names: Seq<Vec<u8>>)
    ensures
        names_view(names).len() == names.len(),
        forall|i: int| 0 <= i < names.len() ==> #[trigger] names_view(names)[i] == names[i]@,
{
}

/// A path is told by the bytes of each of its components, from the root down.
pub proof fn path_is_its_components(path: CachePath)
    ensures
        path@.len() == path.parts@.len(),
        forall|i: int| 0 <= i < path.parts@.len() ==> #[trigger] path@[i] == path.parts@[i]@,
{
}

} // verus!

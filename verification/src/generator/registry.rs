//! The generator's registry: numbers tags and properties by first use,
//! starting at 1.
use vstd::prelude::*;

use crate::text::str_eq;

verus! {

/// A tag number.
pub type Tag = u32;

/// A property number.
pub type PropertyID = u32;

/// The names, numbered in order of first use from 1: the name at position
/// `i` has number `i + 1`.
pub open spec fn numbered(entries: Seq<(String, u32)>) -> bool {
    &&& forall|i: int| 0 <= i < entries.len() ==> (#[trigger] entries[i]).1 == i + 1
    &&& forall|i: int, j: int|
        0 <= i < j < entries.len() ==> (#[trigger] entries[i]).0@ != (#[trigger] entries[j]).0@
}

/// The names of the entries, in order.
pub open spec fn names_of(entries: Seq<(String, u32)>) -> Seq<Seq<char>> {
    entries.map_values(|e: (String, u32)| e.0@)
}

/// Numbers tags and properties by first use.
#[derive(Debug)]
pub struct Registry {
    next_tag: Tag,
    tags: Vec<(String, Tag)>,
    next_property: PropertyID,
    properties: Vec<(String, PropertyID)>,
}

/// Finds a name among numbered entries.
fn find(entries: &Vec<(String, u32)>, value: &str) -> (r: Option<u32>)
    requires
        numbered(entries@),
    ensures
        match r {
            Some(id) => exists|i: int|
                0 <= i < entries@.len() && (#[trigger] entries@[i]).0@ == value@ && id == i + 1,
            None => !names_of(entries@).contains(value@),
        },
{
    let mut i: usize = 0;
    while i < entries.len()
        invariant
            i <= entries@.len(),
            numbered(entries@),
            forall|j: int| 0 <= j < i ==> (#[trigger] entries@[j]).0@ != value@,
        decreases entries.len() - i,
    {
        if str_eq(entries[i].0.as_str(), value) {
            return Some(entries[i].1);
        }
        i += 1;
    }
    proof {
        if names_of(entries@).contains(value@) {
            let j = choose|j: int| 0 <= j < names_of(entries@).len() && names_of(entries@)[j] == value@;
            assert(entries@[j].0@ == value@);
        }
    }
    None
}

/// The number of `value` among the entries, numbering it next if it is new.
fn number(entries: &mut Vec<(String, u32)>, next: &mut u32, value: &str) -> (id: u32)
    requires
        numbered(old(entries)@),
        *old(next) == old(entries)@.len() + 1,
        names_of(old(entries)@).contains(value@) || *old(next) < u32::MAX,
    ensures
        numbered(final(entries)@),
        *final(next) == final(entries)@.len() + 1,
        names_of(old(entries)@).contains(value@) ==> final(entries)@ == old(entries)@ && exists|i: int|
            0 <= i < old(entries)@.len() && (#[trigger] old(entries)@[i]).0@ == value@ && id == i + 1,
        !names_of(old(entries)@).contains(value@) ==> names_of(final(entries)@) == names_of(
            old(entries)@,
        ).push(value@) && id == old(entries)@.len() + 1,
{
    match find(entries, value) {
        Some(id) => {
            proof {
                let i = choose|i: int| 0 <= i < entries@.len() && (#[trigger] entries@[i]).0@ == value@ && id == i + 1;
                assert(names_of(entries@)[i] == value@);
            }
            id
        },
        None => {
            let id = *next;
            *next = id + 1;
            let ghost before = entries@;
            entries.push((value.to_owned(), id));
            proof {
                assert forall|i: int, j: int| 0 <= i < j < entries@.len() implies (#[trigger] entries@[i]).0@
                    != (#[trigger] entries@[j]).0@ by {
                    if j == before.len() {
                        assert(names_of(before)[i] == before[i].0@);
                    }
                }
                assert(names_of(entries@) =~= names_of(before).push(value@));
            }
            id
        },
    }
}

impl Registry {
    /// Both numberings count from 1 in order of first use, with the next number one past the last.
    pub closed spec fn wf(&self) -> bool {
        &&& numbered(self.tags@)
        &&& self.next_tag == self.tags@.len() + 1
        &&& numbered(self.properties@)
        &&& self.next_property == self.properties@.len() + 1
    }

    /// The tag names, in order of number.
    pub closed spec fn tag_names(&self) -> Seq<Seq<char>> {
        names_of(self.tags@)
    }

    /// The property names, in order of number.
    pub closed spec fn property_names(&self) -> Seq<Seq<char>> {
        names_of(self.properties@)
    }

    /// A registry with no tags and no properties.
    pub fn new() -> (r: Self)
        ensures
            r.wf(),
            r.tag_names() == Seq::<Seq<char>>::empty(),
            r.property_names() == Seq::<Seq<char>>::empty(),
    {
        let r = Registry { next_tag: 1, tags: Vec::new(), next_property: 1, properties: Vec::new() };
        assert(r.tag_names() =~= Seq::<Seq<char>>::empty());
        assert(r.property_names() =~= Seq::<Seq<char>>::empty());
        r
    }

    /// The number of a tag, numbering it next if it is new. Tag numbers are
    /// `u32`: a new tag needs one to be left.
    pub fn tag(&mut self, value: &str) -> (id: Tag)
        requires
            old(self).wf(),
            old(self).tag_names().contains(value@) || old(self).tag_names().len() + 1 < u32::MAX,
        ensures
            final(self).wf(),
            final(self).property_names() == old(self).property_names(),
            old(self).tag_names().contains(value@) ==> final(self).tag_names() == old(self).tag_names()
                && 1 <= id <= old(self).tag_names().len() && old(self).tag_names()[id - 1] == value@,
            !old(self).tag_names().contains(value@) ==> final(self).tag_names() == old(
                self,
            ).tag_names().push(value@) && id == old(self).tag_names().len() + 1,
    {
        let ghost before = self.tags@;
        let id = number(&mut self.tags, &mut self.next_tag, value);
        proof {
            if names_of(before).contains(value@) {
                let i = choose|i: int| 0 <= i < before.len() && (#[trigger] before[i]).0@ == value@ && id == i + 1;
                assert(names_of(before)[i] == value@);
            }
        }
        id
    }

    /// The number of a property, numbering it next if it is new.
    pub fn property(&mut self, value: &str) -> (id: PropertyID)
        requires
            old(self).wf(),
            old(self).property_names().contains(value@) || old(self).property_names().len() + 1 < u32::MAX,
        ensures
            final(self).wf(),
            final(self).tag_names() == old(self).tag_names(),
            old(self).property_names().contains(value@) ==> final(self).property_names() == old(
                self,
            ).property_names() && 1 <= id <= old(self).property_names().len() && old(
                self,
            ).property_names()[id - 1] == value@,
            !old(self).property_names().contains(value@) ==> final(self).property_names() == old(
                self,
            ).property_names().push(value@) && id == old(self).property_names().len() + 1,
    {
        let ghost before = self.properties@;
        let id = number(&mut self.properties, &mut self.next_property, value);
        proof {
            if names_of(before).contains(value@) {
                let i = choose|i: int| 0 <= i < before.len() && (#[trigger] before[i]).0@ == value@ && id == i + 1;
                assert(names_of(before)[i] == value@);
            }
        }
        id
    }

    /// The tags with their numbers, in order of number.
    pub fn export_tags(&self) -> (r: Vec<(Tag, String)>)
        requires
            self.wf(),
        ensures
            exported(r@, self.tag_names()),
    {
        export(&self.tags)
    }

    /// The properties with their numbers, in order of number.
    pub fn export_properties(&self) -> (r: Vec<(PropertyID, String)>)
        requires
            self.wf(),
        ensures
            exported(r@, self.property_names()),
    {
        export(&self.properties)
    }
}

/// `r` lists the names with their numbers, in order of number.
pub open spec fn exported(r: Seq<(u32, String)>, names: Seq<Seq<char>>) -> bool {
    &&& r.len() == names.len()
    &&& forall|i: int| 0 <= i < r.len() ==> (#[trigger] r[i]).0 == i + 1 && r[i].1@ == names[i]
}

fn export(entries: &Vec<(String, u32)>) -> (r: Vec<(u32, String)>)
    requires
        numbered(entries@),
    ensures
        exported(r@, names_of(entries@)),
{
    let mut out: Vec<(u32, String)> = Vec::new();
    let mut i: usize = 0;
    while i < entries.len()
        invariant
            i <= entries@.len(),
            numbered(entries@),
            out@.len() == i,
            forall|m: int| 0 <= m < i ==> (#[trigger] out@[m]).0 == m + 1 && out@[m].1@ == entries@[m].0@,
        decreases entries.len() - i,
    {
        let name = entries[i].0.as_str().to_owned();
        out.push((entries[i].1, name));
        i += 1;
    }
    out
}

impl Default for Registry {
    fn default() -> (r: Self)
        ensures
            r.wf(),
            r.tag_names() == Seq::<Seq<char>>::empty(),
            r.property_names() == Seq::<Seq<char>>::empty(),
    {
        Registry::new()
    }
}

} // verus!

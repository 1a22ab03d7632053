use vstd::prelude::*;

use crate::bytes::bytes_eq;

verus! {

/// A header as a pair of byte strings: name and value.
pub type Field = (Seq<u8>, Seq<u8>);

/// No two fields share a name.
pub open spec fn names_unique(fs: Seq<Field>) -> bool {
    forall|i: int, j: int|
        0 <= i < fs.len() && 0 <= j < fs.len() && i != j ==> #[trigger] fs[i].0 != #[trigger] fs[j].0
}

/// Whether some field is named `name`.
pub open spec fn has_name(fs: Seq<Field>, name: Seq<u8>) -> bool {
    exists|i: int| 0 <= i < fs.len() && #[trigger] fs[i].0 == name
}

/// The index of the field named `name` (meaningful when `has_name` holds).
pub open spec fn name_index(fs: Seq<Field>, name: Seq<u8>) -> int {
    choose|i: int| 0 <= i < fs.len() && #[trigger] fs[i].0 == name
}

/// The value of the field named `name`, if any.
pub open spec fn lookup(fs: Seq<Field>, name: Seq<u8>) -> Option<Seq<u8>> {
    if has_name(fs, name) {
        Some(fs[name_index(fs, name)].1)
    } else {
        None
    }
}

/// The fields after setting `name` to `value`: an existing field of that name has its
/// value replaced in place, otherwise the field is appended.
pub open spec fn set_field(fs: Seq<Field>, name: Seq<u8>, value: Seq<u8>) -> Seq<Field> {
    if has_name(fs, name) {
        fs.update(name_index(fs, name), (name, value))
    } else {
        fs.push((name, value))
    }
}

/// Setting a field keeps names unique; afterwards the name maps to the new value and
/// every other name keeps its value.
pub proof fn lemma_set_field(fs: Seq<Field>, name: Seq<u8>, value: Seq<u8>)
    requires
        names_unique(fs),
    ensures
        names_unique(set_field(fs, name, value)),
        forall|other: Seq<u8>|
            #[trigger] lookup(set_field(fs, name, value), other) == if other == name {
                Some(value)
            } else {
                lookup(fs, other)
            },
{
    let gs = set_field(fs, name, value);
    if has_name(fs, name) {
        let k = name_index(fs, name);
        assert(gs[k].0 == name);
        assert forall|other: Seq<u8>| #[trigger]
            lookup(gs, other) == if other == name {
                Some(value)
            } else {
                lookup(fs, other)
            } by {
            if other == name {
                assert(has_name(gs, other));
            } else if has_name(fs, other) {
                let j = name_index(fs, other);
                assert(gs[j].0 == other);
                assert(has_name(gs, other));
            } else {
                if has_name(gs, other) {
                    let j = name_index(gs, other);
                    assert(fs[j].0 == other);
                }
            }
        }
    } else {
        let k = fs.len() as int;
        assert(gs[k].0 == name);
        assert forall|other: Seq<u8>| #[trigger]
            lookup(gs, other) == if other == name {
                Some(value)
            } else {
                lookup(fs, other)
            } by {
            if other == name {
                assert(has_name(gs, other));
            } else if has_name(fs, other) {
                let j = name_index(fs, other);
                assert(gs[j].0 == other);
                assert(has_name(gs, other));
            } else {
                if has_name(gs, other) {
                    let j = name_index(gs, other);
                    assert(fs[j].0 == other);
                }
            }
        }
    }
}

/// A set of header fields, each name present at most once, kept in the order in which
/// names were first set.
pub struct Headers {
    fields: Vec<(Vec<u8>, Vec<u8>)>,
}

impl View for Headers {
    type V = Seq<Field>;

    closed spec fn view(&self) -> Seq<Field> {
        Seq::new(self.fields@.len(), |i: int| (self.fields@[i].0@, self.fields@[i].1@))
    }
}

impl Headers {
    /// The invariant: names are unique.
    pub open spec fn wf(&self) -> bool {
        names_unique(self@)
    }

    /// No fields.
    pub fn new() -> (r: Headers)
        ensures
            r@ == Seq::<Field>::empty(),
            r.wf(),
    {
        let r = Headers { fields: Vec::new() };
        assert(r@ =~= Seq::<Field>::empty());
        r
    }

    /// The number of fields.
    pub fn len(&self) -> (r: usize)
        ensures
            r == self@.len(),
    {
        self.fields.len()
    }

    /// The name and value of the field at index `i`.
    pub fn field(&self, i: usize) -> (r: (&Vec<u8>, &Vec<u8>))
        requires
            i < self@.len(),
        ensures
            (r.0@, r.1@) == self@[i as int],
    {
        (&self.fields[i].0, &self.fields[i].1)
    }

    /// The index of the field named `name`, if there is one.
    fn position(&self, name: &[u8]) -> (r: Option<usize>)
        requires
            self.wf(),
        ensures
            match r {
                Some(i) => i < self@.len() && has_name(self@, name@) && name_index(self@, name@)
                    == i,
                None => !has_name(self@, name@),
            },
    {
        let mut i: usize = 0;
        while i < self.fields.len()
            invariant
                self.wf(),
                i <= self@.len(),
                self@.len() == self.fields@.len(),
                forall|j: int| 0 <= j < i ==> self@[j].0 != name@,
            decreases self.fields.len() - i,
        {
            if bytes_eq(self.fields[i].0.as_slice(), name) {
                assert(self@[i as int].0 == name@);
                assert(has_name(self@, name@));
                let ghost k = name_index(self@, name@);
                assert(self@[k].0 == name@);
                assert(k == i as int) by {
                    if k != i as int {
                        assert(self@[k].0 != self@[i as int].0);
                    }
                }
                return Some(i);
            }
            i += 1;
        }
        None
    }

    /// The value of the field named `name`, if there is one.
    pub fn get(&self, name: &[u8]) -> (r: Option<&Vec<u8>>)
        requires
            self.wf(),
        ensures
            match r {
                Some(v) => lookup(self@, name@) == Some(v@),
                None => lookup(self@, name@) == None::<Seq<u8>>,
            },
    {
        match self.position(name) {
            Some(i) => Some(&self.fields[i].1),
            None => None,
        }
    }

    /// Sets the field named `name` to `value`, replacing any earlier value.
    pub fn set(&mut self, name: Vec<u8>, value: Vec<u8>)
        requires
            old(self).wf(),
        ensures
            final(self).wf(),
            final(self)@ == set_field(old(self)@, name@, value@),
    {
        proof {
            lemma_set_field(self@, name@, value@);
        }
        match self.position(name.as_slice()) {
            Some(i) => {
                self.fields.set(i, (name, value));
            },
            None => {
                self.fields.push((name, value));
            },
        }
        assert(self@ =~= set_field(old(self)@, name@, value@));
    }
}

} // verus!

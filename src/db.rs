//! The database shell: a registry of columns by name.
use crate::basic::PropTag;
use vstd::prelude::*;

verus! {

/// Columns of type `C`, each under a distinct name.
pub struct Database<C> {
    names: Vec<PropTag>,
    props: Vec<C>,
}

impl<C> Database<C> {
    /// The names, in order of creation.
    pub closed spec fn names(&self) -> Seq<Seq<u8>> {
        self.names@.map_values(|t: PropTag| t@)
    }

    /// The columns, in the order of their names.
    pub closed spec fn props(&self) -> Seq<C> {
        self.props@
    }

    /// One column per name, and no name twice.
    pub open spec fn wf(&self) -> bool {
        &&& self.names().len() == self.props().len()
        &&& self.names().no_duplicates()
    }

    /// An empty registry.
    pub fn new() -> (r: Self)
        ensures
            r.wf(),
            r.names() == Seq::<Seq<u8>>::empty(),
            r.props() == Seq::<C>::empty(),
    {
        let r = Database { names: Vec::new(), props: Vec::new() };
        assert(r.names() =~= Seq::<Seq<u8>>::empty());
        r
    }

    /// Number of columns.
    pub fn prop_count(&self) -> (r: usize)
        requires
            self.wf(),
        ensures
            r == self.props().len(),
    {
        self.props.len()
    }

    /// The position of the column named `name`, if there is one.
    pub fn find(&self, name: &PropTag) -> (r: Option<usize>)
        requires
            self.wf(),
        ensures
            match r {
                Some(i) => i < self.names().len() && self.names()[i as int] == name@,
                None => !self.names().contains(name@),
            },
    {
        let mut i: usize = 0;
        while i < self.names.len()
            invariant
                self.wf(),
                i <= self.names@.len(),
                forall|j: int| 0 <= j < i ==> self.names()[j] != name@,
            decreases self.names@.len() - i,
        {
            if self.names[i].same(name) {
                return Some(i);
            }
            i = i + 1;
        }
        None
    }

    /// The column named `name`, if there is one.
    pub fn get_prop(&self, name: &PropTag) -> (r: Option<&C>)
        requires
            self.wf(),
        ensures
            match r {
                Some(c) => exists|i: int|
                    0 <= i < self.names().len() && self.names()[i] == name@ && *c
                        == self.props()[i],
                None => !self.names().contains(name@),
            },
    {
        match self.find(name) {
            Some(i) => Some(&self.props[i]),
            None => None,
        }
    }

    /// Registers `prop` under `name` and returns its position. When `name`
    /// is taken, the registry stays as it is and the position of the
    /// existing column is returned.
    pub fn create_prop(&mut self, name: PropTag, prop: C) -> (r: usize)
        requires
            old(self).wf(),
        ensures
            final(self).wf(),
            r < final(self).props().len(),
            final(self).names()[r as int] == name@,
            old(self).names().contains(name@) ==> {
                &&& final(self).names() == old(self).names()
                &&& final(self).props() == old(self).props()
            },
            !old(self).names().contains(name@) ==> {
                &&& r == old(self).names().len()
                &&& final(self).names() == old(self).names().push(name@)
                &&& final(self).props() == old(self).props().push(prop)
            },
    {
        match self.find(&name) {
            Some(i) => i,
            None => {
                let r = self.names.len();
                self.names.push(name);
                self.props.push(prop);
                proof {
                    assert(self.names() =~= old(self).names().push(name@));
                }
                r
            },
        }
    }
}

} // verus!

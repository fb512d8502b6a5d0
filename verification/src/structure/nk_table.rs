//! Index tables by material name.
use crate::scalar::Scalar;
use crate::structure::copy_nk;
use crate::text::same_text;
use vstd::prelude::*;

verus! {

/// Complex index rows, each under its material's name.
#[derive(Debug)]
pub struct NkTable {
    names: Vec<String>,
    rows: Vec<Vec<(Scalar, Scalar)>>,
}

impl View for NkTable {
    type V = Map<Seq<char>, Seq<(Scalar, Scalar)>>;

    closed spec fn view(&self) -> Map<Seq<char>, Seq<(Scalar, Scalar)>> {
        Map::new(
            |name: Seq<char>| exists|i: int| self.entry(name, i),
            |name: Seq<char>| self.rows@[choose|i: int| self.entry(name, i)]@,
        )
    }
}

impl NkTable {
    spec fn entry(&self, name: Seq<char>, i: int) -> bool {
        0 <= i < self.names@.len() && self.names@[i]@ == name
    }

    /// No name occurs twice.
    pub closed spec fn wf(&self) -> bool {
        &&& self.names@.len() == self.rows@.len()
        &&& forall|i: int, j: int|
            0 <= i < self.names@.len() && 0 <= j < self.names@.len() && (#[trigger] self.names@[i])@
                == (#[trigger] self.names@[j])@ ==> i == j
    }

    pub fn new() -> (r: NkTable)
        ensures
            r.wf(),
            r@ == Map::<Seq<char>, Seq<(Scalar, Scalar)>>::empty(),
    {
        let r: NkTable = NkTable { names: Vec::new(), rows: Vec::new() };
        assert(r@ =~= Map::<Seq<char>, Seq<(Scalar, Scalar)>>::empty());
        r
    }

    proof fn at_index(&self, i: int)
        requires
            self.wf(),
            0 <= i < self.names@.len(),
        ensures
            self@.contains_key(self.names@[i]@),
            self@[self.names@[i]@] == self.rows@[i]@,
    {
        let name = self.names@[i]@;
        assert(self.entry(name, i));
        let j = choose|j: int| self.entry(name, j);
        assert(self.entry(name, j));
    }

    fn position(&self, name: &str) -> (r: Option<usize>)
        requires
            self.wf(),
        ensures
            match r {
                Some(i) => i < self.names@.len() && self.names@[i as int]@ == name@,
                None => !self@.contains_key(name@),
            },
    {
        let mut i: usize = 0;
        while i < self.names.len()
            invariant
                i <= self.names.len(),
                forall|j: int| 0 <= j < i ==> (#[trigger] self.names@[j])@ != name@,
            decreases self.names.len() - i,
        {
            if same_text(self.names[i].as_str(), name) {
                return Some(i);
            }
            i += 1;
        }
        None
    }

    /// The row under `name`.
    pub fn get(&self, name: &str) -> (r: Option<&Vec<(Scalar, Scalar)>>)
        requires
            self.wf(),
        ensures
            match r {
                Some(row) => self@.contains_key(name@) && row@ == self@[name@],
                None => !self@.contains_key(name@),
            },
    {
        match self.position(name) {
            Some(i) => {
                proof {
                    self.at_index(i as int);
                }
                Some(&self.rows[i])
            },
            None => None,
        }
    }

    /// Puts a row under `name`, replacing the one that was there.
    pub fn insert(&mut self, name: &str, row: Vec<(Scalar, Scalar)>)
        requires
            old(self).wf(),
        ensures
            final(self).wf(),
            final(self)@ == old(self)@.insert(name@, row@),
    {
        let ghost before = *self;
        let ghost mut at: int = 0;
        match self.position(name) {
            Some(i) => {
                self.rows.set(i, row);
                proof {
                    at = i as int;
                }
            },
            None => {
                self.names.push(name.to_owned());
                self.rows.push(row);
                proof {
                    at = before.names@.len() as int;
                    assert forall|k: int| 0 <= k < before.names@.len() implies (
                    #[trigger] before.names@[k])@ != name@ by {
                        before.at_index(k);
                    }
                }
            },
        }
        proof {
            let after = before@.insert(name@, row@);
            assert forall|k: Seq<char>| self@.contains_key(k) <==> after.contains_key(k) by {
                if after.contains_key(k) {
                    if k == name@ {
                        self.at_index(at);
                    } else {
                        let i = choose|i: int| before.entry(k, i);
                        self.at_index(i);
                    }
                }
                if self@.contains_key(k) {
                    let i = choose|i: int| self.entry(k, i);
                    if k != name@ {
                        before.at_index(i);
                    }
                }
            }
            assert forall|k: Seq<char>| self@.contains_key(k) implies #[trigger] self@[k]
                == after[k] by {
                let i = choose|i: int| self.entry(k, i);
                self.at_index(i);
                if k != name@ {
                    before.at_index(i);
                }
            }
            assert(self@ =~= after);
        }
    }

    /// An independent copy.
    pub fn cloned(&self) -> (r: NkTable)
        requires
            self.wf(),
        ensures
            r.wf(),
            r@ == self@,
    {
        let mut r: NkTable = NkTable { names: Vec::new(), rows: Vec::new() };
        let mut i: usize = 0;
        while i < self.names.len()
            invariant
                self.wf(),
                i <= self.names.len(),
                r.names@ == self.names@.take(i as int),
                r.rows@.len() == i,
                forall|j: int| 0 <= j < i ==> (#[trigger] r.rows@[j])@ == self.rows@[j]@,
            decreases self.names.len() - i,
        {
            r.names.push(self.names[i].clone());
            r.rows.push(copy_nk(&self.rows[i]));
            i += 1;
            assert(self.names@.take(i as int) =~= self.names@.take(i - 1).push(
                self.names@[i - 1],
            ));
        }
        assert(self.names@.take(i as int) =~= self.names@);
        proof {
            assert forall|k: Seq<char>| r@.contains_key(k) <==> self@.contains_key(k) by {
                if self@.contains_key(k) {
                    let i = choose|i: int| self.entry(k, i);
                    r.at_index(i);
                }
                if r@.contains_key(k) {
                    let i = choose|i: int| r.entry(k, i);
                    self.at_index(i);
                }
            }
            assert forall|k: Seq<char>| r@.contains_key(k) implies #[trigger] r@[k] == self@[k] by {
                let i = choose|i: int| r.entry(k, i);
                r.at_index(i);
                self.at_index(i);
            }
            assert(r@ =~= self@);
        }
        r
    }
}

} // verus!

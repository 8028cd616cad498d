use vstd::prelude::*;

use crate::address::Address;

verus! {

/// One owner's list of token ids.
pub struct OwnerEntry {
    owner: Address,
    tokens: Vec<u32>,
}

/// For each owner, the list of token ids recorded for it, in the order
/// they were added.
pub struct OwnerIndex {
    entries: Vec<OwnerEntry>,
    contents: Ghost<Map<Seq<u8>, Seq<u32>>>,
}

/// A copy of a list of token ids.
pub fn copy_ids(v: &Vec<u32>) -> (r: Vec<u32>)
    ensures
        r@ == v@,
{
    let mut out: Vec<u32> = Vec::new();
    let n: usize = v.len();
    let mut i: usize = 0;
    while i < n
        invariant
            n == v.len(),
            i <= n,
            out@ =~= v@.take(i as int),
        decreases n - i,
    {
        out.push(v[i]);
        i = i + 1;
    }
    assert(v@.take(n as int) =~= v@);
    out
}

/// The list that `m` records for `a`, empty where it records none.
pub open spec fn list_in(m: Map<Seq<u8>, Seq<u32>>, a: Seq<u8>) -> Seq<u32> {
    if m.contains_key(a) {
        m[a]
    } else {
        Seq::empty()
    }
}

impl View for OwnerIndex {
    type V = Map<Seq<u8>, Seq<u32>>;

    closed spec fn view(&self) -> Map<Seq<u8>, Seq<u32>> {
        self.contents@
    }
}

impl OwnerIndex {
    /// The index's internal consistency.
    pub closed spec fn wf(&self) -> bool {
        &&& forall|a: Seq<u8>|
            #[trigger] self.contents@.contains_key(a) <==> exists|i: int|
                0 <= i < self.entries@.len() && self.entries@[i].owner@ == a
        &&& forall|i: int|
            0 <= i < self.entries@.len() ==> self.contents@[#[trigger] self.entries@[i].owner@]
                == self.entries@[i].tokens@
        &&& forall|i: int, j: int|
            0 <= i < j < self.entries@.len() ==> #[trigger] self.entries@[i].owner@
                != #[trigger] self.entries@[j].owner@
    }

    /// An index that records nothing.
    pub fn new() -> (r: OwnerIndex)
        ensures
            r.wf(),
            r@ == Map::<Seq<u8>, Seq<u32>>::empty(),
    {
        OwnerIndex { entries: Vec::new(), contents: Ghost(Map::empty()) }
    }

    fn find(&self, a: &Address) -> (r: Option<usize>)
        requires
            self.wf(),
        ensures
            match r {
                Some(i) => i < self.entries@.len() && self.entries@[i as int].owner@ == a@,
                None => !self@.contains_key(a@),
            },
    {
        let n: usize = self.entries.len();
        let mut i: usize = 0;
        while i < n
            invariant
                n == self.entries.len(),
                i <= n,
                forall|j: int| 0 <= j < i ==> self.entries@[j].owner@ != a@,
            decreases n - i,
        {
            if self.entries[i].owner.same(a) {
                return Some(i);
            }
            i = i + 1;
        }
        None
    }

    /// A copy of the list recorded for `a` (empty where none is).
    pub fn get(&self, a: &Address) -> (r: Vec<u32>)
        requires
            self.wf(),
        ensures
            r@ == list_in(self@, a@),
    {
        match self.find(a) {
            Some(i) => copy_ids(&self.entries[i].tokens),
            None => Vec::new(),
        }
    }

    /// Records `tokens` as the list of `a`.
    pub fn set(&mut self, a: &Address, tokens: Vec<u32>)
        requires
            old(self).wf(),
        ensures
            final(self).wf(),
            final(self)@ == old(self)@.insert(a@, tokens@),
    {
        let ghost new_contents = self.contents@.insert(a@, tokens@);
        let entry = OwnerEntry { owner: a.copy(), tokens };
        let pos: usize = match self.find(a) {
            Some(i) => {
                self.entries.set(i, entry);
                i
            },
            None => {
                self.entries.push(entry);
                (self.entries.len() - 1) as usize
            },
        };
        self.contents = Ghost(new_contents);
        assert(self.entries@[pos as int].owner@ == a@);
        assert forall|i: int| 0 <= i < self.entries@.len() && i != pos implies
            self.entries@[i] == old(self).entries@[i] && self.entries@[i].owner@ != a@ by {
            if old(self)@.contains_key(a@) {
                assert(old(self).entries@[pos as int].owner@ == a@);
            }
        }
        assert forall|b: Seq<u8>| #[trigger] self.contents@.contains_key(b) implies exists|i: int|
            0 <= i < self.entries@.len() && self.entries@[i].owner@ == b by {
            if b != a@ {
                let j: int = choose|j: int| 0 <= j < old(self).entries@.len() && old(self).entries@[j].owner@ == b;
                assert(self.entries@[j].owner@ == b);
            }
        }
        assert forall|b: Seq<u8>| (exists|i: int|
            0 <= i < self.entries@.len() && self.entries@[i].owner@ == b) implies
            #[trigger] self.contents@.contains_key(b) by {
            let j: int = choose|j: int| 0 <= j < self.entries@.len() && self.entries@[j].owner@ == b;
            if b != a@ {
                assert(old(self).entries@[j].owner@ == b);
            }
        }
        assert forall|i: int, j: int| 0 <= i < j < self.entries@.len() implies #[trigger] self.entries@[i].owner@
                != #[trigger] self.entries@[j].owner@ by {
            if i != pos && j != pos {
                assert(old(self).entries@[i].owner@ != old(self).entries@[j].owner@);
            }
        }
    }
}

/// Whether `operator` may act for `owner`, as last recorded.
pub struct OperatorEntry {
    owner: Address,
    operator: Address,
    approved: bool,
}

/// The operator approvals recorded for pairs (owner, operator).
pub struct OperatorTable {
    entries: Vec<OperatorEntry>,
    contents: Ghost<Map<(Seq<u8>, Seq<u8>), bool>>,
}

impl View for OperatorTable {
    type V = Map<(Seq<u8>, Seq<u8>), bool>;

    closed spec fn view(&self) -> Map<(Seq<u8>, Seq<u8>), bool> {
        self.contents@
    }
}

impl OperatorTable {
    /// The table's internal consistency.
    pub closed spec fn wf(&self) -> bool {
        &&& forall|k: (Seq<u8>, Seq<u8>)|
            #[trigger] self.contents@.contains_key(k) <==> exists|i: int|
                0 <= i < self.entries@.len() && self.entries@[i].owner@ == k.0
                    && self.entries@[i].operator@ == k.1
        &&& forall|i: int|
            0 <= i < self.entries@.len() ==> self.contents@[(
                #[trigger] self.entries@[i].owner@,
                self.entries@[i].operator@,
            )] == self.entries@[i].approved
        &&& forall|i: int, j: int|
            0 <= i < j < self.entries@.len() ==> !(#[trigger] self.entries@[i].owner@
                == #[trigger] self.entries@[j].owner@ && self.entries@[i].operator@
                == self.entries@[j].operator@)
    }

    /// A table that records nothing.
    pub fn new() -> (r: OperatorTable)
        ensures
            r.wf(),
            r@ == Map::<(Seq<u8>, Seq<u8>), bool>::empty(),
    {
        OperatorTable { entries: Vec::new(), contents: Ghost(Map::empty()) }
    }

    fn find(&self, owner: &Address, operator: &Address) -> (r: Option<usize>)
        requires
            self.wf(),
        ensures
            match r {
                Some(i) => i < self.entries@.len() && self.entries@[i as int].owner@ == owner@
                    && self.entries@[i as int].operator@ == operator@,
                None => !self@.contains_key((owner@, operator@)),
            },
    {
        let n: usize = self.entries.len();
        let mut i: usize = 0;
        while i < n
            invariant
                n == self.entries.len(),
                i <= n,
                forall|j: int|
                    0 <= j < i ==> !(self.entries@[j].owner@ == owner@ && self.entries@[j].operator@
                        == operator@),
            decreases n - i,
        {
            if self.entries[i].owner.same(owner) && self.entries[i].operator.same(operator) {
                return Some(i);
            }
            i = i + 1;
        }
        None
    }

    /// The value recorded for the pair, if any.
    pub fn get(&self, owner: &Address, operator: &Address) -> (r: Option<bool>)
        requires
            self.wf(),
        ensures
            r == (if self@.contains_key((owner@, operator@)) {
                Some(self@[(owner@, operator@)])
            } else {
                None
            }),
    {
        match self.find(owner, operator) {
            Some(i) => Some(self.entries[i].approved),
            None => None,
        }
    }

    /// Records `approved` for the pair.
    pub fn set(&mut self, owner: &Address, operator: &Address, approved: bool)
        requires
            old(self).wf(),
        ensures
            final(self).wf(),
            final(self)@ == old(self)@.insert((owner@, operator@), approved),
    {
        let ghost key = (owner@, operator@);
        let ghost new_contents = self.contents@.insert(key, approved);
        let entry = OperatorEntry { owner: owner.copy(), operator: operator.copy(), approved };
        let pos: usize = match self.find(owner, operator) {
            Some(i) => {
                self.entries.set(i, entry);
                i
            },
            None => {
                self.entries.push(entry);
                (self.entries.len() - 1) as usize
            },
        };
        self.contents = Ghost(new_contents);
        assert(self.entries@[pos as int].owner@ == key.0 && self.entries@[pos as int].operator@ == key.1);
        assert forall|i: int| 0 <= i < self.entries@.len() && i != pos implies
            self.entries@[i] == old(self).entries@[i] && !(self.entries@[i].owner@ == key.0
                && self.entries@[i].operator@ == key.1) by {
            if old(self)@.contains_key(key) {
                assert(old(self).entries@[pos as int].owner@ == key.0);
            }
        }
        assert forall|b: (Seq<u8>, Seq<u8>)| #[trigger] self.contents@.contains_key(b) implies exists|i: int|
            0 <= i < self.entries@.len() && self.entries@[i].owner@ == b.0
                && self.entries@[i].operator@ == b.1 by {
            if b != key {
                let j: int = choose|j: int|
                    0 <= j < old(self).entries@.len() && old(self).entries@[j].owner@ == b.0
                        && old(self).entries@[j].operator@ == b.1;
                assert(self.entries@[j].owner@ == b.0);
            }
        }
        assert forall|b: (Seq<u8>, Seq<u8>)| (exists|i: int|
            0 <= i < self.entries@.len() && self.entries@[i].owner@ == b.0
                && self.entries@[i].operator@ == b.1) implies #[trigger] self.contents@.contains_key(b) by {
            let j: int = choose|j: int|
                0 <= j < self.entries@.len() && self.entries@[j].owner@ == b.0
                    && self.entries@[j].operator@ == b.1;
            if b != key {
                assert(old(self).entries@[j].owner@ == b.0);
            }
        }
        assert forall|i: int| 0 <= i < self.entries@.len() implies self.contents@[(
                #[trigger] self.entries@[i].owner@,
                self.entries@[i].operator@,
            )] == self.entries@[i].approved by {
            if i != pos {
                assert(old(self).contents@[(old(self).entries@[i].owner@, old(self).entries@[i].operator@)]
                    == old(self).entries@[i].approved);
            }
        }
        assert forall|i: int, j: int| 0 <= i < j < self.entries@.len() implies !(#[trigger] self.entries@[i].owner@
                == #[trigger] self.entries@[j].owner@ && self.entries@[i].operator@
                == self.entries@[j].operator@) by {
            if i != pos && j != pos {
                assert(!(old(self).entries@[i].owner@ == old(self).entries@[j].owner@
                    && old(self).entries@[i].operator@ == old(self).entries@[j].operator@));
            }
        }
    }
}

/// A set of addresses.
pub struct AddressSet {
    members: Vec<Address>,
}

impl View for AddressSet {
    type V = Set<Seq<u8>>;

    closed spec fn view(&self) -> Set<Seq<u8>> {
        Set::new(|a: Seq<u8>| exists|i: int| 0 <= i < self.members@.len() && self.members@[i]@ == a)
    }
}

impl AddressSet {
    /// The set holds no address twice.
    pub closed spec fn wf(&self) -> bool {
        forall|i: int, j: int|
            0 <= i < j < self.members@.len() ==> #[trigger] self.members@[i]@
                != #[trigger] self.members@[j]@
    }

    /// The empty set.
    pub fn new() -> (r: AddressSet)
        ensures
            r.wf(),
            r@ == Set::<Seq<u8>>::empty(),
    {
        let r = AddressSet { members: Vec::new() };
        assert(r@ =~= Set::<Seq<u8>>::empty());
        r
    }

    fn find(&self, a: &Address) -> (r: Option<usize>)
        ensures
            match r {
                Some(i) => i < self.members@.len() && self.members@[i as int]@ == a@,
                None => !self@.contains(a@),
            },
    {
        let n: usize = self.members.len();
        let mut i: usize = 0;
        while i < n
            invariant
                n == self.members.len(),
                i <= n,
                forall|j: int| 0 <= j < i ==> self.members@[j]@ != a@,
            decreases n - i,
        {
            if self.members[i].same(a) {
                return Some(i);
            }
            i = i + 1;
        }
        None
    }

    /// Whether `a` is in the set.
    pub fn contains(&self, a: &Address) -> (r: bool)
        ensures
            r == self@.contains(a@),
    {
        match self.find(a) {
            Some(_) => true,
            None => false,
        }
    }

    /// Adds `a` to the set.
    pub fn insert(&mut self, a: &Address)
        requires
            old(self).wf(),
        ensures
            final(self).wf(),
            final(self)@ == old(self)@.insert(a@),
    {
        match self.find(a) {
            Some(_) => {
                assert(self@ =~= old(self)@.insert(a@));
            },
            None => {
                self.members.push(a.copy());
                assert forall|b: Seq<u8>| #[trigger] self@.contains(b) <==> old(self)@.insert(a@).contains(b) by {
                    if b != a@ && self@.contains(b) {
                        let j: int = choose|j: int| 0 <= j < self.members@.len() && self.members@[j]@ == b;
                        assert(old(self).members@[j]@ == b);
                    }
                    if old(self)@.contains(b) {
                        let j: int = choose|j: int| 0 <= j < old(self).members@.len() && old(self).members@[j]@ == b;
                        assert(self.members@[j]@ == b);
                    }
                    if b == a@ {
                        assert(self.members@[self.members@.len() - 1]@ == b);
                    }
                }
                assert(self@ =~= old(self)@.insert(a@));
            },
        }
    }

    /// Takes `a` out of the set.
    pub fn remove(&mut self, a: &Address)
        requires
            old(self).wf(),
        ensures
            final(self).wf(),
            final(self)@ == old(self)@.remove(a@),
    {
        match self.find(a) {
            Some(i) => {
                let ghost before = self.members@;
                self.members.remove(i);
                assert(self.members@ =~= before.subrange(0, i as int) + before.subrange(i + 1, before.len() as int));
                assert forall|b: Seq<u8>| #[trigger] self@.contains(b) <==> old(self)@.remove(a@).contains(b) by {
                    if self@.contains(b) {
                        let j: int = choose|j: int| 0 <= j < self.members@.len() && self.members@[j]@ == b;
                        if j < i {
                            assert(before[j]@ == b);
                        } else {
                            assert(before[j + 1]@ == b);
                        }
                    }
                    if old(self)@.remove(a@).contains(b) {
                        let j: int = choose|j: int| 0 <= j < before.len() && before[j]@ == b;
                        if j < i {
                            assert(self.members@[j]@ == b);
                        } else {
                            assert(j != i);
                            assert(self.members@[j - 1]@ == b);
                        }
                    }
                }
                assert(self@ =~= old(self)@.remove(a@));
            },
            None => {
                assert(self@ =~= old(self)@.remove(a@));
            },
        }
    }
}

} // verus!

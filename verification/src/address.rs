use vstd::prelude::*;

verus! {

/// An account address, held as the bytes of its textual (strkey) form.
#[derive(Debug, Clone, PartialEq, Eq)]
pub struct Address {
    bytes: Vec<u8>,
}

impl View for Address {
    type V = Seq<u8>;

    closed spec fn view(&self) -> Seq<u8> {
        self.bytes@
    }
}

impl Address {
    /// The address whose textual form is `bytes`.
    pub fn from_bytes(bytes: Vec<u8>) -> (a: Address)
        ensures
            a@ == bytes@,
    {
        Address { bytes }
    }

    /// The bytes of the address's textual form.
    pub fn to_bytes(&self) -> (r: Vec<u8>)
        ensures
            r@ == self@,
    {
        self.copy().bytes
    }

    /// Whether two addresses are the same account.
    pub fn same(&self, other: &Address) -> (r: bool)
        ensures
            r == (self@ == other@),
    {
        let n: usize = self.bytes.len();
        if n != other.bytes.len() {
            return false;
        }
        let mut i: usize = 0;
        while i < n
            invariant
                n == self.bytes.len(),
                n == other.bytes.len(),
                i <= n,
                forall|j: int| 0 <= j < i ==> self.bytes@[j] == other.bytes@[j],
            decreases n - i,
        {
            if self.bytes[i] != other.bytes[i] {
                return false;
            }
            i = i + 1;
        }
        assert(self.bytes@ =~= other.bytes@);
        true
    }

    /// A second value for the same address.
    pub fn copy(&self) -> (r: Address)
        ensures
            r@ == self@,
    {
        let mut out: Vec<u8> = Vec::new();
        let n: usize = self.bytes.len();
        let mut i: usize = 0;
        while i < n
            invariant
                n == self.bytes.len(),
                i <= n,
                out@ =~= self.bytes@.take(i as int),
            decreases n - i,
        {
            out.push(self.bytes[i]);
            i = i + 1;
        }
        assert(self.bytes@.take(n as int) =~= self.bytes@);
        Address { bytes: out }
    }
}

} // verus!

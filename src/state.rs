use vstd::prelude::*;

verus! {

/// The number of bytes of a `State`.
pub const STATE_LEN: usize = 32;

/// A 32-byte fingerprint of a contract's whole page set.
#[derive(Debug, Clone, Copy, PartialEq, Eq)]
pub struct State(pub [u8; 32]);

/// Thirty-two zero bytes.
pub open spec fn zeros_spec() -> Seq<u8> {
    Seq::new(32, |_i: int| 0u8)
}

/// The bytes of `b`, cut or padded with zeros to 32.
pub open spec fn padded_spec(b: Seq<u8>) -> Seq<u8> {
    Seq::new(32, |i: int| if i < b.len() { b[i] } else { 0u8 })
}

impl View for State {
    type V = Seq<u8>;

    open spec fn view(&self) -> Seq<u8> {
        self.0@
    }
}

impl State {
    /// The genesis value: no page was ever written.
    pub fn zeros() -> (r: State)
        ensures
            r@ == zeros_spec(),
    {
        let r = State([0u8; 32]);
        assert(r@ =~= zeros_spec());
        r
    }

    /// Whether all 32 bytes are zero.
    pub fn is_zeros(&self) -> (r: bool)
        ensures
            r == (self@ == zeros_spec()),
    {
        let mut i: usize = 0;
        while i < STATE_LEN
            invariant
                0 <= i <= 32,
                forall|j: int| 0 <= j < i ==> self@[j] == 0u8,
            decreases 32 - i,
        {
            if self.0[i] != 0 {
                assert(self@[i as int] != zeros_spec()[i as int]);
                return false;
            }
            i = i + 1;
        }
        assert(self@ =~= zeros_spec());
        true
    }

    /// The raw bytes.
    pub fn as_bytes(&self) -> (r: Vec<u8>)
        ensures
            r@ == self@,
    {
        let mut r: Vec<u8> = Vec::new();
        let mut i: usize = 0;
        while i < STATE_LEN
            invariant
                0 <= i <= 32,
                r@ == self@.take(i as int),
            decreases 32 - i,
        {
            r.push(self.0[i]);
            assert(r@ =~= self@.take(i + 1));
            i = i + 1;
        }
        assert(self@.take(32) =~= self@);
        r
    }

    /// A `State` of exactly the given bytes, or `None` where there are not 32 of them.
    pub fn from_exact(bytes: &[u8]) -> (r: Option<State>)
        ensures
            bytes@.len() == 32 <==> r is Some,
            r matches Some(s) ==> s@ == bytes@,
    {
        if bytes.len() != STATE_LEN {
            return None;
        }
        let s = State::padded(bytes);
        assert(s@ =~= bytes@);
        Some(s)
    }
}

impl State {
    /// The first 32 bytes of `bytes`; a shorter input is padded with zeros.
    fn padded(bytes: &[u8]) -> (r: State)
        ensures
            r@ == padded_spec(bytes@),
    {
        let mut arr = [0u8; 32];
        let mut i: usize = 0;
        while i < STATE_LEN
            invariant
                0 <= i <= 32,
                forall|j: int| 0 <= j < i ==> arr@[j] == padded_spec(bytes@)[j],
                forall|j: int| i <= j < 32 ==> arr@[j] == 0u8,
            decreases 32 - i,
        {
            if i < bytes.len() {
                arr[i] = bytes[i];
            }
            i = i + 1;
        }
        let r = State(arr);
        assert(r@ =~= padded_spec(bytes@));
        r
    }
}

impl<'a> From<&'a [u8]> for State {
    /// The first 32 bytes of `bytes`; a shorter input is padded with zeros.
    /// `from` cannot fail, so callers that must reject any other length use
    /// `State::from_exact`.
    fn from(bytes: &'a [u8]) -> (r: State) {
        let r = State::padded(bytes);
        proof {
            let c = choose|s: State| s@ == padded_spec(bytes@);
            assert(c.0 =~= r.0);
        }
        r
    }
}

impl<'a> vstd::std_specs::convert::FromSpecImpl<&'a [u8]> for State {
    open spec fn obeys_from_spec() -> bool {
        true
    }

    open spec fn from_spec(bytes: &'a [u8]) -> State {
        choose|s: State| s@ == padded_spec(bytes@)
    }
}

} // verus!

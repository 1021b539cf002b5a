//! The data of an input, as the session sees it.
use bytemuck::PodCastError;
use vstd::prelude::*;
use vstd::std_specs::cmp::PartialEqSpec;

verus! {

/// The data that one player puts into one frame.
///
/// A value is plain data: it is told by a fixed number of bytes, and any bytes of that
/// number are those of a value.
pub trait InputValue: Copy + PartialEq {
    /// How many bytes tell a value.
    spec fn size() -> nat;

    /// The bytes that tell a value.
    spec fn bytes(self) -> Seq<u8>;

    /// The value whose bytes are all zero.
    spec fn zero() -> Self;

    proof fn lemma_bytes_len(self)
        ensures
            self.bytes().len() == Self::size(),
    ;

    proof fn lemma_bytes_tell(self, other: Self)
        requires
            self.bytes() == other.bytes(),
        ensures
            self == other,
    ;

    proof fn lemma_zero_bytes()
        ensures
            Self::zero().bytes() == Seq::new(Self::size(), |i: int| 0u8),
    ;

    proof fn lemma_obeys_eq()
        ensures
            Self::obeys_eq_spec(),
    ;

    fn zeroed() -> (r: Self)
        ensures
            r == Self::zero(),
    ;

    fn to_bytes(&self) -> (r: Vec<u8>)
        ensures
            r@ == self.bytes(),
    ;

    fn from_bytes(bytes: &[u8]) -> (r: Result<Self, PodCastError>)
        ensures
            match r {
                Ok(value) => bytes@.len() == Self::size() && value.bytes() == bytes@,
                Err(_) => bytes@.len() != Self::size(),
            },
    ;
}

/// `bytemuck::bytes_of` of an array of bytes gives the bytes of the array, in order.
#[verifier::external_body]
fn bytes_of<const N: usize>(value: &[u8; N]) -> (r: &[u8])
    ensures
        r@ == value@,
{
    bytemuck::bytes_of(value)
}

/// `bytemuck::try_from_bytes` reads bytes as an array of `N` bytes; it fails only where
/// there are more or fewer than `N`.
#[verifier::external_body]
fn try_from_bytes<const N: usize>(bytes: &[u8]) -> (r: Result<&[u8; N], PodCastError>)
    ensures
        match r {
            Ok(value) => bytes@.len() == N && value@ == bytes@,
            Err(_) => bytes@.len() != N,
        },
{
    bytemuck::try_from_bytes(bytes)
}

/// `bytemuck::Zeroable::zeroed` of an array of bytes gives an array of zeros.
#[verifier::external_body]
fn zeroed_bytes<const N: usize>() -> (r: [u8; N])
    ensures
        r@ == Seq::new(N as nat, |i: int| 0u8),
{
    bytemuck::Zeroable::zeroed()
}

/// An input that is nothing but its bytes.
#[derive(Clone, Copy, Debug)]
pub struct InputBytes<const N: usize>(pub [u8; N]);

impl<const N: usize> PartialEq for InputBytes<N> {
    fn eq(&self, other: &Self) -> (r: bool) {
        let mut i: usize = 0;
        while i < N
            invariant
                i <= N,
                forall|k: int| 0 <= k < i ==> self.0@[k] == other.0@[k],
            decreases N - i,
        {
            if self.0[i] != other.0[i] {
                return false;
            }
            i += 1;
        }
        assert(self.0@ =~= other.0@);
        true
    }
}

impl<const N: usize> vstd::std_specs::cmp::PartialEqSpecImpl for InputBytes<N> {
    open spec fn obeys_eq_spec() -> bool {
        true
    }

    open spec fn eq_spec(&self, other: &Self) -> bool {
        self.0@ == other.0@
    }
}

impl<const N: usize> InputValue for InputBytes<N> {
    open spec fn size() -> nat {
        N as nat
    }

    open spec fn bytes(self) -> Seq<u8> {
        self.0@
    }

    open spec fn zero() -> Self {
        InputBytes(vstd::array::spec_array_fill_for_copy_type::<u8, N>(0u8))
    }

    proof fn lemma_bytes_len(self) {
    }

    proof fn lemma_bytes_tell(self, other: Self) {
        assert(self.0 =~= other.0);
    }

    proof fn lemma_zero_bytes() {
        assert(Self::zero().bytes() =~= Seq::new(Self::size(), |i: int| 0u8));
    }

    proof fn lemma_obeys_eq() {
    }

    fn zeroed() -> Self {
        let r = InputBytes(zeroed_bytes());
        proof {
            Self::lemma_zero_bytes();
            r.lemma_bytes_tell(Self::zero());
        }
        r
    }

    fn to_bytes(&self) -> Vec<u8> {
        vstd::slice::slice_to_vec(bytes_of(&self.0))
    }

    fn from_bytes(bytes: &[u8]) -> Result<Self, PodCastError> {
        match try_from_bytes(bytes) {
            Ok(value) => Ok(InputBytes(*value)),
            Err(err) => Err(err),
        }
    }
}

/// Inputs of bytes are equal if all their bytes are, and only then.
pub proof fn law_inputs_are_equal_by_their_bytes<const N: usize>(
    a: InputBytes<N>,
    b: InputBytes<N>,
)
    ensures
        a.eq_spec(&b) <==> a == b,
        a.eq_spec(&b) <==> (forall|i: int| 0 <= i < N ==> #[trigger] a.0@[i] == b.0@[i]),
        a.bytes() == a.0@,
        InputBytes::<N>::size() == N,
        InputBytes::<N>::zero().bytes() == Seq::new(N as nat, |i: int| 0u8),
{
    InputBytes::<N>::lemma_zero_bytes();
    if a.0@ == b.0@ {
        a.lemma_bytes_tell(b);
    }
    if forall|i: int| 0 <= i < N ==> #[trigger] a.0@[i] == b.0@[i] {
        assert(a.0@ =~= b.0@);
    }
}

} // verus!

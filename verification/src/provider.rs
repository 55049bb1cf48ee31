use vstd::prelude::*;

verus! {

/// Types that have a list of interesting values.
///
/// The list is not every value of the type: it is a short, fixed choice of values
/// that are worth trying, always the same and always in the same order.
pub trait Alles: Sized {
    /// The interesting values of this type, in order.
    spec fn candidates() -> Seq<Self>;

    /// A finite list of the interesting values of this type.
    fn generate() -> (out: Vec<Self>)
        ensures
            out@ == Self::candidates(),
    ;
}

/// The interesting values of `u8`: zero, one, the primes and the maximum.
pub open spec fn u8_candidates() -> Seq<u8> {
    seq![
        0u8, 1, 2, 3, 5, 7, 11, 13, 17, 19, 23, 29, 31, 37, 41, 43, 47, 53, 59, 61, 67, 71, 73,
        79, 83, 89, 97, 101, 103, 107, 109, 113, 127, 131, 137, 139, 149, 151, 157, 163, 167,
        173, 179, 181, 191, 193, 197, 199, 211, 223, 227, 229, 233, 239, 241, 251, 255,
    ]
}

/// The interesting values of `i8`: zero, then minus one, the negated primes and
/// -127, then one, the primes and the maximum.
pub open spec fn i8_candidates() -> Seq<i8> {
    seq![
        0i8, (-1) as i8, (-2) as i8, (-3) as i8, (-5) as i8, (-7) as i8, (-11) as i8,
        (-13) as i8, (-17) as i8, (-19) as i8, (-23) as i8, (-29) as i8, (-31) as i8,
        (-37) as i8, (-41) as i8, (-43) as i8, (-47) as i8, (-53) as i8, (-59) as i8,
        (-61) as i8, (-67) as i8, (-71) as i8, (-73) as i8, (-79) as i8, (-83) as i8,
        (-89) as i8, (-97) as i8, (-101) as i8, (-103) as i8, (-107) as i8, (-109) as i8,
        (-113) as i8, (-127) as i8, 1, 2, 3, 5, 7, 11, 13, 17, 19, 23, 29, 31, 37, 41, 43, 47,
        53, 59, 61, 67, 71, 73, 79, 83, 89, 97, 101, 103, 107, 109, 113, 127,
    ]
}

impl Alles for u8 {
    open spec fn candidates() -> Seq<u8> {
        u8_candidates()
    }

    fn generate() -> (out: Vec<u8>) {
        let out: Vec<u8> = vec![
            0, 1, 2, 3, 5, 7, 11, 13, 17, 19, 23, 29, 31, 37, 41, 43, 47, 53, 59, 61, 67, 71, 73,
            79, 83, 89, 97, 101, 103, 107, 109, 113, 127, 131, 137, 139, 149, 151, 157, 163, 167,
            173, 179, 181, 191, 193, 197, 199, 211, 223, 227, 229, 233, 239, 241, 251, 255,
        ];
        assert(out@ =~= u8_candidates());
        out
    }
}

impl Alles for i8 {
    open spec fn candidates() -> Seq<i8> {
        i8_candidates()
    }

    fn generate() -> (out: Vec<i8>) {
        let out: Vec<i8> = vec![
            0, -1, -2, -3, -5, -7, -11, -13, -17, -19, -23, -29, -31, -37, -41, -43, -47, -53, -59,
            -61, -67, -71, -73, -79, -83, -89, -97, -101, -103, -107, -109, -113, -127, 1, 2, 3, 5,
            7, 11, 13, 17, 19, 23, 29, 31, 37, 41, 43, 47, 53, 59, 61, 67, 71, 73, 79, 83, 89, 97,
            101, 103, 107, 109, 113, 127,
        ];
        assert(out@ =~= i8_candidates());
        out
    }
}

/// `None`, followed by every value of `inner` as a `Some`.
pub open spec fn optional_candidates<A>(inner: Seq<A>) -> Seq<Option<A>> {
    seq![None::<A>] + inner.map_values(|a: A| Some(a))
}

impl<A: Alles> Alles for Option<A> {
    open spec fn candidates() -> Seq<Option<A>> {
        optional_candidates(A::candidates())
    }

    fn generate() -> (out: Vec<Option<A>>) {
        let inner = A::generate();
        let ghost all = inner@;
        let mut out: Vec<Option<A>> = Vec::new();
        out.push(None);
        for item in it: inner
            invariant
                it.seq() == all,
                out@ == optional_candidates(all.take(it.index() as int)),
        {
            out.push(Some(item));
            assert(out@ =~= optional_candidates(all.take(it.index() + 1)));
        }
        assert(all.take(all.len() as int) =~= all);
        out
    }
}

} // verus!

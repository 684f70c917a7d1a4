//! Window function `difference`: each value minus the previous value that
//! is present, over one column of optional 64-bit integers, signed or
//! unsigned.
//!
//! A column without gaps is handed to arrow's vectorised kernels; a column
//! with gaps is walked value by value. Both give `differences`. An
//! unsigned column is computed as the signed column with the same bits:
//! wrapping differences do not depend on how the bits are read.

use arrow::array::{AsArray, Int64Array};
use arrow::datatypes::Int64Type;
use arrow::error::ArrowError;
use vstd::prelude::*;
use vstd::wrapping::i64_specs::{wrapping_add, wrapping_sub};
use vstd::wrapping::u64_specs::wrapping_add as wrapping_add_unsigned;
use vstd::wrapping::u64_specs::wrapping_sub as wrapping_sub_unsigned;

verus! {

/// arrow's error type, carried through opaquely.
#[verifier::external_type_specification]
#[verifier::external_body]
pub struct ExArrowError(ArrowError);

/// Why a difference could not be computed.
#[derive(Clone, Copy, Debug, PartialEq, Eq, Structural)]
pub enum WindowError {
    /// An arrow compute kernel reported an error. The kernels' signatures
    /// allow for one; on the columns that the library hands them they
    /// report none.
    Kernel,
}

/// The last value present in `s` strictly before index `i`, if any.
pub open spec fn last_present_before<T>(s: Seq<Option<T>>, i: int) -> Option<T>
    decreases i,
{
    if i <= 0 {
        None
    } else if s[i - 1] is Some {
        s[i - 1]
    } else {
        last_present_before(s, i - 1)
    }
}

/// The difference at index `i`: absent where the value is absent or nothing
/// is present before it, else the value minus the last present one, wrapping.
pub open spec fn difference_at(s: Seq<Option<i64>>, i: int) -> Option<i64> {
    match (s[i], last_present_before(s, i)) {
        (Some(v), Some(p)) => Some(wrapping_sub(v, p)),
        _ => None,
    }
}

/// The column of differences of `s`.
pub open spec fn differences(s: Seq<Option<i64>>) -> Seq<Option<i64>> {
    Seq::new(s.len(), |i: int| difference_at(s, i))
}

/// Number of absent values in `s`.
pub open spec fn gap_count(s: Seq<Option<i64>>) -> nat
    decreases s.len(),
{
    if s.len() == 0 {
        0
    } else {
        gap_count(s.drop_last()) + if s.last() is None {
            1nat
        } else {
            0nat
        }
    }
}

/// `s` moved by `offset` places, to the right where `offset` is positive;
/// the places left free are absent.
pub open spec fn shifted(s: Seq<Option<i64>>, offset: int) -> Seq<Option<i64>> {
    Seq::new(
        s.len(),
        |i: int|
            if 0 <= i - offset < s.len() {
                s[i - offset]
            } else {
                None
            },
    )
}

/// Place by place `l - r`, wrapping; absent where either side is absent.
pub open spec fn pairwise_difference(l: Seq<Option<i64>>, r: Seq<Option<i64>>) -> Seq<
    Option<i64>,
> {
    Seq::new(
        l.len(),
        |i: int|
            match (l[i], r[i]) {
                (Some(a), Some(b)) => Some(wrapping_sub(a, b)),
                _ => None,
            },
    )
}

/// Calls `arrow::compute::shift` on an `Int64Array` built from `values`.
///
/// Claimed of it: on an `Int64Array` it always returns an array, and that
/// array is `values` moved by `offset` places with absent values in the
/// places left free. Its one fallible step, `concat`, fails only on an
/// empty list of arrays or on arrays of different types, and is called
/// here with two arrays of the one type.
#[verifier::external_body]
fn shift_kernel(values: &Vec<Option<i64>>, offset: i64) -> (r: Result<
    Vec<Option<i64>>,
    ArrowError,
>)
    ensures
        r is Ok,
        r matches Ok(v) ==> v@ == shifted(values@, offset as int),
{
    let array = Int64Array::from(values.clone());
    let moved = arrow::compute::shift(&array, offset)?;
    Ok(moved.as_primitive::<Int64Type>().iter().collect())
}

/// Calls `arrow::compute::kernels::numeric::sub_wrapping` on two
/// `Int64Array`s built from `lhs` and `rhs`.
///
/// Claimed of it: on two `Int64Array`s it returns an array exactly when
/// the sides are of equal length, and that array holds, place by place,
/// the wrapping difference where both sides are present and an absent
/// value elsewhere.
#[verifier::external_body]
fn sub_wrapping_kernel(lhs: &Vec<Option<i64>>, rhs: &Vec<Option<i64>>) -> (r: Result<
    Vec<Option<i64>>,
    ArrowError,
>)
    ensures
        r is Ok <==> lhs@.len() == rhs@.len(),
        r matches Ok(v) ==> v@ == pairwise_difference(lhs@, rhs@),
{
    let l = Int64Array::from(lhs.clone());
    let r = Int64Array::from(rhs.clone());
    let d = arrow::compute::kernels::numeric::sub_wrapping(&l, &r)?;
    Ok(d.as_primitive::<Int64Type>().iter().collect())
}

/// In a column without gaps the last present value before `i` is the
/// value at `i - 1`.
pub proof fn lemma_previous_without_gaps(s: Seq<Option<i64>>, i: int)
    requires
        0 <= i < s.len(),
        forall|j: int| 0 <= j < s.len() ==> s[j] is Some,
    ensures
        last_present_before(s, i) == (if i == 0 {
            None
        } else {
            s[i - 1]
        }),
{
}

/// A column holds no gap exactly when every value is present.
pub proof fn lemma_gap_count_zero(s: Seq<Option<i64>>)
    ensures
        gap_count(s) == 0 <==> (forall|j: int| 0 <= j < s.len() ==> s[j] is Some),
        gap_count(s) <= s.len(),
    decreases s.len(),
{
    if s.len() > 0 {
        lemma_gap_count_zero(s.drop_last());
        if gap_count(s) == 0 {
            assert forall|j: int| 0 <= j < s.len() implies s[j] is Some by {
                if j < s.len() - 1 {
                    assert(s.drop_last()[j] is Some);
                }
            }
        }
        if forall|j: int| 0 <= j < s.len() ==> s[j] is Some {
            assert forall|j: int| 0 <= j < s.drop_last().len() implies s.drop_last()[j] is Some by {
                assert(s[j] is Some);
            }
        }
    }
}

/// For a column without gaps, subtracting the column moved one place to the
/// right gives the differences.
pub proof fn lemma_kernels_give_differences(s: Seq<Option<i64>>)
    requires
        gap_count(s) == 0,
    ensures
        pairwise_difference(s, shifted(s, 1)) == differences(s),
{
    lemma_gap_count_zero(s);
    assert forall|i: int| 0 <= i < s.len() implies #[trigger] pairwise_difference(
        s,
        shifted(s, 1),
    )[i] == differences(s)[i] by {
        lemma_previous_without_gaps(s, i);
    }
    assert(pairwise_difference(s, shifted(s, 1)) =~= differences(s));
}

/// The last present value before `i` depends only on the values before
/// `i`.
pub proof fn lemma_last_present_of_prefix<T>(s: Seq<Option<T>>, t: Seq<Option<T>>, i: int)
    requires
        0 <= i <= s.len(),
        i <= t.len(),
        forall|j: int| 0 <= j < i ==> s[j] == t[j],
    ensures
        last_present_before(s, i) == last_present_before(t, i),
    decreases i,
{
    if i > 0 {
        lemma_last_present_of_prefix(s, t, i - 1);
    }
}

/// The differences of a column without its last value are the differences
/// of the column without their last value: no difference looks ahead.
pub proof fn lemma_differences_of_prefix(s: Seq<Option<i64>>)
    requires
        s.len() > 0,
    ensures
        differences(s.drop_last()) == differences(s).drop_last(),
{
    let h = s.drop_last();
    assert forall|i: int| 0 <= i < h.len() implies differences(h)[i] == differences(
        s,
    ).drop_last()[i] by {
        lemma_last_present_of_prefix(h, s, i);
    }
    assert(differences(h) =~= differences(s).drop_last());
}

/// `s` with `c` added to every present value, wrapping.
pub open spec fn plus_constant(s: Seq<Option<i64>>, c: i64) -> Seq<Option<i64>> {
    Seq::new(
        s.len(),
        |i: int|
            match s[i] {
                Some(x) => Some(wrapping_add(x, c)),
                None => None,
            },
    )
}

/// Adding a constant to every value keeps the place of the last present
/// value.
pub proof fn lemma_plus_constant_last_present(s: Seq<Option<i64>>, c: i64, i: int)
    requires
        0 <= i <= s.len(),
    ensures
        last_present_before(plus_constant(s, c), i) == (match last_present_before(s, i) {
            Some(x) => Some(wrapping_add(x, c)),
            None => None,
        }),
    decreases i,
{
    if i > 0 {
        lemma_plus_constant_last_present(s, c, i - 1);
    }
}

/// Adding a constant to every value of a column changes no difference,
/// even where the sums wrap.
pub proof fn lemma_constant_changes_nothing(s: Seq<Option<i64>>, c: i64)
    ensures
        differences(plus_constant(s, c)) == differences(s),
{
    let t = plus_constant(s, c);
    assert forall|i: int| 0 <= i < s.len() implies differences(t)[i] == differences(s)[i] by {
        lemma_plus_constant_last_present(s, c, i);
    }
    assert(differences(t) =~= differences(s));
}

/// The values of `values` at the places where `marks` is present, in
/// order.
pub open spec fn at_present(values: Seq<Option<i64>>, marks: Seq<Option<i64>>) -> Seq<
    Option<i64>,
>
    decreases marks.len(),
{
    if marks.len() == 0 {
        Seq::empty()
    } else {
        let rest = at_present(values.drop_last(), marks.drop_last());
        if marks.last() is Some {
            rest.push(values.last())
        } else {
            rest
        }
    }
}

/// A column with its gaps taken out holds present values only, and ends
/// with the last present value of the column.
pub proof fn lemma_compacted(s: Seq<Option<i64>>)
    ensures
        forall|j: int| 0 <= j < at_present(s, s).len() ==> (#[trigger] at_present(s, s)[j]) is Some,
        last_present_before(s, s.len() as int) == (if at_present(s, s).len() == 0 {
            None
        } else {
            at_present(s, s).last()
        }),
    decreases s.len(),
{
    if s.len() > 0 {
        let h = s.drop_last();
        lemma_compacted(h);
        lemma_last_present_of_prefix(h, s, h.len() as int);
        let c = at_present(s, s);
        assert forall|j: int| 0 <= j < c.len() implies (#[trigger] c[j]) is Some by {
            if j < at_present(h, h).len() {
                assert(c[j] == at_present(h, h)[j]);
            }
        }
    }
}

/// Gaps are transparent: the differences at the present places of a
/// column are the differences of the column with its gaps taken out.
pub proof fn lemma_gaps_are_transparent(s: Seq<Option<i64>>)
    ensures
        at_present(differences(s), s) == differences(at_present(s, s)),
    decreases s.len(),
{
    if s.len() == 0 {
        assert(differences(at_present(s, s)) =~= Seq::<Option<i64>>::empty());
    } else {
        let h = s.drop_last();
        let c = at_present(h, h);
        lemma_gaps_are_transparent(h);
        lemma_differences_of_prefix(s);
        lemma_compacted(h);
        lemma_last_present_of_prefix(h, s, h.len() as int);
        if s.last() is Some {
            let grown = c.push(s.last());
            lemma_differences_of_prefix(grown);
            assert(grown.drop_last() =~= c);
            lemma_last_present_of_prefix(c, grown, c.len() as int);
            if c.len() > 0 {
                assert(c[c.len() - 1] is Some);
            }
            assert(differences(grown) =~= differences(c).push(differences(s).last()));
        }
    }
}

/// Counts the absent values of `array`.
pub fn null_count(array: &Vec<Option<i64>>) -> (n: usize)
    ensures
        n == gap_count(array@),
{
    let mut n: usize = 0;
    let mut i: usize = 0;
    while i < array.len()
        invariant
            i <= array.len(),
            n <= i,
            n == gap_count(array@.take(i as int)),
        decreases array.len() - i,
    {
        assert(array@.take(i as int + 1).drop_last() =~= array@.take(i as int));
        if array[i].is_none() {
            n = n + 1;
        }
        i = i + 1;
    }
    assert(array@.take(i as int) =~= array@);
    n
}

/// Computes the differences value by value, remembering the last value
/// that was present. Works for every column, with or without gaps.
pub fn difference_with_gaps(array: &Vec<Option<i64>>) -> (out: Vec<Option<i64>>)
    ensures
        out@ == differences(array@),
{
    let mut out: Vec<Option<i64>> = Vec::new();
    let mut last: Option<i64> = None;
    let mut idx: usize = 0;
    while idx < array.len()
        invariant
            idx <= array.len(),
            out@.len() == idx,
            last == last_present_before(array@, idx as int),
            forall|j: int| 0 <= j < idx ==> out@[j] == difference_at(array@, j),
        decreases array.len() - idx,
    {
        let v = array[idx];
        match (v, last) {
            (Some(cur), Some(prev)) => {
                out.push(Some(cur.wrapping_sub(prev)));
            },
            _ => {
                out.push(None);
            },
        }
        if v.is_some() {
            last = v;
        }
        idx = idx + 1;
    }
    assert(out@ =~= differences(array@));
    out
}

/// Turns what the last kernel returned into the library's result: the
/// column as it is, or `WindowError::Kernel` for any arrow error.
pub fn kernel_outcome(r: Result<Vec<Option<i64>>, ArrowError>) -> (out: Result<
    Vec<Option<i64>>,
    WindowError,
>)
    ensures
        match r {
            Ok(v) => out == Ok::<Vec<Option<i64>>, WindowError>(v),
            Err(_) => out == Err::<Vec<Option<i64>>, WindowError>(WindowError::Kernel),
        },
{
    match r {
        Ok(v) => Ok(v),
        Err(_) => Err(WindowError::Kernel),
    }
}

/// The difference between each value of `array` and the previous value
/// that is present. Every column is answered.
///
/// A column without gaps goes through arrow's `shift` and `sub_wrapping`
/// kernels, a column with gaps is walked value by value.
pub fn window_difference(array: &Vec<Option<i64>>) -> (r: Result<Vec<Option<i64>>, WindowError>)
    ensures
        r is Ok,
        r matches Ok(v) ==> v@ == differences(array@),
{
    if null_count(array) == 0 {
        match shift_kernel(array, 1) {
            Ok(previous) => {
                let r = sub_wrapping_kernel(array, &previous);
                proof {
                    lemma_kernels_give_differences(array@);
                }
                kernel_outcome(r)
            },
            Err(_) => Err(WindowError::Kernel),
        }
    } else {
        Ok(difference_with_gaps(array))
    }
}

/// The unsigned number with the bits of `x`.
pub open spec fn unsigned_bits(x: i64) -> u64 {
    if x >= 0 {
        x as u64
    } else {
        (x + 0x1_0000_0000_0000_0000) as u64
    }
}

/// The signed number with the bits of `x`.
pub open spec fn signed_bits(x: u64) -> i64 {
    if x <= i64::MAX {
        x as i64
    } else {
        (x - 0x1_0000_0000_0000_0000) as i64
    }
}

/// `s` with every present value read as signed.
pub open spec fn signed_column(s: Seq<Option<u64>>) -> Seq<Option<i64>> {
    Seq::new(
        s.len(),
        |i: int|
            match s[i] {
                Some(x) => Some(signed_bits(x)),
                None => None,
            },
    )
}

/// `s` with every present value read as unsigned.
pub open spec fn unsigned_column(s: Seq<Option<i64>>) -> Seq<Option<u64>> {
    Seq::new(
        s.len(),
        |i: int|
            match s[i] {
                Some(x) => Some(unsigned_bits(x)),
                None => None,
            },
    )
}

/// The difference at index `i` of an unsigned column.
pub open spec fn unsigned_difference_at(s: Seq<Option<u64>>, i: int) -> Option<u64> {
    match (s[i], last_present_before(s, i)) {
        (Some(v), Some(p)) => Some(wrapping_sub_unsigned(v, p)),
        _ => None,
    }
}

/// The column of differences of an unsigned column.
pub open spec fn unsigned_differences(s: Seq<Option<u64>>) -> Seq<Option<u64>> {
    Seq::new(s.len(), |i: int| unsigned_difference_at(s, i))
}

/// Reading the bits as signed and back gives the number, and a wrapping
/// difference has the same bits whether its operands are read as signed or
/// as unsigned.
pub proof fn lemma_bits(a: u64, b: u64)
    ensures
        unsigned_bits(signed_bits(a)) == a,
        unsigned_bits(wrapping_sub(signed_bits(a), signed_bits(b))) == wrapping_sub_unsigned(a, b),
{
}

/// Reading a column as signed keeps the place of the last present value.
pub proof fn lemma_signed_last_present(s: Seq<Option<u64>>, i: int)
    requires
        0 <= i <= s.len(),
    ensures
        last_present_before(signed_column(s), i) == (match last_present_before(s, i) {
            Some(x) => Some(signed_bits(x)),
            None => None,
        }),
    decreases i,
{
    if i > 0 {
        lemma_signed_last_present(s, i - 1);
    }
}

/// The differences of an unsigned column are the differences of the
/// column read as signed, read as unsigned again.
pub proof fn lemma_unsigned_differences(s: Seq<Option<u64>>)
    ensures
        unsigned_differences(s) == unsigned_column(differences(signed_column(s))),
{
    let t = signed_column(s);
    assert forall|i: int| 0 <= i < s.len() implies unsigned_differences(s)[i] == unsigned_column(
        differences(t),
    )[i] by {
        lemma_signed_last_present(s, i);
        match (s[i], last_present_before(s, i)) {
            (Some(v), Some(p)) => {
                lemma_bits(v, p);
            },
            _ => {},
        }
    }
    assert(unsigned_differences(s) =~= unsigned_column(differences(t)));
}

/// `s` with `c` added to every present value, wrapping.
pub open spec fn unsigned_plus_constant(s: Seq<Option<u64>>, c: u64) -> Seq<Option<u64>> {
    Seq::new(
        s.len(),
        |i: int|
            match s[i] {
                Some(x) => Some(wrapping_add_unsigned(x, c)),
                None => None,
            },
    )
}

/// Adding a constant to every value of an unsigned column keeps the place
/// of the last present value.
pub proof fn lemma_unsigned_plus_constant_last_present(s: Seq<Option<u64>>, c: u64, i: int)
    requires
        0 <= i <= s.len(),
    ensures
        last_present_before(unsigned_plus_constant(s, c), i) == (match last_present_before(
            s,
            i,
        ) {
            Some(x) => Some(wrapping_add_unsigned(x, c)),
            None => None,
        }),
    decreases i,
{
    if i > 0 {
        lemma_unsigned_plus_constant_last_present(s, c, i - 1);
    }
}

/// Adding a constant to every value of an unsigned column changes no
/// difference, even where the sums wrap.
pub proof fn lemma_unsigned_constant_changes_nothing(s: Seq<Option<u64>>, c: u64)
    ensures
        unsigned_differences(unsigned_plus_constant(s, c)) == unsigned_differences(s),
{
    let t = unsigned_plus_constant(s, c);
    assert forall|i: int| 0 <= i < s.len() implies unsigned_differences(t)[i]
        == unsigned_differences(s)[i] by {
        lemma_unsigned_plus_constant_last_present(s, c, i);
    }
    assert(unsigned_differences(t) =~= unsigned_differences(s));
}

/// The signed number with the bits of `x`.
pub fn to_signed_bits(x: u64) -> (y: i64)
    ensures
        y == signed_bits(x),
{
    if x <= 0x7fff_ffff_ffff_ffff {
        x as i64
    } else {
        ((x - 0x8000_0000_0000_0000) as i64) + i64::MIN
    }
}

/// The unsigned number with the bits of `x`.
pub fn to_unsigned_bits(x: i64) -> (y: u64)
    ensures
        y == unsigned_bits(x),
{
    if x >= 0 {
        x as u64
    } else {
        ((x - i64::MIN) as u64) + 0x8000_0000_0000_0000
    }
}

/// The difference between each value of an unsigned column and the
/// previous value that is present. Every column is answered.
pub fn window_difference_u64(array: &Vec<Option<u64>>) -> (r: Result<
    Vec<Option<u64>>,
    WindowError,
>)
    ensures
        r is Ok,
        r matches Ok(v) ==> v@ == unsigned_differences(array@),
{
    let mut signed: Vec<Option<i64>> = Vec::new();
    let mut i: usize = 0;
    while i < array.len()
        invariant
            i <= array.len(),
            signed.len() == i,
            forall|j: int| 0 <= j < i ==> signed@[j] == signed_column(array@)[j],
        decreases array.len() - i,
    {
        match array[i] {
            Some(x) => {
                signed.push(Some(to_signed_bits(x)));
            },
            None => {
                signed.push(None);
            },
        }
        i = i + 1;
    }
    assert(signed@ =~= signed_column(array@));
    match window_difference(&signed) {
        Err(e) => Err(e),
        Ok(d) => {
            let mut out: Vec<Option<u64>> = Vec::new();
            let mut k: usize = 0;
            while k < d.len()
                invariant
                    k <= d.len(),
                    out.len() == k,
                    forall|j: int| 0 <= j < k ==> out@[j] == unsigned_column(d@)[j],
                decreases d.len() - k,
            {
                match d[k] {
                    Some(x) => {
                        out.push(Some(to_unsigned_bits(x)));
                    },
                    None => {
                        out.push(None);
                    },
                }
                k = k + 1;
            }
            proof {
                assert(out@ =~= unsigned_column(d@));
                lemma_unsigned_differences(array@);
            }
            Ok(out)
        },
    }
}

} // verus!

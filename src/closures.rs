//! Closures and iterator-style processing of slices.
use vstd::prelude::*;

verus! {

/// A function that multiplies its argument by `factor`; it accepts the arguments whose
/// product fits in an `i32`.
pub fn make_multiplier(factor: i32) -> (f: impl Fn(i32) -> i32)
    ensures
        forall|x: i32| i32::MIN <= x * factor <= i32::MAX ==> #[trigger] f.requires((x,)),
        forall|x: i32, y: i32| f.ensures((x,), y) ==> y == x * factor,
{
    move |x: i32| -> (y: i32)
        requires
            i32::MIN <= x * factor <= i32::MAX,
        ensures
            y == x * factor,
        { x * factor }
}

/// The positive numbers, doubled, in order.
pub open spec fn doubled_positives(s: Seq<i32>) -> Seq<i32> {
    s.filter(|x: i32| x > 0).map_values(|x: i32| (2 * x) as i32)
}

/// Keeps the positive numbers and doubles them, for the slices whose positive numbers can
/// be doubled within an `i32`.
pub fn process_numbers(numbers: &[i32]) -> (r: Vec<i32>)
    requires
        forall|i: int| 0 <= i < numbers@.len() ==> #[trigger] numbers@[i] <= i32::MAX / 2,
    ensures
        r@ == doubled_positives(numbers@),
{
    let mut r: Vec<i32> = Vec::new();
    let mut i: usize = 0;
    while i < numbers.len()
        invariant
            i <= numbers@.len(),
            forall|j: int| 0 <= j < numbers@.len() ==> #[trigger] numbers@[j] <= i32::MAX / 2,
            r@ == doubled_positives(numbers@.take(i as int)),
        decreases numbers@.len() - i,
    {
        let x = numbers[i];
        proof {
            reveal(Seq::filter);
            assert(numbers@.take(i + 1).drop_last() =~= numbers@.take(i as int));
        }
        if x > 0 {
            r.push(2 * x);
        }
        proof {
            let f = numbers@.take(i as int).filter(|x: i32| x > 0);
            let f1 = numbers@.take(i + 1).filter(|x: i32| x > 0);
            if x > 0 {
                assert(f1 == f.push(x));
                assert(f1.map_values(|x: i32| (2 * x) as i32) =~= f.map_values(|x: i32| (2 * x) as i32).push((2 * x) as i32));
            } else {
                assert(f1 == f);
            }
        }
        i += 1;
    }
    assert(numbers@.take(numbers@.len() as int) =~= numbers@);
    r
}

/// The sum of the even numbers.
pub open spec fn even_sum(s: Seq<i32>) -> int
    decreases s.len(),
{
    if s.len() == 0 {
        0
    } else {
        even_sum(s.drop_last()) + if s.last() % 2 == 0 { s.last() as int } else { 0 }
    }
}

/// Adds up the even numbers, for the slices whose running sums fit in an `i32`.
pub fn sum_of_evens(numbers: &[i32]) -> (r: i32)
    requires
        forall|k: int| 0 <= k <= numbers@.len() ==> i32::MIN <= #[trigger] even_sum(numbers@.take(k)) <= i32::MAX,
    ensures
        r == even_sum(numbers@),
{
    let mut total: i32 = 0;
    let mut i: usize = 0;
    while i < numbers.len()
        invariant
            i <= numbers@.len(),
            total == even_sum(numbers@.take(i as int)),
            forall|k: int| 0 <= k <= numbers@.len() ==> i32::MIN <= #[trigger] even_sum(numbers@.take(k)) <= i32::MAX,
        decreases numbers@.len() - i,
    {
        assert(numbers@.take(i + 1).drop_last() =~= numbers@.take(i as int));
        assert(i32::MIN <= even_sum(numbers@.take(i + 1)) <= i32::MAX);
        let x = numbers[i];
        if x % 2 == 0 {
            total = total + x;
        }
        i += 1;
    }
    assert(numbers@.take(numbers@.len() as int) =~= numbers@);
    total
}

/// The characters with the Unicode Uppercase property, as `char::is_uppercase` decides.
pub uninterp spec fn upper_case(c: char) -> bool;

/// Relies on `char::is_uppercase`: the answer depends on the character alone.
#[verifier::external_body]
fn is_upper_case(c: char) -> (r: bool)
    ensures
        r == upper_case(c),
{
    c.is_uppercase()
}

/// The name starts with an upper-case letter.
pub open spec fn starts_upper(name: Seq<char>) -> bool {
    name.len() > 0 && upper_case(name[0])
}

/// The names that start with an upper-case letter, in order.
pub fn uppercase_names(names: &[String]) -> (r: Vec<String>)
    ensures
        r@.map_values(|s: String| s@) == names@.map_values(|s: String| s@).filter(|n: Seq<char>| starts_upper(n)),
{
    let mut r: Vec<String> = Vec::new();
    let mut i: usize = 0;
    while i < names.len()
        invariant
            i <= names@.len(),
            r@.map_values(|s: String| s@) == names@.take(i as int).map_values(|s: String| s@).filter(|n: Seq<char>| starts_upper(n)),
        decreases names@.len() - i,
    {
        let name = &names[i];
        let s = name.as_str();
        let keep = if s.unicode_len() > 0 { is_upper_case(s.get_char(0)) } else { false };
        let ghost before = r@;
        proof {
            reveal(Seq::filter);
            assert(names@.take(i + 1).map_values(|s: String| s@).drop_last() =~= names@.take(i as int).map_values(|s: String| s@));
        }
        if keep {
            r.push(name.clone());
            assert(r@.map_values(|s: String| s@) =~= before.map_values(|s: String| s@).push(name@));
        }
        i += 1;
    }
    assert(names@.take(names@.len() as int) =~= names@);
    r
}

/// The product of the numbers; 1 for none.
pub open spec fn product(s: Seq<i32>) -> int
    decreases s.len(),
{
    if s.len() == 0 {
        1
    } else {
        product(s.drop_last()) * s.last()
    }
}

/// Multiplies the numbers together, for the slices whose running products fit in an `i32`.
pub fn product_of_all(numbers: &[i32]) -> (r: i32)
    requires
        forall|k: int| 0 <= k <= numbers@.len() ==> i32::MIN <= #[trigger] product(numbers@.take(k)) <= i32::MAX,
    ensures
        r == product(numbers@),
{
    let mut acc: i32 = 1;
    let mut i: usize = 0;
    assert(numbers@.take(0) =~= Seq::<i32>::empty());
    while i < numbers.len()
        invariant
            i <= numbers@.len(),
            acc == product(numbers@.take(i as int)),
            forall|k: int| 0 <= k <= numbers@.len() ==> i32::MIN <= #[trigger] product(numbers@.take(k)) <= i32::MAX,
        decreases numbers@.len() - i,
    {
        assert(numbers@.take(i + 1).drop_last() =~= numbers@.take(i as int));
        assert(i32::MIN <= product(numbers@.take(i + 1)) <= i32::MAX);
        acc = acc * numbers[i];
        i += 1;
    }
    assert(numbers@.take(numbers@.len() as int) =~= numbers@);
    acc
}

/// Whether some number is positive.
pub fn has_positive(numbers: &[i32]) -> (r: bool)
    ensures
        r == exists|i: int| 0 <= i < numbers@.len() && #[trigger] numbers@[i] > 0,
{
    let mut i: usize = 0;
    while i < numbers.len()
        invariant
            i <= numbers@.len(),
            forall|j: int| 0 <= j < i ==> #[trigger] numbers@[j] <= 0,
        decreases numbers@.len() - i,
    {
        if numbers[i] > 0 {
            return true;
        }
        i += 1;
    }
    false
}

/// Whether every number is positive.
pub fn all_positive(numbers: &[i32]) -> (r: bool)
    ensures
        r == forall|i: int| 0 <= i < numbers@.len() ==> #[trigger] numbers@[i] > 0,
{
    let mut i: usize = 0;
    while i < numbers.len()
        invariant
            i <= numbers@.len(),
            forall|j: int| 0 <= j < i ==> #[trigger] numbers@[j] > 0,
        decreases numbers@.len() - i,
    {
        if numbers[i] <= 0 {
            return false;
        }
        i += 1;
    }
    true
}

} // verus!

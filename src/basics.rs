//! Variables, types, functions and control flow.
use vstd::prelude::*;
use crate::text::{int_text, push_int};

verus! {

/// Starts from 5, makes the binding mutable and adds ten.
pub fn make_mutable_and_add_ten() -> (r: i32)
    ensures
        r == 15,
{
    let mut x: i32 = 5;
    x += 10;
    x
}

/// The pair with its two values exchanged.
pub fn swap(a: i32, b: i32) -> (r: (i32, i32))
    ensures
        r == (b, a),
{
    let (x, y) = (b, a);
    (x, y)
}

/// The character and the number of a triple.
pub fn get_first_char_and_number(tup: (char, i32, bool)) -> (r: (char, i32))
    ensures
        r == (tup.0, tup.1),
{
    let (c, n, _) = tup;
    (c, n)
}

/// The sum of the array `[10, 20, 30, 40, 50]`.
pub fn sum_array() -> (r: i32)
    ensures
        r == 150,
{
    let arr: [i32; 5] = [10, 20, 30, 40, 50];
    let mut total: i32 = 0;
    let mut i: usize = 0;
    assert(forall|j: int| 0 <= j < 5 ==> arr@[j] == 10 * (j + 1));
    while i < 5
        invariant
            i <= 5,
            forall|j: int| 0 <= j < 5 ==> arr@[j] == 10 * (j + 1),
            total == 5 * i * (i + 1),
        decreases 5 - i,
    {
        assert(5 * i * (i + 1) + 10 * (i + 1) == 5 * (i + 1) * (i + 2)) by (nonlinear_arith);
        assert(5 * (i + 1) * (i + 2) <= 150) by (nonlinear_arith)
            requires i < 5;
        total += arr[i];
        i += 1;
    }
    assert(total == 5 * 5 * 6);
    total
}

/// The larger of two values.
pub fn max_of_two(a: i32, b: i32) -> (r: i32)
    ensures
        r == (if a >= b { a } else { b }),
{
    if a >= b { a } else { b }
}

/// n! (0! == 1).
pub open spec fn fact(n: nat) -> nat
    decreases n,
{
    if n == 0 { 1 } else { n * fact((n - 1) as nat) }
}

proof fn lemma_fact_monotone(i: nat, j: nat)
    requires
        i <= j,
    ensures
        1 <= fact(i) <= fact(j),
    decreases j,
{
    if j > 0 && i < j {
        lemma_fact_monotone(i, (j - 1) as nat);
        assert(fact(j) == j * fact((j - 1) as nat));
        assert(j * fact((j - 1) as nat) >= fact((j - 1) as nat)) by (nonlinear_arith)
            requires j >= 1, fact((j - 1) as nat) >= 1;
    } else if j > 0 {
        lemma_fact_monotone((j - 1) as nat, (j - 1) as nat);
        assert(j * fact((j - 1) as nat) >= 1) by (nonlinear_arith)
            requires j >= 1, fact((j - 1) as nat) >= 1;
    }
}

/// n!, for the n whose factorial fits in a `u32`.
pub fn factorial(n: u32) -> (r: u32)
    requires
        fact(n as nat) <= u32::MAX,
    ensures
        r == fact(n as nat),
{
    let mut acc: u32 = 1;
    let mut i: u32 = 0;
    while i < n
        invariant
            i <= n,
            acc == fact(i as nat),
            fact(n as nat) <= u32::MAX,
        decreases n - i,
    {
        proof {
            lemma_fact_monotone((i + 1) as nat, n as nat);
        }
        assert(fact((i + 1) as nat) == (i + 1) * fact(i as nat));
        acc = (i + 1) * acc;
        i += 1;
    }
    acc
}

/// `n` is a prime number: greater than 1, with no divisor strictly between 1 and itself.
pub open spec fn prime(n: nat) -> bool {
    n > 1 && forall|d: nat| 1 < d < n ==> #[trigger] (n % d) != 0
}

/// Whether `n` is prime.
pub fn is_prime(n: u32) -> (r: bool)
    ensures
        r == prime(n as nat),
{
    if n <= 1 {
        return false;
    }
    let mut d: u32 = 2;
    while d < n
        invariant
            2 <= d <= n,
            forall|k: nat| 1 < k < d ==> #[trigger] ((n as nat) % k) != 0,
        decreases n - d,
    {
        if n % d == 0 {
            assert((n as nat) % (d as nat) == 0);
            return false;
        }
        d += 1;
    }
    true
}

/// The FizzBuzz word for `n`.
pub open spec fn fizzbuzz_text(n: int) -> Seq<char> {
    if n % 15 == 0 {
        "FizzBuzz"@
    } else if n % 3 == 0 {
        "Fizz"@
    } else if n % 5 == 0 {
        "Buzz"@
    } else {
        int_text(n)
    }
}

fn divides(d: u64, n: i32) -> (r: bool)
    requires
        0 < d <= 15,
    ensures
        r == ((n as int) % (d as int) == 0),
{
    let a: u64 = if n < 0 { (-(n as i64)) as u64 } else { n as u64 };
    let m = a % d;
    proof {
        vstd::arithmetic::div_mod::lemma_fundamental_div_mod(a as int, d as int);
        if n < 0 {
            let q = (a as int) / (d as int);
            assert((a as int) == (d as int) * q + (m as int));
            assert((n as int) == -(a as int));
            assert((n as int) == (-q) * (d as int) + (-(m as int))) by (nonlinear_arith)
                requires (a as int) == (d as int) * q + (m as int), (n as int) == -(a as int);
            if m == 0 {
                vstd::arithmetic::div_mod::lemma_mod_multiples_basic(-q, d as int);
            } else {
                assert((n as int) == (-q - 1) * (d as int) + ((d - m) as int)) by (nonlinear_arith)
                    requires (n as int) == (-q) * (d as int) + (-(m as int));
                vstd::arithmetic::div_mod::lemma_fundamental_div_mod_converse(n as int, d as int, -q - 1, (d - m) as int);
            }
        }
    }
    m == 0
}

/// "Fizz" for multiples of 3, "Buzz" for multiples of 5, "FizzBuzz" for multiples of both,
/// otherwise the number itself.
pub fn fizzbuzz(n: i32) -> (r: String)
    ensures
        r@ == fizzbuzz_text(n as int),
{
    if divides(15, n) {
        String::from_str("FizzBuzz")
    } else if divides(3, n) {
        String::from_str("Fizz")
    } else if divides(5, n) {
        String::from_str("Buzz")
    } else {
        let mut s = String::new();
        push_int(&mut s, n as i64);
        assert(s@ =~= int_text(n as int));
        s
    }
}

/// 1 + 2 + ... + n, and 0 when n is not positive.
pub open spec fn triangle(n: int) -> int {
    if n <= 0 { 0 } else { n * (n + 1) / 2 }
}

/// The sum of the numbers from 1 to `n`, for the n whose sum fits in an `i32`.
pub fn sum_to_n(n: i32) -> (r: i32)
    requires
        triangle(n as int) <= i32::MAX,
    ensures
        r == triangle(n as int),
{
    let mut total: i32 = 0;
    let mut i: i32 = 1;
    if n <= 0 {
        return 0;
    }
    assert(n < 65536) by (nonlinear_arith)
        requires n >= 1, n * (n + 1) / 2 <= i32::MAX;
    while i <= n
        invariant
            1 <= i <= n + 1,
            total == triangle((i - 1) as int),
            triangle(n as int) <= i32::MAX,
            n < 65536,
        decreases n - i + 1,
    {
        assert(triangle(i as int) == triangle((i - 1) as int) + i) by (nonlinear_arith)
            requires i >= 1, triangle(i as int) == i * (i + 1) / 2,
                triangle((i - 1) as int) == (if i - 1 <= 0 { 0 } else { (i - 1) * i / 2 });
        assert(triangle(i as int) <= triangle(n as int)) by (nonlinear_arith)
            requires 1 <= i <= n, triangle(i as int) == i * (i + 1) / 2,
                triangle(n as int) == n * (n + 1) / 2;
        total += i;
        i += 1;
    }
    total
}

/// The Fibonacci numbers 0, 1, 1, 2, 3, 5, 8, ...
pub open spec fn fib(n: nat) -> nat
    decreases n,
{
    if n == 0 { 0 } else if n == 1 { 1 } else { fib((n - 1) as nat) + fib((n - 2) as nat) }
}

proof fn lemma_fib_monotone(i: nat, j: nat)
    requires
        i <= j,
    ensures
        fib(i) <= fib(j),
    decreases j,
{
    if i < j {
        lemma_fib_monotone(i, (j - 1) as nat);
        if j >= 2 {
            assert(fib(j) == fib((j - 1) as nat) + fib((j - 2) as nat));
        }
    }
}

/// The n-th Fibonacci number, for the n whose value fits in a `u32`.
pub fn fibonacci(n: u32) -> (r: u32)
    requires
        fib(n as nat) <= u32::MAX,
    ensures
        r == fib(n as nat),
{
    if n == 0 {
        return 0;
    }
    let mut a: u32 = 0;
    let mut b: u32 = 1;
    let mut i: u32 = 1;
    while i < n
        invariant
            1 <= i <= n,
            a == fib((i - 1) as nat),
            b == fib(i as nat),
            fib(n as nat) <= u32::MAX,
        decreases n - i,
    {
        proof {
            lemma_fib_monotone((i + 1) as nat, n as nat);
        }
        assert(fib((i + 1) as nat) == fib(i as nat) + fib((i - 1) as nat));
        let c = a + b;
        a = b;
        b = c;
        i += 1;
    }
    b
}

/// The number of characters of `s` that are not a space.
pub open spec fn non_space_count(s: Seq<char>) -> nat
    decreases s.len(),
{
    if s.len() == 0 {
        0
    } else {
        non_space_count(s.drop_last()) + if s.last() == ' ' { 0nat } else { 1nat }
    }
}

proof fn lemma_non_space_count_bound(s: Seq<char>)
    ensures
        non_space_count(s) <= s.len(),
    decreases s.len(),
{
    if s.len() > 0 {
        lemma_non_space_count_bound(s.drop_last());
    }
}

/// Counts the characters of `s`, spaces left out.
pub fn count_chars(s: &str) -> (r: usize)
    ensures
        r == non_space_count(s@),
{
    let n = s.unicode_len();
    let mut count: usize = 0;
    let mut i: usize = 0;
    while i < n
        invariant
            i <= n,
            n == s@.len(),
            count == non_space_count(s@.subrange(0, i as int)),
        decreases n - i,
    {
        let c = s.get_char(i);
        proof {
            let p = s@.subrange(0, i + 1);
            assert(p.drop_last() =~= s@.subrange(0, i as int));
            lemma_non_space_count_bound(s@.subrange(0, i as int));
        }
        if c != ' ' {
            count += 1;
        }
        i += 1;
    }
    assert(s@.subrange(0, n as int) =~= s@);
    count
}

} // verus!

//! Structs, enums, Option, Result and pattern matching.
use vstd::prelude::*;
use crate::text::{digits_of, int_text, push_digits, push_int};

verus! {

/// A rectangle by its side lengths.
#[derive(Debug, PartialEq, Eq, Structural)]
pub struct Rectangle {
    pub width: u32,
    pub height: u32,
}

impl Rectangle {
    /// A rectangle of the given width and height.
    pub fn new(width: u32, height: u32) -> (r: Self)
        ensures
            r.width == width,
            r.height == height,
    {
        Rectangle { width, height }
    }

    /// Width times height, for the rectangles whose area fits in a `u32`.
    pub fn area(&self) -> (r: u32)
        requires
            self.width * self.height <= u32::MAX,
        ensures
            r == self.width * self.height,
    {
        self.width * self.height
    }

    /// Whether both sides are equal.
    pub fn is_square(&self) -> (r: bool)
        ensures
            r == (self.width == self.height),
    {
        self.width == self.height
    }

    /// Whether `other` fits strictly inside this rectangle, side by side.
    pub fn can_hold(&self, other: &Rectangle) -> (r: bool)
        ensures
            r == (self.width > other.width && self.height > other.height),
    {
        self.width > other.width && self.height > other.height
    }
}

/// A compass direction.
#[derive(Debug, PartialEq, Eq, Structural, Clone, Copy)]
pub enum Direction {
    North,
    South,
    East,
    West,
}

impl Direction {
    /// The direction pointing the other way.
    pub fn opposite(&self) -> (r: Direction)
        ensures
            *self == Direction::North ==> r == Direction::South,
            *self == Direction::South ==> r == Direction::North,
            *self == Direction::East ==> r == Direction::West,
            *self == Direction::West ==> r == Direction::East,
    {
        match self {
            Direction::North => Direction::South,
            Direction::South => Direction::North,
            Direction::East => Direction::West,
            Direction::West => Direction::East,
        }
    }
}

/// A command sent to a program.
#[derive(Debug, PartialEq)]
pub enum Message {
    Quit,
    Move { x: i32, y: i32 },
    Write(String),
    ChangeColor(u8, u8, u8),
}

/// The text that reports what a message does.
pub open spec fn process_text(m: Message) -> Seq<char> {
    match m {
        Message::Quit => "Quitting..."@,
        Message::Move { x, y } => "Moving to "@ + int_text(x as int) + ", "@ + int_text(y as int),
        Message::Write(t) => "Writing: "@ + t@,
        Message::ChangeColor(r, g, b) => "Changing color to "@ + digits_of(r as nat) + ", "@
            + digits_of(g as nat) + ", "@ + digits_of(b as nat),
    }
}

impl Message {
    /// Reports what the message does: "Quitting...", "Moving to x, y", "Writing: text" or
    /// "Changing color to r, g, b".
    pub fn process(&self) -> (r: String)
        ensures
            r@ == process_text(*self),
    {
        match self {
            Message::Quit => String::from_str("Quitting..."),
            Message::Move { x, y } => {
                let mut s = String::from_str("Moving to ");
                push_int(&mut s, *x as i64);
                s.append(", ");
                push_int(&mut s, *y as i64);
                assert(s@ =~= process_text(*self));
                s
            },
            Message::Write(t) => {
                let s = String::from_str("Writing: ");
                s.concat(t.as_str())
            },
            Message::ChangeColor(r, g, b) => {
                let mut s = String::from_str("Changing color to ");
                push_digits(&mut s, *r as u64);
                s.append(", ");
                push_digits(&mut s, *g as u64);
                s.append(", ");
                push_digits(&mut s, *b as u64);
                assert(s@ =~= process_text(*self));
                s
            },
        }
    }
}

/// The position of the first occurrence of `target`, if any.
pub fn find_index(vec: &[i32], target: i32) -> (r: Option<usize>)
    ensures
        r matches Some(i) ==> i < vec@.len() && vec@[i as int] == target
            && forall|j: int| 0 <= j < i ==> vec@[j] != target,
        r is None ==> !vec@.contains(target),
{
    let mut i: usize = 0;
    while i < vec.len()
        invariant
            i <= vec@.len(),
            forall|j: int| 0 <= j < i ==> vec@[j] != target,
        decreases vec@.len() - i,
    {
        if vec[i] == target {
            return Some(i);
        }
        i += 1;
    }
    None
}

/// The first element, if there is one.
pub fn first_element<T>(vec: &[T]) -> (r: Option<&T>)
    ensures
        vec@.len() == 0 <==> r is None,
        r matches Some(x) ==> *x == vec@[0],
{
    if vec.len() == 0 {
        None
    } else {
        Some(&vec[0])
    }
}

/// The sum of two values that may be absent: absent when either is.
pub fn add_options(a: Option<i32>, b: Option<i32>) -> (r: Option<i32>)
    requires
        a matches Some(x) ==> b matches Some(y) ==> i32::MIN <= x + y <= i32::MAX,
    ensures
        r == match (a, b) {
            (Some(x), Some(y)) => Some((x + y) as i32),
            _ => None::<i32>,
        },
{
    match (a, b) {
        (Some(x), Some(y)) => Some(x + y),
        _ => None,
    }
}

/// Why a text is not a number.
#[derive(Debug, PartialEq, Eq, Structural, Clone, Copy)]
pub enum ParseError {
    EmptyString,
    InvalidNumber,
}

/// A decimal digit.
pub open spec fn is_digit(c: char) -> bool {
    '0' <= c <= '9'
}

/// Every character is a decimal digit.
pub open spec fn all_digits(s: Seq<char>) -> bool {
    forall|i: int| 0 <= i < s.len() ==> is_digit(#[trigger] s[i])
}

/// The value of a string of decimal digits.
pub open spec fn digits_value(s: Seq<char>) -> int
    decreases s.len(),
{
    if s.len() == 0 {
        0
    } else {
        10 * digits_value(s.drop_last()) + (s.last() as int - '0' as int)
    }
}

/// The integer a text spells: an optional '+' or '-' followed by at least one digit.
pub open spec fn spelled(s: Seq<char>) -> Option<int> {
    if s.len() > 0 && (s[0] == '-' || s[0] == '+') {
        let d = s.drop_first();
        if d.len() > 0 && all_digits(d) {
            Some(if s[0] == '-' { -digits_value(d) } else { digits_value(d) })
        } else {
            None
        }
    } else if s.len() > 0 && all_digits(s) {
        Some(digits_value(s))
    } else {
        None
    }
}

/// What parsing a text as an `i32` gives.
pub open spec fn parse_result(s: Seq<char>) -> Result<i32, ParseError> {
    if s.len() == 0 {
        Err(ParseError::EmptyString)
    } else {
        match spelled(s) {
            Some(n) => if i32::MIN <= n <= i32::MAX {
                Ok(n as i32)
            } else {
                Err(ParseError::InvalidNumber)
            },
            None => Err(ParseError::InvalidNumber),
        }
    }
}

proof fn lemma_digits_value_nonneg(s: Seq<char>)
    requires
        all_digits(s),
    ensures
        digits_value(s) >= 0,
    decreases s.len(),
{
    if s.len() > 0 {
        assert(all_digits(s.drop_last()) && is_digit(s[s.len() - 1]));
        lemma_digits_value_nonneg(s.drop_last());
    }
}

/// Reads `s` as an `i32`: an optional sign and decimal digits; an empty text and any other
/// text are told apart.
pub fn parse_number(s: &str) -> (r: Result<i32, ParseError>)
    ensures
        r == parse_result(s@),
{
    let n = s.unicode_len();
    if n == 0 {
        return Err(ParseError::EmptyString);
    }
    let first = s.get_char(0);
    let negative = first == '-';
    let start: usize = if first == '-' || first == '+' { 1 } else { 0 };
    if start == n {
        return Err(ParseError::InvalidNumber);
    }
    let ghost d = s@.subrange(start as int, n as int);
    proof {
        if start == 1 {
            assert(d =~= s@.drop_first());
        } else {
            assert(d =~= s@);
        }
    }
    let limit: i64 = 2147483648;
    let mut acc: i64 = 0;
    let mut big = false;
    let mut i: usize = start;
    while i < n
        invariant
            start <= i <= n,
            n == s@.len(),
            d == s@.subrange(start as int, n as int),
            n > 0,
            start == 1 <==> (s@[0] == '-' || s@[0] == '+'),
            start == 0 || start == 1,
            negative <==> s@[0] == '-',
            start == 1 ==> d == s@.drop_first(),
            start == 0 ==> d == s@,
            all_digits(s@.subrange(start as int, i as int)),
            !big ==> acc == digits_value(s@.subrange(start as int, i as int)) && 0 <= acc <= limit,
            big ==> digits_value(s@.subrange(start as int, i as int)) > limit,
            limit == 2147483648,
        decreases n - i,
    {
        let c = s.get_char(i);
        if !('0' <= c && c <= '9') {
            proof {
                assert(d[i - start] == c);
                assert(!all_digits(d));
                if start == 0 {
                    assert(!(s@[0] == '-' || s@[0] == '+'));
                    assert(!all_digits(s@));
                } else {
                    assert(s@[0] == '-' || s@[0] == '+');
                    assert(!all_digits(s@.drop_first()));
                }
                assert(spelled(s@) is None);
            }
            return Err(ParseError::InvalidNumber);
        }
        let ghost p = s@.subrange(start as int, i as int);
        let ghost p1 = s@.subrange(start as int, i + 1);
        proof {
            assert(p1.drop_last() =~= p);
            assert(all_digits(p1));
            lemma_digits_value_nonneg(p);
        }
        let dv = (c as u32 - '0' as u32) as i64;
        if !big {
            let next = acc * 10 + dv;
            if next > limit {
                big = true;
            } else {
                acc = next;
            }
        }
        i += 1;
    }
    proof {
        assert(s@.subrange(start as int, n as int) =~= d);
    }
    if big {
        return Err(ParseError::InvalidNumber);
    }
    if negative {
        Ok((-acc) as i32)
    } else if acc == limit {
        Err(ParseError::InvalidNumber)
    } else {
        Ok(acc as i32)
    }
}

/// The sum of the `Ok` values, or the first `Err`.
pub open spec fn ok_sum<'a>(s: Seq<Result<i32, &'a str>>) -> Result<int, &'a str>
    decreases s.len(),
{
    if s.len() == 0 {
        Ok(0)
    } else {
        match ok_sum(s.drop_last()) {
            Err(e) => Err(e),
            Ok(v) => match s.last() {
                Err(e) => Err(e),
                Ok(x) => Ok(v + x),
            },
        }
    }
}

/// Every running sum of the `Ok` values, up to the first `Err`, fits in an `i32`.
pub open spec fn running_sums_fit<'a>(s: Seq<Result<i32, &'a str>>) -> bool {
    forall|k: int| 0 <= k <= s.len() ==> match #[trigger] ok_sum(s.take(k)) {
        Ok(v) => i32::MIN <= v <= i32::MAX,
        Err(_) => true,
    }
}

/// Adds up the `Ok` values and returns the first `Err` as soon as one comes, for the lists
/// whose running sums fit in an `i32`.
pub fn sum_results<'a>(results: Vec<Result<i32, &'a str>>) -> (r: Result<i32, &'a str>)
    requires
        running_sums_fit(results@),
    ensures
        r == match ok_sum(results@) {
            Ok(v) => Ok::<i32, &'a str>(v as i32),
            Err(e) => Err(e),
        },
{
    let mut total: i32 = 0;
    let mut i: usize = 0;
    while i < results.len()
        invariant
            i <= results@.len(),
            ok_sum(results@.take(i as int)) == Ok::<int, &'a str>(total as int),
            running_sums_fit(results@),
        decreases results@.len() - i,
    {
        assert(results@.take(i + 1).drop_last() =~= results@.take(i as int));
        match results[i] {
            Err(e) => {
                proof {
                    lemma_ok_sum_err_sticks(results@, i + 1);
                }
                return Err(e);
            },
            Ok(x) => {
                assert(ok_sum(results@.take(i + 1)) == Ok::<int, &'a str>(total + x));
                assert(match ok_sum(results@.take(i + 1)) { Ok(v) => i32::MIN <= v <= i32::MAX, Err(_) => true });
                total = total + x;
            },
        }
        i += 1;
    }
    assert(results@.take(i as int) =~= results@);
    Ok(total)
}

proof fn lemma_ok_sum_err_sticks<'a>(s: Seq<Result<i32, &'a str>>, k: int)
    requires
        0 <= k <= s.len(),
        ok_sum(s.take(k)) is Err,
    ensures
        ok_sum(s) == ok_sum(s.take(k)),
    decreases s.len() - k,
{
    if k < s.len() {
        assert(s.take(k + 1).drop_last() =~= s.take(k));
        lemma_ok_sum_err_sticks(s, k + 1);
    } else {
        assert(s.take(k) =~= s);
    }
}

/// A coin; a quarter names the state that minted it.
#[derive(Debug, PartialEq)]
pub enum Coin {
    Penny,
    Nickel,
    Dime,
    Quarter(String),
}

/// The value of a coin in cents.
pub open spec fn cents(c: Coin) -> nat {
    match c {
        Coin::Penny => 1,
        Coin::Nickel => 5,
        Coin::Dime => 10,
        Coin::Quarter(_) => 25,
    }
}

/// The value of a coin in cents: 1, 5, 10 or 25.
pub fn coin_value(coin: &Coin) -> (r: u8)
    ensures
        r == cents(*coin),
{
    match coin {
        Coin::Penny => 1,
        Coin::Nickel => 5,
        Coin::Dime => 10,
        Coin::Quarter(_) => 25,
    }
}

/// The number of quarters among the coins.
pub open spec fn quarters(s: Seq<Coin>) -> nat
    decreases s.len(),
{
    if s.len() == 0 {
        0
    } else {
        quarters(s.drop_last()) + if s.last() is Quarter { 1nat } else { 0nat }
    }
}

/// The total value of the coins in cents.
pub open spec fn total_cents(s: Seq<Coin>) -> nat
    decreases s.len(),
{
    if s.len() == 0 {
        0
    } else {
        total_cents(s.drop_last()) + cents(s.last())
    }
}

proof fn lemma_coin_counts_bound(s: Seq<Coin>)
    ensures
        quarters(s) <= s.len(),
        total_cents(s) <= 25 * s.len(),
    decreases s.len(),
{
    if s.len() > 0 {
        lemma_coin_counts_bound(s.drop_last());
    }
}

/// The number of quarters and the total value of all the coins, in cents.
pub fn count_quarters(coins: &[Coin]) -> (r: (usize, u32))
    requires
        total_cents(coins@) <= u32::MAX,
    ensures
        r.0 == quarters(coins@),
        r.1 == total_cents(coins@),
{
    let mut count: usize = 0;
    let mut total: u32 = 0;
    let mut i: usize = 0;
    while i < coins.len()
        invariant
            i <= coins@.len(),
            count == quarters(coins@.take(i as int)),
            total == total_cents(coins@.take(i as int)),
            total_cents(coins@) <= u32::MAX,
        decreases coins@.len() - i,
    {
        let ghost p1 = coins@.take(i + 1);
        proof {
            assert(p1.drop_last() =~= coins@.take(i as int));
            lemma_total_prefix(coins@, i + 1);
            lemma_coin_counts_bound(coins@.take(i as int));
        }
        let v = coin_value(&coins[i]);
        if let Coin::Quarter(_) = &coins[i] {
            count += 1;
        }
        total += v as u32;
        i += 1;
    }
    assert(coins@.take(i as int) =~= coins@);
    (count, total)
}

proof fn lemma_total_prefix(s: Seq<Coin>, k: int)
    requires
        0 <= k <= s.len(),
    ensures
        total_cents(s.take(k)) <= total_cents(s),
    decreases s.len() - k,
{
    if k < s.len() {
        assert(s.take(k + 1).drop_last() =~= s.take(k));
        lemma_total_prefix(s, k + 1);
    } else {
        assert(s.take(k) =~= s);
    }
}

} // verus!

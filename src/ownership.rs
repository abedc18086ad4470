//! Ownership and borrowing: moves, shared and mutable borrows, string slices.
use vstd::prelude::*;
use vstd::utf8::encode_utf8;

verus! {

/// Moves a string from one binding to another and returns it.
pub fn ownership_demo() -> (r: String)
    ensures
        r@ == "Rust"@,
{
    let s1 = String::from_str("Rust");
    let s2 = s1;
    s2
}

/// The length of `s` in bytes.
pub fn get_length(s: String) -> (r: usize)
    ensures
        r == encode_utf8(s@).len() as usize,
{
    s.as_str().len()
}

/// A new string: `s` followed by " World!".
pub fn append_world(s: String) -> (r: String)
    ensures
        r@ == s@ + " World!"@,
{
    s.concat(" World!")
}

/// Appends "!" to `s` in place.
pub fn exclaim(s: &mut String)
    ensures
        final(s)@ == old(s)@ + "!"@,
{
    s.append("!");
}

/// The two values exchanged.
pub fn swap_values(a: i32, b: i32) -> (r: (i32, i32))
    ensures
        r == (b, a),
{
    let mut x = a;
    let mut y = b;
    let t = x;
    x = y;
    y = t;
    (x, y)
}

/// `i` is where the first word of `s` ends: no space before it, and a space or the end at it.
pub open spec fn first_word_end(s: Seq<char>, i: int) -> bool {
    &&& 0 <= i <= s.len()
    &&& forall|j: int| 0 <= j < i ==> s[j] != ' '
    &&& (i == s.len() || s[i] == ' ')
}

/// `i` is where the last word of `s` starts: a space or the start before it, no space from it on.
pub open spec fn last_word_start(s: Seq<char>, i: int) -> bool {
    &&& 0 <= i <= s.len()
    &&& forall|j: int| i <= j < s.len() ==> s[j] != ' '
    &&& (i == 0 || s[i - 1] == ' ')
}

/// The first word of `s`: everything up to its first space, or all of it when it has none.
pub fn first_word(s: &str) -> (r: &str)
    ensures
        exists|i: int| first_word_end(s@, i) && r@ == s@.subrange(0, i),
{
    let n = s.unicode_len();
    let mut i: usize = 0;
    while i < n
        invariant
            i <= n,
            n == s@.len(),
            forall|j: int| 0 <= j < i ==> s@[j] != ' ',
        decreases n - i,
    {
        if s.get_char(i) == ' ' {
            let r = s.substring_char(0, i);
            assert(first_word_end(s@, i as int));
            return r;
        }
        i += 1;
    }
    let r = s.substring_char(0, n);
    assert(first_word_end(s@, n as int));
    r
}

/// The last word of `s`: everything after its last space, or all of it when it has none.
pub fn last_word(s: &str) -> (r: &str)
    ensures
        exists|i: int| last_word_start(s@, i) && r@ == s@.subrange(i, s@.len() as int),
{
    let n = s.unicode_len();
    let mut i: usize = n;
    while i > 0
        invariant
            i <= n,
            n == s@.len(),
            forall|j: int| i <= j < n ==> s@[j] != ' ',
        decreases i,
    {
        if s.get_char(i - 1) == ' ' {
            let r = s.substring_char(i, n);
            assert(last_word_start(s@, i as int));
            return r;
        }
        i -= 1;
    }
    let r = s.substring_char(0, n);
    assert(last_word_start(s@, 0));
    r
}

/// The characters of `s` from position `start` up to, not including, `end`; "" when that
/// range does not lie inside `s`.
pub fn substring(s: &str, start: usize, end: usize) -> (r: &str)
    ensures
        start <= end <= s@.len() ==> r@ == s@.subrange(start as int, end as int),
        !(start <= end <= s@.len()) ==> r@ == Seq::<char>::empty(),
{
    let n = s.unicode_len();
    if start <= end && end <= n {
        s.substring_char(start, end)
    } else {
        proof { reveal_strlit(""); }
        ""
    }
}

/// The smallest and the largest value of a slice; None when it is empty.
pub fn find_min_max(numbers: &[i32]) -> (r: Option<(i32, i32)>)
    ensures
        numbers@.len() == 0 <==> r is None,
        r matches Some((lo, hi)) ==> {
            &&& numbers@.contains(lo)
            &&& numbers@.contains(hi)
            &&& forall|i: int| 0 <= i < numbers@.len() ==> lo <= #[trigger] numbers@[i] <= hi
        },
{
    if numbers.len() == 0 {
        return None;
    }
    let mut lo = numbers[0];
    let mut hi = numbers[0];
    let mut i: usize = 1;
    while i < numbers.len()
        invariant
            1 <= i <= numbers@.len(),
            numbers@.contains(lo),
            numbers@.contains(hi),
            forall|j: int| 0 <= j < i ==> lo <= #[trigger] numbers@[j] <= hi,
        decreases numbers@.len() - i,
    {
        let x = numbers[i];
        if x < lo {
            lo = x;
        }
        if x > hi {
            hi = x;
        }
        i += 1;
    }
    Some((lo, hi))
}

/// A person with a name and an age in years.
pub struct Person {
    pub name: String,
    pub age: u32,
}

impl Person {
    /// A person of the given name and age.
    pub fn new(name: &str, age: u32) -> (r: Self)
        ensures
            r.name@ == name@,
            r.age == age,
    {
        Person { name: String::from_str(name), age }
    }

    /// The person's name, borrowed.
    pub fn get_name(&self) -> (r: &str)
        ensures
            r@ == self.name@,
    {
        self.name.as_str()
    }

    /// One year older.
    pub fn have_birthday(&mut self)
        requires
            old(self).age < u32::MAX,
        ensures
            final(self).age == old(self).age + 1,
            final(self).name == old(self).name,
    {
        self.age = self.age + 1;
    }
}

} // verus!

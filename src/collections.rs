//! Collections: vectors, sets of values, and word counts in a hash map.
use vstd::prelude::*;
use vstd::hash_map::StringHashMap;

verus! {

/// The lower-case form of a text, as `str::to_lowercase` gives it.
pub uninterp spec fn lower_of(s: Seq<char>) -> Seq<char>;

/// Relies on `str::to_lowercase`: the result depends on the characters alone, and an empty
/// text stays empty.
#[verifier::external_body]
fn lowercase(s: &str) -> (r: String)
    ensures
        r@ == lower_of(s@),
        s@.len() == 0 ==> r@.len() == 0,
{
    s.to_lowercase()
}

/// The characters with the Unicode White_Space property.
pub open spec fn white_space(c: char) -> bool {
    ('\u{9}' <= c <= '\u{d}') || c == ' ' || c == '\u{85}' || c == '\u{a0}' || c == '\u{1680}'
        || ('\u{2000}' <= c <= '\u{200a}') || c == '\u{2028}' || c == '\u{2029}'
        || c == '\u{202f}' || c == '\u{205f}' || c == '\u{3000}'
}

/// Whether `c` is white space.
pub fn is_white_space(c: char) -> (r: bool)
    ensures
        r == white_space(c),
{
    ('\u{9}' <= c && c <= '\u{d}') || c == ' ' || c == '\u{85}' || c == '\u{a0}' || c == '\u{1680}'
        || ('\u{2000}' <= c && c <= '\u{200a}') || c == '\u{2028}' || c == '\u{2029}'
        || c == '\u{202f}' || c == '\u{205f}' || c == '\u{3000}'
}

/// Scanning `s` left to right: the words completed so far, and the start of the word in
/// progress (equal to `s.len()` when none is in progress).
pub open spec fn scan_words(s: Seq<char>) -> (Seq<Seq<char>>, int)
    decreases s.len(),
{
    if s.len() == 0 {
        (Seq::empty(), 0)
    } else {
        let (done, start) = scan_words(s.drop_last());
        let n = s.len() - 1;
        if white_space(s.last()) {
            if start < n {
                (done.push(s.subrange(start, n)), n + 1)
            } else {
                (done, n + 1)
            }
        } else {
            (done, start)
        }
    }
}

/// The words of `s`: its maximal runs of characters that are not white space, in order.
pub open spec fn words_of(s: Seq<char>) -> Seq<Seq<char>> {
    let (done, start) = scan_words(s);
    if start < s.len() {
        done.push(s.subrange(start, s.len() as int))
    } else {
        done
    }
}

/// How many times `w` occurs in `ws`.
pub open spec fn occurrences(ws: Seq<Seq<char>>, w: Seq<char>) -> nat
    decreases ws.len(),
{
    if ws.len() == 0 {
        0
    } else {
        occurrences(ws.drop_last(), w) + if ws.last() == w { 1nat } else { 0nat }
    }
}

/// A count as an `i32`, held at `i32::MAX` beyond it.
pub open spec fn saturated(n: nat) -> i32 {
    if n <= i32::MAX { n as i32 } else { i32::MAX }
}

/// The map counts each word of `ws`, and holds no other key.
pub open spec fn counts_words(m: Map<Seq<char>, i32>, ws: Seq<Seq<char>>) -> bool {
    &&& forall|w: Seq<char>| #[trigger] m.contains_key(w) <==> ws.contains(w)
    &&& forall|w: Seq<char>| #[trigger] m.contains_key(w) ==> m[w] == saturated(occurrences(ws, w))
}

proof fn lemma_occurrences_contains(ws: Seq<Seq<char>>, w: Seq<char>)
    ensures
        occurrences(ws, w) > 0 <==> ws.contains(w),
    decreases ws.len(),
{
    if ws.len() > 0 {
        lemma_occurrences_contains(ws.drop_last(), w);
        if ws.drop_last().contains(w) {
            let i = choose|i: int| 0 <= i < ws.drop_last().len() && ws.drop_last()[i] == w;
            assert(ws[i] == w);
        }
        if ws.contains(w) && ws.last() != w {
            let i = choose|i: int| 0 <= i < ws.len() && ws[i] == w;
            assert(ws.drop_last()[i] == w);
        }
    }
}

fn add_word(m: &mut StringHashMap<i32>, word: &str, ws: Ghost<Seq<Seq<char>>>)
    requires
        counts_words(old(m)@, ws@),
    ensures
        counts_words(final(m)@, ws@.push(word@)),
{
    let ghost ws2 = ws@.push(word@);
    proof {
        assert(ws2.drop_last() =~= ws@);
        assert forall|w: Seq<char>| w != word@ implies occurrences(ws2, w) == occurrences(ws@, w) by {}
        assert(occurrences(ws2, word@) == occurrences(ws@, word@) + 1);
        lemma_occurrences_contains(ws@, word@);
        assert forall|w: Seq<char>| #[trigger] ws2.contains(w) <==> (ws@.contains(w) || w == word@) by {
            if ws2.contains(w) && w != word@ {
                let i = choose|i: int| 0 <= i < ws2.len() && ws2[i] == w;
                assert(ws@[i] == w);
            }
            if ws@.contains(w) {
                let i = choose|i: int| 0 <= i < ws@.len() && ws@[i] == w;
                assert(ws2[i] == w);
            }
            if w == word@ {
                assert(ws2[ws@.len() as int] == w);
            }
        }
    }
    let next: i32 = match m.get(word) {
        Some(v) => if *v < i32::MAX { *v + 1 } else { *v },
        None => 1,
    };
    m.insert(String::from_str(word), next);
    proof {
        let m2 = final(m)@;
        assert forall|w: Seq<char>| #[trigger] m2.contains_key(w) implies m2[w] == saturated(occurrences(ws2, w)) by {
            if w != word@ && m2.contains_key(w) {
                assert(old(m)@.contains_key(w));
            }
        }
    }
}

/// Counts how often each word occurs in `text`, words compared in lower case; a word's count
/// stops at `i32::MAX`.
pub fn word_frequency(text: &str) -> (r: StringHashMap<i32>)
    ensures
        counts_words(r@, words_of(lower_of(text@))),
{
    let lower = lowercase(text);
    let s = lower.as_str();
    let n = s.unicode_len();
    let mut m: StringHashMap<i32> = StringHashMap::new();
    let mut start: usize = 0;
    let mut i: usize = 0;
    let ghost mut done: Seq<Seq<char>> = Seq::empty();
    assert(counts_words(m@, done));
    while i < n
        invariant
            i <= n,
            n == s@.len(),
            start <= i,
            (done, start as int) == scan_words(s@.subrange(0, i as int)),
            counts_words(m@, done),
        decreases n - i,
    {
        let c = s.get_char(i);
        let ghost p1 = s@.subrange(0, i + 1);
        assert(p1.drop_last() =~= s@.subrange(0, i as int));
        assert(p1.last() == c);
        if is_white_space(c) {
            if start < i {
                let word = s.substring_char(start, i);
                assert(word@ =~= p1.subrange(start as int, i as int));
                add_word(&mut m, word, Ghost(done));
                proof {
                    done = done.push(word@);
                }
            }
            start = i + 1;
        }
        i += 1;
    }
    assert(s@.subrange(0, n as int) =~= s@);
    if start < n {
        let word = s.substring_char(start, n);
        add_word(&mut m, word, Ghost(done));
        proof {
            done = done.push(word@);
        }
    }
    m
}

/// The values of `b`, in order, that also occur in `a`.
pub fn find_duplicates(a: &[i32], b: &[i32]) -> (r: Vec<i32>)
    ensures
        r@ == b@.filter(|x: i32| a@.contains(x)),
{
    let mut r: Vec<i32> = Vec::new();
    let mut i: usize = 0;
    while i < b.len()
        invariant
            i <= b@.len(),
            r@ == b@.take(i as int).filter(|x: i32| a@.contains(x)),
        decreases b@.len() - i,
    {
        let x = b[i];
        let mut found = false;
        let mut j: usize = 0;
        while j < a.len()
            invariant
                j <= a@.len(),
                found <==> exists|k: int| 0 <= k < j && a@[k] == x,
            decreases a@.len() - j,
        {
            if a[j] == x {
                found = true;
            }
            j += 1;
        }
        proof {
            reveal(Seq::filter);
            assert(b@.take(i + 1).drop_last() =~= b@.take(i as int));
        }
        if found {
            r.push(x);
        }
        i += 1;
    }
    assert(b@.take(b@.len() as int) =~= b@);
    r
}

/// `a` and `b` taken turn by turn, one element each, while both last; then the rest of the
/// longer one.
pub open spec fn interleaved(a: Seq<i32>, b: Seq<i32>) -> Seq<i32>
    decreases a.len() + b.len(),
{
    if a.len() == 0 {
        b
    } else if b.len() == 0 {
        a
    } else {
        seq![a[0], b[0]] + interleaved(a.drop_first(), b.drop_first())
    }
}

proof fn lemma_interleaved_step(a: Seq<i32>, b: Seq<i32>, i: int)
    requires
        0 <= i < a.len(),
        i < b.len(),
    ensures
        interleaved(a.subrange(i, a.len() as int), b.subrange(i, b.len() as int))
            == seq![a[i], b[i]] + interleaved(a.subrange(i + 1, a.len() as int), b.subrange(i + 1, b.len() as int)),
{
    assert(a.subrange(i, a.len() as int).drop_first() =~= a.subrange(i + 1, a.len() as int));
    assert(b.subrange(i, b.len() as int).drop_first() =~= b.subrange(i + 1, b.len() as int));
}

/// Takes `a` and `b` in turn while both have elements, then appends the rest of the longer.
pub fn interleave(a: &[i32], b: &[i32]) -> (r: Vec<i32>)
    ensures
        r@ == interleaved(a@, b@),
{
    let mut result: Vec<i32> = Vec::new();
    let min_len = if a.len() < b.len() { a.len() } else { b.len() };
    let mut i: usize = 0;
    assert(a@.subrange(0, a@.len() as int) =~= a@);
    assert(b@.subrange(0, b@.len() as int) =~= b@);
    assert(result@ + interleaved(a@, b@) =~= interleaved(a@, b@));
    while i < min_len
        invariant
            i <= min_len,
            min_len <= a@.len(),
            min_len <= b@.len(),
            min_len == a@.len() || min_len == b@.len(),
            result@ + interleaved(a@.subrange(i as int, a@.len() as int), b@.subrange(i as int, b@.len() as int))
                == interleaved(a@, b@),
        decreases min_len - i,
    {
        proof {
            lemma_interleaved_step(a@, b@, i as int);
        }
        let ghost before = result@;
        result.push(a[i]);
        result.push(b[i]);
        assert(before + (seq![a@[i as int], b@[i as int]] + interleaved(a@.subrange(i + 1, a@.len() as int), b@.subrange(i + 1, b@.len() as int)))
            =~= result@ + interleaved(a@.subrange(i + 1, a@.len() as int), b@.subrange(i + 1, b@.len() as int)));
        i += 1;
    }
    let ghost before = result@;
    let rest: &[i32] = if a.len() > b.len() { a } else { b };
    let mut k: usize = min_len;
    while k < rest.len()
        invariant
            min_len <= k <= rest@.len(),
            result@ == before + rest@.subrange(min_len as int, k as int),
        decreases rest@.len() - k,
    {
        result.push(rest[k]);
        assert(before + rest@.subrange(min_len as int, k + 1) =~= result@);
        k += 1;
    }
    proof {
        let ra = a@.subrange(min_len as int, a@.len() as int);
        let rb = b@.subrange(min_len as int, b@.len() as int);
        if a@.len() > b@.len() {
            assert(rb.len() == 0);
            assert(interleaved(ra, rb) == ra);
        } else {
            assert(ra.len() == 0);
            assert(interleaved(ra, rb) == rb);
        }
        assert(rest@.subrange(min_len as int, rest@.len() as int) == interleaved(ra, rb));
    }
    result
}

} // verus!

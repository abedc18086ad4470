//! Error handling: `Result` from argument checks, and searching a text line by line.
use vstd::prelude::*;

verus! {

/// A search request: what to look for, and in which file.
#[derive(Debug)]
pub struct Config {
    pub query: String,
    pub filename: String,
}

impl Config {
    /// Reads the query and the file name from the arguments after the program name; fails
    /// when there are fewer than three arguments.
    pub fn new(args: &[String]) -> (r: Result<Config, &'static str>)
        ensures
            args@.len() < 3 <==> r is Err,
            r matches Err(e) ==> e@ == "not enough arguments"@,
            r matches Ok(c) ==> c.query@ == args@[1]@ && c.filename@ == args@[2]@,
    {
        if args.len() < 3 {
            proof { reveal_strlit("not enough arguments"); }
            return Err("not enough arguments");
        }
        let query = args[1].clone();
        let filename = args[2].clone();
        Ok(Config { query, filename })
    }
}

/// A line that ended with a line feed, without the carriage return before it if any.
pub open spec fn strip_cr(l: Seq<char>) -> Seq<char> {
    if l.len() > 0 && l.last() == '\r' { l.drop_last() } else { l }
}

/// Scanning `s` left to right: the lines completed so far, and where the current line starts.
pub open spec fn scan_lines(s: Seq<char>) -> (Seq<Seq<char>>, int)
    decreases s.len(),
{
    if s.len() == 0 {
        (Seq::empty(), 0)
    } else {
        let (done, start) = scan_lines(s.drop_last());
        let n = s.len() - 1;
        if s.last() == '\n' {
            (done.push(strip_cr(s.subrange(start, n))), n + 1)
        } else {
            (done, start)
        }
    }
}

/// The lines of `s`, as `str::lines` gives them: split at each line feed, a carriage return
/// just before it dropped; a last line without a line feed counts when it is not empty.
pub open spec fn lines_of(s: Seq<char>) -> Seq<Seq<char>> {
    let (done, start) = scan_lines(s);
    if start < s.len() {
        done.push(s.subrange(start, s.len() as int))
    } else {
        done
    }
}

/// `q` occurs in `t` at position `i`.
pub open spec fn occurs_at(t: Seq<char>, q: Seq<char>, i: int) -> bool {
    0 <= i && i + q.len() <= t.len() && t.subrange(i, i + q.len()) == q
}

/// `q` occurs somewhere in `t`.
pub open spec fn has_substring(t: Seq<char>, q: Seq<char>) -> bool {
    exists|i: int| occurs_at(t, q, i)
}

fn matches_at(t: &str, q: &str, i: usize, tn: usize, qn: usize) -> (r: bool)
    requires
        tn == t@.len(),
        qn == q@.len(),
    ensures
        r == occurs_at(t@, q@, i as int),
{
    if i > tn || qn > tn - i {
        return false;
    }
    let mut k: usize = 0;
    while k < qn
        invariant
            k <= qn,
            i + qn <= tn,
            tn == t@.len(),
            qn == q@.len(),
            forall|j: int| 0 <= j < k ==> t@[i + j] == q@[j],
        decreases qn - k,
    {
        if t.get_char(i + k) != q.get_char(k) {
            assert(t@.subrange(i as int, i + qn)[k as int] != q@[k as int]);
            return false;
        }
        k += 1;
    }
    assert(t@.subrange(i as int, i + qn) =~= q@);
    true
}

/// Whether `q` occurs in `t`.
pub fn contains_text(t: &str, q: &str) -> (r: bool)
    ensures
        r == has_substring(t@, q@),
{
    let tn = t.unicode_len();
    let qn = q.unicode_len();
    let mut i: usize = 0;
    loop
        invariant
            i <= tn,
            tn == t@.len(),
            qn == q@.len(),
            forall|j: int| 0 <= j < i ==> !occurs_at(t@, q@, j),
        decreases tn - i,
    {
        if matches_at(t, q, i, tn, qn) {
            return true;
        }
        if i == tn {
            assert forall|j: int| !occurs_at(t@, q@, j) by {
                if 0 <= j && j <= tn && j != i {
                    assert(j < i);
                }
            }
            return false;
        }
        i += 1;
    }
}

/// The lines of `contents` that contain `query`, in order.
pub fn search<'a>(query: &str, contents: &'a str) -> (r: Vec<&'a str>)
    ensures
        r@.map_values(|l: &'a str| l@) == lines_of(contents@).filter(|l: Seq<char>| has_substring(l, query@)),
{
    let n = contents.unicode_len();
    let mut r: Vec<&'a str> = Vec::new();
    let mut start: usize = 0;
    let mut i: usize = 0;
    let ghost mut done: Seq<Seq<char>> = Seq::empty();
    proof { reveal(Seq::filter); }
    assert(r@.map_values(|l: &'a str| l@) =~= done.filter(|l: Seq<char>| has_substring(l, query@)));
    while i < n
        invariant
            i <= n,
            n == contents@.len(),
            start <= i,
            (done, start as int) == scan_lines(contents@.subrange(0, i as int)),
            r@.map_values(|l: &'a str| l@) == done.filter(|l: Seq<char>| has_substring(l, query@)),
        decreases n - i,
    {
        let c = contents.get_char(i);
        let ghost p1 = contents@.subrange(0, i + 1);
        assert(p1.drop_last() =~= contents@.subrange(0, i as int));
        assert(p1.last() == c);
        if c == '\n' {
            let end: usize = if i > start && contents.get_char(i - 1) == '\r' { i - 1 } else { i };
            let line = contents.substring_char(start, end);
            assert(line@ =~= strip_cr(p1.subrange(start as int, i as int)));
            let ghost before = r@;
            if contains_text(line, query) {
                r.push(line);
            }
            proof {
                reveal(Seq::filter);
                assert(done.push(line@).drop_last() =~= done);
                assert(r@.map_values(|l: &'a str| l@) =~= done.push(line@).filter(|l: Seq<char>| has_substring(l, query@)));
                done = done.push(line@);
            }
            start = i + 1;
        }
        i += 1;
    }
    assert(contents@.subrange(0, n as int) =~= contents@);
    if start < n {
        let line = contents.substring_char(start, n);
        if contains_text(line, query) {
            r.push(line);
        }
        proof {
            reveal(Seq::filter);
            assert(done.push(line@).drop_last() =~= done);
            assert(r@.map_values(|l: &'a str| l@) =~= done.push(line@).filter(|l: Seq<char>| has_substring(l, query@)));
        }
    }
    r
}

} // verus!

//! The reply of a minimal HTTP responder: the front page for a plain `GET /`, a 404 page
//! for anything else.
use vstd::prelude::*;
use crate::text::{digits_of, push_digits};

verus! {

/// The bytes of the request line `GET / HTTP/1.1\r\n`.
pub open spec fn get_root_line() -> Seq<u8> {
    seq![71u8, 69, 84, 32, 47, 32, 72, 84, 84, 80, 47, 49, 46, 49, 13, 10]
}

/// The request starts with the request line of a plain `GET /`.
pub open spec fn is_get_root(request: Seq<u8>) -> bool {
    request.len() >= 16 && request.take(16) == get_root_line()
}

/// The reply: status line, Content-Length header, blank line, body.
pub open spec fn response_text(request: Seq<u8>) -> Seq<char> {
    let (status, body) = if is_get_root(request) {
        ("HTTP/1.1 200 OK"@, "Hello, Rust!"@)
    } else {
        ("HTTP/1.1 404 NOT FOUND"@, "404 Not Found"@)
    };
    status + "\r\nContent-Length: "@ + digits_of(body.len()) + "\r\n\r\n"@ + body
}

/// Whether the request begins with `GET / HTTP/1.1\r\n`.
pub fn starts_with_get_root(request: &[u8]) -> (r: bool)
    ensures
        r == is_get_root(request@),
{
    let line: [u8; 16] = [71, 69, 84, 32, 47, 32, 72, 84, 84, 80, 47, 49, 46, 49, 13, 10];
    assert(line@ == get_root_line());
    if request.len() < 16 {
        return false;
    }
    let mut i: usize = 0;
    while i < 16
        invariant
            i <= 16,
            request@.len() >= 16,
            line@ == get_root_line(),
            forall|j: int| 0 <= j < i ==> request@[j] == line@[j],
        decreases 16 - i,
    {
        if request[i] != line[i] {
            assert(request@.take(16)[i as int] != get_root_line()[i as int]);
            return false;
        }
        i += 1;
    }
    assert(request@.take(16) =~= get_root_line());
    true
}

/// The full reply to `request`.
pub fn http_response(request: &[u8]) -> (r: String)
    ensures
        r@ == response_text(request@),
{
    let ok = starts_with_get_root(request);
    let status: &str = if ok { "HTTP/1.1 200 OK" } else { "HTTP/1.1 404 NOT FOUND" };
    let body: &str = if ok { "Hello, Rust!" } else { "404 Not Found" };
    let mut s = String::from_str(status);
    s.append("\r\nContent-Length: ");
    push_digits(&mut s, body.unicode_len() as u64);
    s.append("\r\n\r\n");
    s.append(body);
    assert(s@ =~= response_text(request@));
    s
}

} // verus!

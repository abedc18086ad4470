use rust_lessons::web::http_response;
use rust_lessons::basics::{count_chars, factorial, fibonacci, fizzbuzz, is_prime, sum_to_n};
use rust_lessons::closures::{make_multiplier, uppercase_names};
use rust_lessons::collections::{find_duplicates, interleave, is_white_space, word_frequency};
use rust_lessons::concurrency::{chunk_bounds, chunk_sum};
use rust_lessons::error_handling::{contains_text, search};
use rust_lessons::ownership::{last_word, substring};
use rust_lessons::structs_enums::{count_quarters, parse_number, Coin, ParseError};
use rust_lessons::text::int_to_string;
use rust_lessons::todo::TodoList;
use rust_lessons::traits::{NewsArticle, Summary};

#[test]
fn count_quarters_counts_all_coins() {
    let coins = vec![
        Coin::Penny,
        Coin::Quarter(String::from("Alaska")),
        Coin::Quarter(String::from("Arizona")),
        Coin::Dime,
    ];
    assert_eq!(count_quarters(&coins), (2, 61));
    assert_eq!(count_quarters(&[]), (0, 0));
}

#[test]
fn parse_number_edges() {
    assert_eq!(parse_number("-17"), Ok(-17));
    assert_eq!(parse_number("+7"), Ok(7));
    assert_eq!(parse_number("2147483647"), Ok(i32::MAX));
    assert_eq!(parse_number("-2147483648"), Ok(i32::MIN));
    assert_eq!(parse_number("2147483648"), Err(ParseError::InvalidNumber));
    assert_eq!(parse_number("99999999999999999999"), Err(ParseError::InvalidNumber));
    assert_eq!(parse_number("-"), Err(ParseError::InvalidNumber));
    assert_eq!(parse_number("1 2"), Err(ParseError::InvalidNumber));
}

#[test]
fn decimal_text_of_integers() {
    assert_eq!(int_to_string(0), "0");
    assert_eq!(int_to_string(-305), "-305");
    assert_eq!(int_to_string(i64::MIN), "-9223372036854775808");
    assert_eq!(fizzbuzz(-7), "-7");
    assert_eq!(fizzbuzz(-9), "Fizz");
}

#[test]
fn arithmetic_edges() {
    assert_eq!(factorial(12), 479001600);
    assert_eq!(fibonacci(47), 2971215073);
    assert_eq!(sum_to_n(0), 0);
    assert_eq!(sum_to_n(-4), 0);
    assert!(is_prime(97));
    assert!(!is_prime(91));
    assert_eq!(count_chars(""), 0);
}

#[test]
fn word_frequency_folds_case_and_white_space() {
    let freq = word_frequency("Hello\thello  HELLO\nworld ");
    assert_eq!(freq.get("hello"), Some(&3));
    assert_eq!(freq.get("world"), Some(&1));
    assert_eq!(freq.get("Hello"), None);
    assert!(is_white_space('\u{3000}'));
    assert!(!is_white_space('x'));
}

#[test]
fn uppercase_names_uses_unicode_case() {
    let names = vec![String::from("Émile"), String::from("élan"), String::new()];
    assert_eq!(uppercase_names(&names), vec![String::from("Émile")]);
}

#[test]
fn search_handles_line_endings() {
    let text = "one Rust\r\ntwo\r\nRust three\r";
    assert_eq!(search("Rust", text), vec!["one Rust", "Rust three\r"]);
    assert_eq!(search("", "a\n\nb\n"), vec!["a", "", "b"]);
    assert!(contains_text("abc", "bc"));
    assert!(!contains_text("abc", "cb"));
}

#[test]
fn slices_and_words_edges() {
    assert_eq!(substring("hello", 3, 2), "");
    assert_eq!(substring("héllo", 1, 3), "él");
    assert_eq!(last_word("trailing "), "");
    assert_eq!(interleave(&[1, 2, 3, 4], &[9]), vec![1, 9, 2, 3, 4]);
    assert_eq!(find_duplicates(&[], &[1, 2]), Vec::<i32>::new());
}

#[test]
fn multiplier_with_negative_factor() {
    let neg = make_multiplier(-2);
    assert_eq!(neg(21), -42);
}

#[test]
fn chunks_cover_the_input() {
    let numbers: Vec<i32> = (1..=100).collect();
    let mut total = 0;
    let mut expected_start = 0;
    for i in 0..4 {
        let (start, end) = chunk_bounds(numbers.len(), 4, i);
        assert_eq!(start, expected_start);
        total += chunk_sum(&numbers, start, end).unwrap();
        expected_start = end;
    }
    assert_eq!(expected_start, 100);
    assert_eq!(total, 5050);
    assert_eq!(chunk_bounds(10, 3, 2), (6, 10));
}

#[test]
fn todo_ids_keep_increasing_after_removal() {
    let mut todo = TodoList::new();
    let a = todo.add("a");
    let b = todo.add("b");
    assert!(todo.remove(a).is_some());
    let c = todo.add("c");
    assert_eq!((a, b, c), (1, 2, 3));
    let ids: Vec<u32> = todo.list().iter().map(|t| t.id).collect();
    assert_eq!(ids, vec![2, 3]);
    assert!(todo.remove(a).is_none());
}

#[test]
fn news_article_summary_text() {
    let article = NewsArticle {
        headline: String::from("H"),
        location: String::from("L"),
        author: String::from("A"),
        content: String::from("C"),
    };
    assert_eq!(article.summarize(), "H, by A (L)");
    assert_eq!(article.summarize_author(), "(read more...)");
}

#[test]
fn chunk_sum_reports_overflow() {
    let numbers = vec![i32::MAX, 1, -5];
    assert_eq!(chunk_sum(&numbers, 0, 3), None);
    assert_eq!(chunk_sum(&numbers, 1, 3), Some(-4));
    assert_eq!(chunk_sum(&numbers, 2, 2), Some(0));
}

#[test]
fn http_replies() {
    let mut get = b"GET / HTTP/1.1\r\nHost: x\r\n\r\n".to_vec();
    get.resize(1024, 0);
    assert_eq!(http_response(&get), "HTTP/1.1 200 OK\r\nContent-Length: 12\r\n\r\nHello, Rust!");
    assert_eq!(
        http_response(b"GET /other HTTP/1.1\r\n"),
        "HTTP/1.1 404 NOT FOUND\r\nContent-Length: 13\r\n\r\n404 Not Found"
    );
    assert_eq!(http_response(b""), "HTTP/1.1 404 NOT FOUND\r\nContent-Length: 13\r\n\r\n404 Not Found");
}

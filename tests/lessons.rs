use rust_lessons::advanced::Kilometers;
use rust_lessons::basics::{
    count_chars, factorial, fibonacci, fizzbuzz, get_first_char_and_number, is_prime,
    make_mutable_and_add_ten, max_of_two, sum_array, sum_to_n, swap,
};
use rust_lessons::closures::{
    all_positive, has_positive, make_multiplier, process_numbers, product_of_all, sum_of_evens,
    uppercase_names,
};
use rust_lessons::collections::{find_duplicates, interleave, word_frequency};
use rust_lessons::concurrency::Counter;
use rust_lessons::error_handling::{search, Config};
use rust_lessons::generics;
use rust_lessons::lifetimes::{self, longest, Excerpt};
use rust_lessons::ownership::{
    append_world, exclaim, find_min_max, first_word, get_length, last_word, ownership_demo,
    substring, Person,
};
use rust_lessons::smart_pointers::{List, SharedData};
use rust_lessons::structs_enums::{
    add_options, coin_value, find_index, first_element, parse_number, sum_results, Coin,
    Direction, Message, ParseError, Rectangle,
};
use rust_lessons::todo::TodoList;
use rust_lessons::traits::{NewsArticle, Summary, Tweet};

#[test]
fn test_make_mutable_and_add_ten() {
    assert_eq!(make_mutable_and_add_ten(), 15);
}

#[test]
fn test_swap() {
    assert_eq!(swap(5, 10), (10, 5));
    assert_eq!(swap(-1, 1), (1, -1));
}

#[test]
fn test_get_first_char_and_number() {
    assert_eq!(get_first_char_and_number(('A', 42, true)), ('A', 42));
}

#[test]
fn test_sum_array() {
    assert_eq!(sum_array(), 150);
}

#[test]
fn test_max_of_two() {
    assert_eq!(max_of_two(5, 10), 10);
    assert_eq!(max_of_two(20, 10), 20);
    assert_eq!(max_of_two(5, 5), 5);
}

#[test]
fn test_factorial() {
    assert_eq!(factorial(0), 1);
    assert_eq!(factorial(1), 1);
    assert_eq!(factorial(5), 120);
    assert_eq!(factorial(10), 3628800);
}

#[test]
fn test_is_prime() {
    assert_eq!(is_prime(0), false);
    assert_eq!(is_prime(1), false);
    assert_eq!(is_prime(2), true);
    assert_eq!(is_prime(17), true);
    assert_eq!(is_prime(18), false);
}

#[test]
fn test_fizzbuzz() {
    assert_eq!(fizzbuzz(1), "1");
    assert_eq!(fizzbuzz(3), "Fizz");
    assert_eq!(fizzbuzz(5), "Buzz");
    assert_eq!(fizzbuzz(15), "FizzBuzz");
    assert_eq!(fizzbuzz(30), "FizzBuzz");
}

#[test]
fn test_sum_to_n() {
    assert_eq!(sum_to_n(5), 15);
    assert_eq!(sum_to_n(10), 55);
}

#[test]
fn test_fibonacci() {
    assert_eq!(fibonacci(0), 0);
    assert_eq!(fibonacci(1), 1);
    assert_eq!(fibonacci(5), 5);
    assert_eq!(fibonacci(10), 55);
}

#[test]
fn test_count_chars() {
    assert_eq!(count_chars("hello"), 5);
    assert_eq!(count_chars("hello world"), 10);
    assert_eq!(count_chars("  rust  "), 4);
}

#[test]
fn test_ownership_demo() {
    assert_eq!(ownership_demo(), "Rust");
}

#[test]
fn test_get_length() {
    let s = String::from("hello");
    let len = get_length(s);
    assert_eq!(len, 5);
}

#[test]
fn test_append_world() {
    let s = String::from("Hello");
    let result = append_world(s);
    assert_eq!(result, "Hello World!");
}

#[test]
fn test_exclaim() {
    let mut s = String::from("Hello");
    exclaim(&mut s);
    assert_eq!(s, "Hello!");
}

#[test]
fn test_first_word() {
    assert_eq!(first_word("hello world"), "hello");
    assert_eq!(first_word("rust"), "rust");
    assert_eq!(first_word(""), "");
}

#[test]
fn test_last_word() {
    assert_eq!(last_word("hello world"), "world");
    assert_eq!(last_word("rust is awesome"), "awesome");
    assert_eq!(last_word("single"), "single");
}

#[test]
fn test_substring() {
    assert_eq!(substring("hello", 0, 2), "he");
    assert_eq!(substring("hello", 1, 4), "ell");
    assert_eq!(substring("hello", 10, 20), "");
}

#[test]
fn test_find_min_max() {
    assert_eq!(find_min_max(&[3, 1, 4, 1, 5]), Some((1, 5)));
    assert_eq!(find_min_max(&[10]), Some((10, 10)));
    assert_eq!(find_min_max(&[]), None);
}

#[test]
fn test_person() {
    let mut person = Person::new("Alice", 25);
    assert_eq!(person.get_name(), "Alice");
    person.have_birthday();
    assert_eq!(person.age, 26);
}

#[test]
fn test_rectangle() {
    let rect = Rectangle::new(10, 20);
    assert_eq!(rect.area(), 200);
    assert!(!rect.is_square());

    let square = Rectangle::new(10, 10);
    assert!(square.is_square());
}

#[test]
fn test_rectangle_can_hold() {
    let rect1 = Rectangle::new(30, 50);
    let rect2 = Rectangle::new(10, 20);
    let rect3 = Rectangle::new(40, 60);

    assert!(rect1.can_hold(&rect2));
    assert!(!rect1.can_hold(&rect3));
}

#[test]
fn test_direction_opposite() {
    assert_eq!(Direction::North.opposite(), Direction::South);
    assert_eq!(Direction::South.opposite(), Direction::North);
    assert_eq!(Direction::East.opposite(), Direction::West);
    assert_eq!(Direction::West.opposite(), Direction::East);
}

#[test]
fn test_message_process() {
    assert_eq!(Message::Quit.process(), "Quitting...");
    assert_eq!(Message::Move { x: 10, y: 20 }.process(), "Moving to 10, 20");
    assert_eq!(Message::Write(String::from("Hello")).process(), "Writing: Hello");
    assert_eq!(Message::ChangeColor(255, 0, 0).process(), "Changing color to 255, 0, 0");
}

#[test]
fn test_find_index() {
    let vec = vec![1, 2, 3, 4, 5];
    assert_eq!(find_index(&vec, 3), Some(2));
    assert_eq!(find_index(&vec, 10), None);
}

#[test]
fn test_first_element() {
    let vec = vec![1, 2, 3];
    assert_eq!(first_element(&vec), Some(&1));
    let empty: Vec<i32> = vec![];
    assert_eq!(first_element(&empty), None);
}

#[test]
fn test_add_options() {
    assert_eq!(add_options(Some(5), Some(10)), Some(15));
    assert_eq!(add_options(Some(5), None), None);
    assert_eq!(add_options(None, Some(10)), None);
}

#[test]
fn test_parse_number() {
    assert_eq!(parse_number("42"), Ok(42));
    assert_eq!(parse_number(""), Err(ParseError::EmptyString));
    assert_eq!(parse_number("abc"), Err(ParseError::InvalidNumber));
}

#[test]
fn test_sum_results() {
    let results = vec![Ok(1), Ok(2), Ok(3)];
    assert_eq!(sum_results(results), Ok(6));

    let results = vec![Ok(1), Err("error"), Ok(3)];
    assert_eq!(sum_results(results), Err("error"));
}

#[test]
fn test_coin_value() {
    assert_eq!(coin_value(&Coin::Penny), 1);
    assert_eq!(coin_value(&Coin::Nickel), 5);
    assert_eq!(coin_value(&Coin::Dime), 10);
    assert_eq!(coin_value(&Coin::Quarter(String::from("Alaska"))), 25);
}

#[test]
fn test_word_frequency() {
    let text = "hello world hello";
    let freq = word_frequency(text);
    assert_eq!(freq.get("hello"), Some(&2));
    assert_eq!(freq.get("world"), Some(&1));
}

#[test]
fn test_find_duplicates() {
    assert_eq!(find_duplicates(&[1, 2, 3], &[2, 3, 4]), vec![2, 3]);
}

#[test]
fn test_interleave() {
    assert_eq!(interleave(&[1, 2], &[10, 20, 30]), vec![1, 10, 2, 20, 30]);
}

#[test]
fn test_config_new() {
    let args = vec![
        String::from("program"),
        String::from("query"),
        String::from("file.txt"),
    ];
    let config = Config::new(&args).unwrap();
    assert_eq!(config.query, "query");
    assert_eq!(config.filename, "file.txt");
}

#[test]
fn test_config_new_error() {
    let args = vec![String::from("program")];
    assert!(Config::new(&args).is_err());
}

#[test]
fn test_search() {
    let contents = "\
Rust:
safe, fast, productive.
Pick three.
Trust me.";

    assert_eq!(search("Rust", contents), vec!["Rust:"]);
    assert_eq!(search("safe", contents), vec!["safe, fast, productive."]);
}

#[test]
fn lib_test_swap() {
    assert_eq!(generics::swap(5, 10), (10, 5));
    assert_eq!(generics::swap("a", "b"), ("b", "a"));
}

#[test]
fn test_largest() {
    let numbers = vec![1, 5, 3, 10, 2];
    assert_eq!(generics::largest(&numbers), Some(&10));

    let empty: Vec<i32> = vec![];
    assert_eq!(generics::largest(&empty), None);
}

#[test]
fn test_longest() {
    let s1 = String::from("long string is long");
    let s2 = "xyz";
    assert_eq!(longest(s1.as_str(), s2), s1.as_str());
}

#[test]
fn test_excerpt() {
    let text = String::from("hello world");
    let excerpt = Excerpt::new(&text[..5]);
    assert_eq!(excerpt.get_part(), "hello");
}

#[test]
fn lib_test_first_word() {
    assert_eq!(lifetimes::first_word("hello world"), "hello");
    assert_eq!(lifetimes::first_word("rust"), "rust");
}

#[test]
fn test_news_article_summary() {
    let article = NewsArticle {
        headline: String::from("Rust 1.70 Released"),
        location: String::from("Internet"),
        author: String::from("Rust Team"),
        content: String::from("New features..."),
    };

    assert!(article.summarize().contains("Rust 1.70"));
}

#[test]
fn test_tweet_summary() {
    let tweet = Tweet {
        username: String::from("rustlang"),
        content: String::from("Hello Rustaceans!"),
        reply: false,
        retweet: false,
    };

    assert_eq!(tweet.summarize(), "rustlang: Hello Rustaceans!");
}

#[test]
fn test_make_multiplier() {
    let triple = make_multiplier(3);
    assert_eq!(triple(4), 12);
    assert_eq!(triple(5), 15);
}

#[test]
fn test_process_numbers() {
    let nums = vec![-1, 2, -3, 4, 5];
    assert_eq!(process_numbers(&nums), vec![4, 8, 10]);
}

#[test]
fn test_sum_of_evens() {
    assert_eq!(sum_of_evens(&[1, 2, 3, 4, 5, 6]), 12);
}

#[test]
fn test_uppercase_names() {
    let names = vec![
        String::from("Alice"),
        String::from("bob"),
        String::from("Charlie"),
    ];
    let result: Vec<_> = uppercase_names(&names).into_iter().collect();
    assert_eq!(result, vec!["Alice", "Charlie"]);
}

#[test]
fn test_product_of_all() {
    assert_eq!(product_of_all(&[1, 2, 3, 4]), 24);
}

#[test]
fn test_has_positive() {
    assert!(has_positive(&[-1, -2, 3]));
    assert!(!has_positive(&[-1, -2, -3]));
}

#[test]
fn test_all_positive() {
    assert!(all_positive(&[1, 2, 3]));
    assert!(!all_positive(&[1, -2, 3]));
}

#[test]
fn test_counter() {
    let counter = Counter::new();
    counter.increment();
    counter.increment();
    assert_eq!(counter.get(), 2);
}

#[test]
fn test_list() {
    let list = List::new().prepend(3).prepend(2).prepend(1);

    assert_eq!(list.sum(), 6);
}

#[test]
fn test_shared_data() {
    let data = SharedData::new(5);
    let cloned = data.clone_rc();

    *cloned.borrow_mut() += 10;

    assert_eq!(*data.value.borrow(), 15);
}

#[test]
fn test_type_alias() {
    let distance: Kilometers = 100;
    assert_eq!(distance, 100);
}

#[test]
fn test_add_task() {
    let mut todo = TodoList::new();
    let id = todo.add("Test task");
    assert_eq!(id, 1);

    let tasks = todo.list();
    assert_eq!(tasks.len(), 1);
    assert_eq!(tasks[0].description, "Test task");
}

#[test]
fn test_complete_task() {
    let mut todo = TodoList::new();
    let id = todo.add("Test task");

    assert!(todo.complete(id).is_some());
    assert!(todo.list()[0].completed);

    assert!(todo.complete(999).is_none());
}

#[test]
fn test_remove_task() {
    let mut todo = TodoList::new();
    let id = todo.add("To be removed");

    assert!(todo.remove(id).is_some());
    assert!(todo.list().is_empty());
}

#[test]
fn test_list_completed_and_pending() {
    let mut todo = TodoList::new();
    let id1 = todo.add("Task 1");
    let _id2 = todo.add("Task 2");
    todo.complete(id1);

    assert_eq!(todo.list_completed().len(), 1);
    assert_eq!(todo.list_pending().len(), 1);
}

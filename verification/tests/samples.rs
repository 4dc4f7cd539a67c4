use ownership_verifier::samples::errors::{
    divide as checked_divide, double, double_parse, double_parse_checked, get_number, parse_number, DivisionError,
};
use ownership_verifier::samples::functions::{
    add, apply_twice, calculate, divide, identity, multiply, signed_quotient,
};
use ownership_verifier::samples::generics;
use ownership_verifier::samples::generics::{largest, largest_with_trait, Display, Pair, Summary};
use ownership_verifier::samples::lifetimes::{
    change_string, first_word, first_word_end, first_word_iter, longest, longest_of_three, no_dangle,
    ImportantExcerpt,
};
use ownership_verifier::samples::ownership::{calculate_length, change, gives_ownership, takes_and_gives_back};
use ownership_verifier::samples::restaurant::{Appetizer, Breakfast};
use ownership_verifier::samples::structs::{Person, Rectangle};
use ownership_verifier::samples::traits;
use ownership_verifier::samples::traits::{Counter, Iterator, Summary2};

#[test]
fn arithmetic_functions() {
    assert_eq!(add(3, 4), 7);
    assert_eq!(add(i32::MAX, -1), i32::MAX - 1);
    assert_eq!(multiply(5, 6), 30);
    assert_eq!(multiply(-5, 6), -30);
    assert_eq!(calculate(7, 3), (10, 4, 21));
    assert_eq!(identity(5), 5);
    assert_eq!(identity("text"), "text");
}

#[test]
fn division_rounds_towards_zero() {
    assert_eq!(divide(10, 2), 5);
    assert_eq!(divide(10, 0), 0);
    assert_eq!(divide(0, 0), 0);
    for (x, y) in [(7, 2), (-7, 2), (7, -2), (-7, -2), (1, 3), (-1, 3), (i32::MIN, 1), (i32::MIN, 2), (i32::MAX, -1), (i32::MIN, i32::MIN), (0, -5)] {
        assert_eq!(divide(x, y), x / y);
        assert_eq!(signed_quotient(x, y), x / y);
    }
    assert_eq!(divide(-7, 2), -3);
    assert_eq!(divide(7, -2), -3);
    assert_eq!(divide(-7, -2), 3);
}

#[test]
fn a_function_is_applied_twice() {
    fn add_three(x: i32) -> i32 {
        x + 3
    }
    assert_eq!(apply_twice(add_three, 1), 7);
    assert_eq!(apply_twice(|x| x * 2, 5), 20);
}

#[test]
fn ownership_moves_through_functions() {
    assert_eq!(gives_ownership(), "hello");
    let s = String::from("mine");
    assert_eq!(takes_and_gives_back(s), "mine");
    assert_eq!(calculate_length(&String::from("hello")), 5);
    assert_eq!(calculate_length(&String::from("")), 0);
    assert_eq!(calculate_length(&String::from("héllo")), 6);
    let mut s = String::from("hello");
    change(&mut s);
    assert_eq!(s, "hello, world");
}

#[test]
fn rectangle_methods() {
    let mut rect = Rectangle { width: 30, height: 50 };
    assert_eq!(rect.area(), 1500);
    assert_eq!(rect.perimeter(), 160);
    assert!(rect.can_hold(&Rectangle { width: 10, height: 40 }));
    assert!(!rect.can_hold(&Rectangle { width: 30, height: 40 }));
    assert!(!rect.can_hold(&Rectangle { width: 10, height: 50 }));
    rect.double_size();
    assert_eq!(rect.into_tuple(), (60, 100));
    let sq = Rectangle::square(3);
    assert_eq!((sq.width, sq.height), (3, 3));
}

#[test]
fn person_methods() {
    let mut person = Person::new(String::from("Alice"), 30);
    assert_eq!(person.get_age(), 30);
    person.have_birthday();
    assert_eq!(person.get_age(), 31);
    assert_eq!(person.name, "Alice");
}

#[test]
fn a_summer_breakfast() {
    let mut meal = Breakfast::summer("Rye");
    assert_eq!(meal.toast, "Rye");
    meal.toast = String::from("Wheat");
    assert_eq!(meal.toast, "Wheat");
    assert_ne!(Appetizer::Soup, Appetizer::Salad);
}

#[test]
fn division_with_an_error() {
    assert_eq!(checked_divide(10, 2), Ok(5));
    assert_eq!(checked_divide(10, 0), Err(DivisionError::DivisionByZero));
    assert_eq!(checked_divide(-7, 2), Ok(-3));
    assert_eq!(checked_divide(7, -2), Ok(-3));
}

#[test]
fn numbers_are_read_out_of_text() {
    assert_eq!(parse_number("42"), Ok(42));
    assert_eq!(parse_number("-17"), Ok(-17));
    assert_eq!(parse_number("+5"), Ok(5));
    assert_eq!(parse_number("2147483647"), Ok(i32::MAX));
    let complaint = "abc".parse::<i32>().unwrap_err().to_string();
    assert_eq!(parse_number("abc"), Err(format!("解析错误: {}", complaint)));
    assert_eq!(parse_number("abc"), Err(String::from("解析错误: invalid digit found in string")));
    assert_eq!(parse_number(""), Err(String::from("解析错误: cannot parse integer from empty string")));
    assert_eq!(
        parse_number("2147483648"),
        Err(String::from("解析错误: number too large to fit in target type"))
    );
}

#[test]
fn numbers_are_doubled_or_replaced() {
    assert_eq!(double_parse("21"), Ok(42));
    assert_eq!(double_parse("-4"), Ok(-8));
    assert_eq!(double_parse("x"), Err(String::from("解析错误: invalid digit found in string")));
    assert_eq!(double(Ok(8)), Ok(16));
    assert_eq!(double(Err(String::from("no"))), Err(String::from("no")));
    assert_eq!(double_parse_checked("21"), Some(Ok(42)));
    assert_eq!(double_parse_checked("1073741823"), Some(Ok(2147483646)));
    assert_eq!(double_parse_checked("-1073741824"), Some(Ok(i32::MIN)));
    assert_eq!(double_parse_checked("1073741824"), None);
    assert_eq!(double_parse_checked("-1073741825"), None);
    assert_eq!(
        double_parse_checked("x"),
        Some(Err(String::from("解析错误: invalid digit found in string")))
    );
    assert_eq!(get_number("12"), Ok(12));
    assert_eq!(get_number("twelve"), Ok(0));
}

#[test]
fn the_largest_item() {
    assert_eq!(largest(&[34, 50, 25, 100, 65]), 100);
    assert_eq!(largest(&['y', 'm', 'a', 'q']), 'y');
    assert_eq!(largest(&[7]), 7);
    assert_eq!(largest(&[3, 9, 9, 1]), 9);
    assert_eq!(largest_with_trait(&[34, 50, 25, 100, 65]), 100);
    assert_eq!(largest_with_trait(&[-3, -9]), -3);
}

#[test]
fn generic_types() {
    let p = generics::Point { x: 5, y: 10 };
    assert_eq!(*p.x(), 5);
    let pair = Pair::new(3, 4);
    assert_eq!((pair.x, pair.y), (3, 4));
    let pair = traits::Pair::new("a", "b");
    assert_eq!((pair.x, pair.y), ("a", "b"));
}

fn tweet() -> generics::Tweet {
    generics::Tweet {
        username: String::from("horse_ebooks"),
        content: String::from("of course, as you probably already know, people"),
        reply: false,
        retweet: false,
    }
}

#[test]
fn summaries() {
    assert_eq!(tweet().summarize(), "horse_ebooks: of course, as you probably already know, people");
    let article = generics::NewsArticle {
        headline: String::from("Penguins win the Stanley Cup Championship!"),
        location: String::from("Pittsburgh, PA, USA"),
        author: String::from("Iceburgh"),
        content: String::from("The Pittsburgh Penguins once again are the best hockey team in the NHL."),
    };
    assert_eq!(
        article.summarize(),
        "Penguins win the Stanley Cup Championship!, by Iceburgh (Pittsburgh, PA, USA)"
    );
    assert_eq!(generics::returns_summarizable().summarize(), tweet().summarize());
    assert_eq!(generics::some_function(&Brief, &1), 0);
}

#[derive(Clone)]
struct Brief;

impl Summary for Brief {
    fn summarize(&self) -> String {
        String::from("brief")
    }
}

struct Shown(i32);

impl Display for Shown {
    fn display(&self) -> String {
        format!("<{}>", self.0)
    }
}

#[test]
fn display_can_be_implemented() {
    assert_eq!(Shown(3).display(), "<3>");
    assert_eq!(Brief.summarize(), "brief");
}

#[test]
fn summaries_with_a_default() {
    let tweet = traits::Tweet {
        username: String::from("horse_ebooks"),
        content: String::from("of course, as you probably already know, people"),
        reply: false,
        retweet: false,
    };
    assert_eq!(traits::Summary::summarize(&tweet), "horse_ebooks: of course, as you probably already know, people");
    assert_eq!(Summary2::summarize(&tweet), "(Read more...)");
    assert_eq!(tweet.summarize_author(), "@horse_ebooks");
    let article = traits::NewsArticle {
        headline: String::from("Headline"),
        location: String::from("Here"),
        author: String::from("Iceburgh"),
        content: String::from("Text"),
    };
    assert_eq!(traits::Summary::summarize(&article), "Headline, by Iceburgh (Here)");
    assert_eq!(Summary2::summarize(&article), "(Read more...)");
    assert_eq!(article.summarize_author(), "@Iceburgh");
    assert_eq!(traits::Summary::summarize(&traits::returns_summarizable()), traits::Summary::summarize(&tweet));
    assert_eq!(traits::some_function(&Summed, &1), 0);
    assert_eq!(Summary2::summarize(&Summed), "(Read more...)");
    assert_eq!(Summed.summarize_author(), "@nobody");
}

#[derive(Clone)]
struct Summed;

impl traits::Summary for Summed {
    fn summarize(&self) -> String {
        String::from("summed")
    }
}

impl Summary2 for Summed {
    fn summarize_author(&self) -> String {
        String::from("@nobody")
    }
}

#[test]
fn points_add_up() {
    let sum = traits::Point { x: 1, y: 2 } + traits::Point { x: 3, y: 4 };
    assert_eq!(sum, traits::Point { x: 4, y: 6 });
    let sum = traits::Point { x: -1, y: i32::MAX } + traits::Point { x: 1, y: 0 };
    assert_eq!(sum, traits::Point { x: 0, y: i32::MAX });
}

#[test]
fn the_counter_counts_to_five() {
    let mut counter = Counter::new();
    assert_eq!(counter.count, 0);
    assert_eq!(counter.next(), Some(1));
    assert_eq!(counter.next(), Some(2));
    assert_eq!(counter.next(), Some(3));
    assert_eq!(counter.next(), Some(4));
    assert_eq!(counter.next(), Some(5));
    assert_eq!(counter.next(), None);
    assert_eq!(counter.next(), None);
    assert_eq!(counter.count, 7);
}

#[test]
fn the_longer_text() {
    assert_eq!(longest("long string is long", "xyz"), "long string is long");
    assert_eq!(longest("abcd", "xyz"), "abcd");
    assert_eq!(longest("abc", "xyz"), "xyz");
    assert_eq!(longest("", "x"), "x");
    assert_eq!(longest_of_three("ab", "xyz"), "ab");
    assert_eq!(longest_of_three("abcd", "xyz"), "abcd");
}

#[test]
fn the_first_word() {
    assert_eq!(first_word("hello world"), "hello");
    assert_eq!(first_word("hello"), "hello");
    assert_eq!(first_word(""), "");
    assert_eq!(first_word(" leading"), "");
    assert_eq!(first_word("héllo wörld"), "héllo");
    assert_eq!(first_word("a b c"), "a");
    assert_eq!(first_word_end(b"hello world"), 5);
    assert_eq!(first_word_end(b"hello"), 5);
    assert_eq!(first_word_end(b""), 0);
    assert_eq!(first_word_end(b"  "), 0);
    assert_eq!(first_word_iter(&["one", "two"]), Some("one"));
    assert_eq!(first_word_iter(&[]), None);
}

#[test]
fn excerpts_and_strings() {
    let novel = String::from("Call me Ishmael. Some years ago...");
    let first_sentence = novel.split('.').next().unwrap();
    let excerpt = ImportantExcerpt { part: first_sentence };
    assert_eq!(excerpt.level(), 3);
    assert_eq!(excerpt.return_part(), "Call me Ishmael");
    let mut s = String::from("text");
    change_string(&mut s);
    assert_eq!(s, "text changed");
    assert_eq!(no_dangle(), "hello");
}

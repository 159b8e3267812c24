use code_context_menus::text::{compare_text, query_is_case_sensitive, split_words};
use std::cmp::Ordering;

#[test]
fn test_split_words() {
    fn split(text: &str) -> Vec<&str> {
        split_words(text)
    }

    assert_eq!(split("HelloWorld"), &["Hello", "World"]);
    assert_eq!(split("hello_world"), &["hello_", "world"]);
    assert_eq!(split("_hello_world_"), &["_", "hello_", "world_"]);
    assert_eq!(split("Hello_World"), &["Hello_", "World"]);
    assert_eq!(split("helloWOrld"), &["hello", "WOrld"]);
    assert_eq!(split("helloworld"), &["helloworld"]);

    assert_eq!(split(":do_the_thing"), &[":", "do_", "the_", "thing"]);
}

#[test]
fn split_words_of_empty_text_is_empty() {
    assert!(split_words("").is_empty());
}

#[test]
fn uppercase_makes_a_query_case_sensitive() {
    assert!(query_is_case_sensitive("Creat"));
    assert!(query_is_case_sensitive("creAt"));
    assert!(!query_is_case_sensitive("creat"));
    assert!(!query_is_case_sensitive(""));
}

#[test]
fn texts_compare_by_character() {
    assert_eq!(compare_text("a", "b"), Ordering::Less);
    assert_eq!(compare_text("ab", "a"), Ordering::Greater);
    assert_eq!(compare_text("abc", "abc"), Ordering::Equal);
    assert_eq!(compare_text("", "a"), Ordering::Less);
}

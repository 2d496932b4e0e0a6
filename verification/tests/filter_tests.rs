use rrgen::filters::{camel_case, kebab_case, lower_camel_case, pascal_case, plural, snake_case};

#[test]
fn snake_case_joins_lower_case_words_by_underscores() {
    assert_eq!(snake_case("HelloWorld".to_string()), "hello_world");
    assert_eq!(snake_case("email stats".to_string()), "email_stats");
}

#[test]
fn camel_case_starts_with_a_lower_case_word() {
    assert_eq!(camel_case("hello_world".to_string()), "helloWorld");
}

#[test]
fn lower_camel_case_starts_with_a_lower_case_word() {
    assert_eq!(lower_camel_case("Hello World".to_string()), "helloWorld");
}

#[test]
fn kebab_case_joins_lower_case_words_by_hyphens() {
    assert_eq!(kebab_case("HelloWorld".to_string()), "hello-world");
}

#[test]
fn pascal_case_capitalises_every_word() {
    assert_eq!(pascal_case("hello_world".to_string()), "HelloWorld");
}

#[test]
fn plural_of_common_nouns() {
    assert_eq!(plural("post".to_string()), "posts");
    assert_eq!(plural("category".to_string()), "categories");
    assert_eq!(plural("email_stat".to_string()), "email_stats");
}

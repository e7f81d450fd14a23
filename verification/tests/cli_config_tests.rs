use yummy_indexing::cli::{menu_choice, MenuChoice};
use yummy_indexing::config::{env_file_for, schedule_key};
use yummy_indexing::pool::get_mysql_pool;
use yummy_indexing::error::IndexingError;

#[test]
fn menu_choice_selects_by_number() {
    assert_eq!(menu_choice("2\n", 3), MenuChoice::Selected(1));
    assert_eq!(menu_choice("  1  ", 3), MenuChoice::Selected(0));
    assert_eq!(menu_choice("+3", 3), MenuChoice::Selected(2));
    assert_eq!(menu_choice("\u{3000}1\u{a0}", 1), MenuChoice::Selected(0));
}

#[test]
fn menu_choice_out_of_range() {
    assert_eq!(menu_choice("0", 3), MenuChoice::OutOfRange(0));
    assert_eq!(menu_choice("4", 3), MenuChoice::OutOfRange(4));
    assert_eq!(menu_choice("-1\r\n", 3), MenuChoice::OutOfRange(-1));
    assert_eq!(menu_choice("2147483647", 3), MenuChoice::OutOfRange(2147483647));
    assert_eq!(menu_choice("-2147483648", 3), MenuChoice::OutOfRange(-2147483648));
}

#[test]
fn menu_choice_not_a_number() {
    assert_eq!(menu_choice("", 3), MenuChoice::NotANumber);
    assert_eq!(menu_choice("abc", 3), MenuChoice::NotANumber);
    assert_eq!(menu_choice("1 2", 3), MenuChoice::NotANumber);
    assert_eq!(menu_choice("+", 3), MenuChoice::NotANumber);
    assert_eq!(menu_choice("--1", 3), MenuChoice::NotANumber);
    assert_eq!(menu_choice("2147483648", 3), MenuChoice::NotANumber);
    assert_eq!(menu_choice("99999999999999999999", 3), MenuChoice::NotANumber);
    assert_eq!(menu_choice("12x", 3), MenuChoice::NotANumber);
}

#[test]
fn menu_choice_agrees_with_std_parse() {
    for input in ["7", " 42 ", "-0", "+0", "x1", "\t13\n", "0012", "3.0", "٣"] {
        let expected = match input.trim().parse::<i32>() {
            Ok(n) if n > 0 && n <= 20 => MenuChoice::Selected((n - 1) as usize),
            Ok(n) => MenuChoice::OutOfRange(n),
            Err(_) => MenuChoice::NotANumber,
        };
        assert_eq!(menu_choice(input, 20), expected, "input {:?}", input);
    }
}

#[test]
fn env_file_choice() {
    assert_eq!(env_file_for(Some("prod")), ".env.prod");
    assert_eq!(env_file_for(Some("dev")), ".env.dev");
    assert_eq!(env_file_for(Some("staging")), ".env.dev");
    assert_eq!(env_file_for(None), ".env.dev");
}

#[test]
fn schedule_key_concatenates() {
    assert_eq!(schedule_key("yummy-index", "store_static_index"), "yummy-indexstore_static_index");
}

#[test]
fn pool_checkout_outcome() {
    assert_eq!(get_mysql_pool::<u8>(Ok(5)), Ok(5));
    assert_eq!(
        get_mysql_pool::<u8>(Err("timed out waiting for connection".to_string())),
        Err(IndexingError::ConnectionPool("timed out waiting for connection".to_string()))
    );
}

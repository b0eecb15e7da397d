use minigrep::arith::add;
use minigrep::rectangles::Rectangle;
use minigrep::restaurant::Apetizer;
use minigrep::restaurant::Breakfast;
use minigrep::restaurant::eat_at_restaurant;
use minigrep::restaurant::fix_incorrect_order;

#[test]
fn exploration() {
    let result = add(2, 2);
    assert_eq!(result, 4);
}

#[test]
fn larger_can_hold_smaller() {
    let r1 = Rectangle { width: 3, height: 3 };

    let r2 = Rectangle { width: 1, height: 1 };

    assert!(r1.can_hold(&r2));
}

#[test]
fn smaller_cannot_hold_larger() {
    let r1 = Rectangle { width: 3, height: 3 };

    let r2 = Rectangle { width: 1, height: 1 };

    assert!(!r2.can_hold(&r1));
}

#[test]
fn it_works() -> Result<(), String> {
    let result = add(2, 2);

    if result == 4 {
        Ok(())
    } else {
        Err(String::from("two plus two does not equal four"))
    }
}

#[test]
fn area_multiplies_the_sides() {
    let rect = Rectangle { width: 9, height: 4 };
    assert_eq!(36, rect.area());
}

#[test]
fn summer_breakfast_takes_the_requested_toast() {
    let meal = Breakfast::summer("Rye");
    assert_eq!("Rye", meal.toast);
}

#[test]
fn appetizers_are_distinct() {
    assert_ne!(Apetizer::Soup, Apetizer::Salad);
    assert_eq!(Apetizer::Soup, Apetizer::Soup);
}

#[test]
fn restaurant_chores_run() {
    eat_at_restaurant();
    fix_incorrect_order();
}

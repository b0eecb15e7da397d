//! A module-visibility exercise around a small restaurant: a breakfast
//! order with a fixed seasonal fruit, an appetizer choice, and a handful of
//! kitchen chores.

use vstd::prelude::*;

verus! {

/// The appetizer choices on the menu.
#[derive(Debug, Clone, Copy, PartialEq, Eq, Structural)]
pub enum Apetizer {
    Soup,
    Salad,
}

/// A breakfast order: the customer picks the toast, the kitchen picks the
/// seasonal fruit.
pub struct Breakfast {
    pub toast: String,
    seasonal_fruit: String,
}

impl Breakfast {
    /// The toast the customer picked.
    pub closed spec fn spec_toast(&self) -> Seq<char> {
        self.toast@
    }

    /// The fruit the kitchen chose for this order.
    pub closed spec fn fruit(&self) -> Seq<char> {
        self.seasonal_fruit@
    }

    /// A summer breakfast: the requested toast, with peaches.
    pub fn summer(toast: &str) -> (r: Breakfast)
        ensures
            r.spec_toast() == toast@,
            r.fruit() == "peaches"@,
    {
        Breakfast { toast: toast.to_owned(), seasonal_fruit: "peaches".to_owned() }
    }
}

/// Puts the customer on the waiting list. The list itself lives outside
/// this exercise, so there is nothing further to record.
pub fn add_to_waitlist() {
}

/// Hands a finished order to the customer.
pub fn deliver_order() {
}

/// Prepares an order.
pub fn cook_order() {
}

/// Cooks a replacement order and delivers it.
pub fn fix_incorrect_order() {
    cook_order();
    deliver_order();
}

/// A customer's visit: joining the waiting list.
pub fn eat_at_restaurant() {
    add_to_waitlist();
}

} // verus!

//! The outcome of an election: for each class, its members in the order decided.

use crate::config::ModelClass;
use crate::ir::copy_strings;
use crate::views;
use vstd::prelude::*;

verus! {

broadcast use crate::views::group_views;

/// The order decided for one class, best first.
#[derive(Debug, PartialEq)]
pub struct ClassOrder {
    pub class: ModelClass,
    pub ids: Vec<String>,
}

pub struct OrderV {
    pub class: ModelClass,
    pub ids: Seq<Seq<char>>,
}

impl View for ClassOrder {
    type V = OrderV;

    open spec fn view(&self) -> OrderV {
        OrderV { class: self.class, ids: views::of(self.ids@) }
    }
}

/// One election. It holds until the next.
#[derive(Debug, PartialEq)]
pub struct Election {
    pub orders: Vec<ClassOrder>,
}

impl View for Election {
    type V = Seq<OrderV>;

    open spec fn view(&self) -> Seq<OrderV> {
        views::of(self.orders@)
    }
}

/// The first order from `i` on for a class.
pub open spec fn order_from(orders: Seq<OrderV>, class: ModelClass, i: int) -> Option<Seq<Seq<char>>>
    decreases orders.len() - i,
{
    if i < 0 || i >= orders.len() {
        None
    } else if orders[i].class == class {
        Some(orders[i].ids)
    } else {
        order_from(orders, class, i + 1)
    }
}

impl Election {
    /// The order decided for a class.
    pub fn order_for(&self, class: ModelClass) -> (r: Option<&Vec<String>>)
        ensures
            match r {
                Some(ids) => order_from(self@, class, 0) == Some(views::of(ids@)),
                None => order_from(self@, class, 0) is None,
            },
    {
        let ghost all = self@;
        for i in 0..self.orders.len()
            invariant
                all == views::of(self.orders@),
                order_from(all, class, 0) == order_from(all, class, i as int),
        {
            assert(all[i as int] == self.orders@[i as int]@);
            if self.orders[i].class == class {
                return Some(&self.orders[i].ids);
            }
        }
        None
    }
}

impl Clone for Election {
    fn clone(&self) -> (r: Self)
        ensures
            r@ == self@,
    {
        let mut orders: Vec<ClassOrder> = Vec::new();
        for i in 0..self.orders.len()
            invariant
                orders@.len() == i,
                forall|j: int| 0 <= j < i ==> (#[trigger] orders@[j])@ == self.orders@[j]@,
        {
            orders.push(ClassOrder { class: self.orders[i].class, ids: copy_strings(&self.orders[i].ids) });
        }
        assert(views::of(orders@) =~= views::of(self.orders@));
        Election { orders }
    }
}

} // verus!

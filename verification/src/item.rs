//! The things a user picks from.

use vstd::prelude::*;

verus! {

/// One candidate: `key` is what is shown and matched, `value` is what is
/// handed out when the candidate is chosen.
#[derive(Debug, PartialEq, Eq)]
pub struct Item {
    pub key: String,
    pub value: String,
}

/// An [`Item`] as contracts see it.
pub ghost struct ItemView {
    pub key: Seq<char>,
    pub value: Seq<char>,
}

impl View for Item {
    type V = ItemView;

    open spec fn view(&self) -> ItemView {
        ItemView { key: self.key@, value: self.value@ }
    }
}

impl Clone for Item {
    fn clone(&self) -> (r: Self)
        ensures
            r@ == self@,
    {
        Item { key: self.key.clone(), value: self.value.clone() }
    }
}

impl Item {
    /// An item shown as `key` that stands for `value`.
    pub fn new(key: String, value: String) -> (r: Item)
        ensures
            r@ == (ItemView { key: key@, value: value@ }),
    {
        Item { key, value }
    }

    /// An item of plain text, which is shown as what it stands for.
    pub fn plain(text: String) -> (r: Item)
        ensures
            r@ == (ItemView { key: text@, value: text@ }),
    {
        let key = text.clone();
        Item { key, value: text }
    }
}

/// The views of `items`, in order.
pub open spec fn views(items: Seq<Item>) -> Seq<ItemView> {
    items.map_values(|item: Item| item@)
}

} // verus!

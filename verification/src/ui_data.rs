//! The state of one picking session and the steps that change it.

use vstd::prelude::*;
use vstd::string::StringExecFns;
use crate::item::{views, Item, ItemView};
use crate::item_filter::{lemma_empty_query_matches, ItemFilter, ItemFilters};
use crate::selector::clamp;

verus! {

/// Those of `items` whose key matches `text` under `item_filter`, in the
/// order in which `items` holds them.
pub open spec fn visible(text: Seq<char>, items: Seq<ItemView>, item_filter: ItemFilters) -> Seq<
    ItemView,
> {
    items.filter(|item: ItemView| item_filter.matches(text, item.key))
}

/// `places` names, for each element of `part` in turn, a position of
/// `whole` that holds it, each position further right than the one before.
pub open spec fn picks<T>(places: Seq<int>, part: Seq<T>, whole: Seq<T>) -> bool {
    &&& places.len() == part.len()
    &&& forall|i: int| 0 <= i < places.len() ==> 0 <= #[trigger] places[i] < whole.len()
    &&& forall|i: int, j: int| 0 <= i < j < places.len() ==> places[i] < places[j]
    &&& forall|i: int| 0 <= i < places.len() ==> part[i] == whole[#[trigger] places[i]]
}

/// `part` is what is left of `whole` when some of its elements are taken
/// out and the others keep their order.
pub open spec fn is_subsequence_of<T>(part: Seq<T>, whole: Seq<T>) -> bool {
    exists|places: Seq<int>| picks(places, part, whole)
}

/// The positions in `items` of the items that are visible, in rising order.
proof fn visible_places(text: Seq<char>, items: Seq<ItemView>, item_filter: ItemFilters) -> (places:
    Seq<int>)
    ensures
        picks(places, visible(text, items, item_filter), items),
        forall|j: int|
            0 <= j < items.len() ==> (item_filter.matches(text, #[trigger] items[j].key)
                <==> places.contains(j)),
    decreases items.len(),
{
    reveal(Seq::filter);
    if items.len() == 0 {
        Seq::empty()
    } else {
        let front = items.drop_last();
        let earlier = visible_places(text, front, item_filter);
        let last = items.len() - 1;
        if item_filter.matches(text, items.last().key) {
            let places = earlier.push(last);
            assert forall|j: int| 0 <= j < items.len() implies (item_filter.matches(
                text,
                #[trigger] items[j].key,
            ) <==> places.contains(j)) by {
                if j < last {
                    assert(items[j] == front[j]);
                    if earlier.contains(j) {
                        let i = choose|i: int| 0 <= i < earlier.len() && earlier[i] == j;
                        assert(places[i] == j);
                    }
                    if places.contains(j) {
                        let i = choose|i: int| 0 <= i < places.len() && places[i] == j;
                        assert(earlier[i] == j);
                    }
                } else {
                    assert(places[earlier.len() as int] == j);
                }
            }
            places
        } else {
            assert forall|j: int| 0 <= j < items.len() implies (item_filter.matches(
                text,
                #[trigger] items[j].key,
            ) <==> earlier.contains(j)) by {
                if j < last {
                    assert(items[j] == front[j]);
                }
            }
            earlier
        }
    }
}

/// The visible items are a subsequence of all items: each of them is an
/// item of the session, and they stand in the order in which the session
/// holds them. They are the items whose key matches the text, all of them
/// and no others. What is visible depends on the text, the items and the
/// way of matching alone, so asking twice gives the same answer.
pub proof fn lemma_visible_is_subsequence(
    text: Seq<char>,
    items: Seq<ItemView>,
    item_filter: ItemFilters,
)
    ensures
        is_subsequence_of(visible(text, items, item_filter), items),
        exists|places: Seq<int>|
            picks(places, visible(text, items, item_filter), items) && forall|j: int|
                0 <= j < items.len() ==> (item_filter.matches(text, #[trigger] items[j].key)
                    <==> places.contains(j)),
        visible(text, items, item_filter).len() <= items.len(),
{
    let places = visible_places(text, items, item_filter);
    items.lemma_filter_len(|item: ItemView| item_filter.matches(text, item.key));
}

/// With nothing typed every item is visible.
pub proof fn lemma_empty_text_shows_all(items: Seq<ItemView>, item_filter: ItemFilters)
    ensures
        visible(Seq::empty(), items, item_filter) == items,
    decreases items.len(),
{
    reveal(Seq::filter);
    if items.len() > 0 {
        lemma_empty_text_shows_all(items.drop_last(), item_filter);
        lemma_empty_query_matches(item_filter, items.last().key);
        assert(items.drop_last().push(items.last()) == items);
    }
}

/// What a user can do in a session.
#[derive(Clone, Debug, PartialEq, Eq)]
pub enum Action {
    /// Type some text.
    Insert(String),
    /// Delete the last character typed.
    Backspace,
    /// Select the next visible item.
    Next,
    /// Select the visible item before.
    Previous,
    /// Take the selected item's key as the text.
    Complete,
    /// Choose the selected item and end the session.
    Confirm,
    /// End the session without a choice.
    Cancel,
}

/// An [`Action`] as contracts see it.
pub ghost enum ActionView {
    Insert(Seq<char>),
    Backspace,
    Next,
    Previous,
    Complete,
    Confirm,
    Cancel,
}

impl View for Action {
    type V = ActionView;

    open spec fn view(&self) -> ActionView {
        match self {
            Action::Insert(text) => ActionView::Insert(text@),
            Action::Backspace => ActionView::Backspace,
            Action::Next => ActionView::Next,
            Action::Previous => ActionView::Previous,
            Action::Complete => ActionView::Complete,
            Action::Confirm => ActionView::Confirm,
            Action::Cancel => ActionView::Cancel,
        }
    }
}

/// What a session does after one action.
#[derive(Clone, Debug, PartialEq, Eq)]
pub enum Outcome {
    /// The session goes on.
    Continue,
    /// The session ends with the value of the chosen item, or with nothing
    /// if no item was visible.
    Confirmed(Option<String>),
    /// The session ends without a choice.
    Cancelled,
}

/// An [`Outcome`] as contracts see it.
pub ghost enum OutcomeView {
    Continue,
    Confirmed(Option<Seq<char>>),
    Cancelled,
}

impl View for Outcome {
    type V = OutcomeView;

    open spec fn view(&self) -> OutcomeView {
        match self {
            Outcome::Continue => OutcomeView::Continue,
            Outcome::Confirmed(Some(value)) => OutcomeView::Confirmed(Some(value@)),
            Outcome::Confirmed(None) => OutcomeView::Confirmed(None),
            Outcome::Cancelled => OutcomeView::Cancelled,
        }
    }
}

/// A session as contracts see it.
pub ghost struct AppDataView {
    /// The text typed so far.
    pub text: Seq<char>,
    /// Every item of the session, in the order given at the start.
    pub items: Seq<ItemView>,
    /// The place of the selected item among the visible ones.
    pub selection: nat,
    /// How text is matched against keys.
    pub item_filter: ItemFilters,
}

impl AppDataView {
    /// The items that match the text typed so far.
    pub open spec fn visible_items(self) -> Seq<ItemView> {
        visible(self.text, self.items, self.item_filter)
    }

    /// The selection points at a visible item, or at 0 where none is
    /// visible.
    pub open spec fn selection_in_range(self) -> bool {
        if self.visible_items().len() == 0 {
            self.selection == 0
        } else {
            self.selection < self.visible_items().len()
        }
    }

    /// The selected item, if any item is visible.
    pub open spec fn selected(self) -> Option<ItemView> {
        if self.selection < self.visible_items().len() {
            Some(self.visible_items()[self.selection as int])
        } else {
            None
        }
    }

    /// The value of the selected item, if any item is visible.
    pub open spec fn selected_value(self) -> Option<Seq<char>> {
        match self.selected() {
            Some(item) => Some(item.value),
            None => None,
        }
    }

    /// The session after `chars` was typed.
    pub open spec fn insert(self, chars: Seq<char>) -> AppDataView {
        AppDataView { text: self.text + chars, selection: 0, ..self }
    }

    /// The session after the last character was deleted.
    pub open spec fn delete_backward(self) -> AppDataView {
        AppDataView {
            text: if self.text.len() > 0 {
                self.text.drop_last()
            } else {
                self.text
            },
            selection: 0,
            ..self
        }
    }

    /// The session after a step to the next visible item.
    pub open spec fn next(self) -> AppDataView {
        let count = self.visible_items().len();
        AppDataView {
            selection: if count == 0 {
                self.selection
            } else if self.selection + 1 <= count - 1 {
                self.selection + 1
            } else {
                (count - 1) as nat
            },
            ..self
        }
    }

    /// The session after a step to the visible item before.
    pub open spec fn previous(self) -> AppDataView {
        AppDataView {
            selection: if self.selection >= 1 {
                (self.selection - 1) as nat
            } else {
                0
            },
            ..self
        }
    }

    /// The session after the selected item's key was taken as the text.
    pub open spec fn complete(self) -> AppDataView {
        match self.selected() {
            Some(item) => AppDataView { text: item.key, selection: 0, ..self },
            None => self,
        }
    }

    /// The session after `action`. Confirming and cancelling end the
    /// session and change nothing in it.
    pub open spec fn apply(self, action: ActionView) -> AppDataView {
        match action {
            ActionView::Insert(chars) => self.insert(chars),
            ActionView::Backspace => self.delete_backward(),
            ActionView::Next => self.next(),
            ActionView::Previous => self.previous(),
            ActionView::Complete => self.complete(),
            ActionView::Confirm => self,
            ActionView::Cancel => self,
        }
    }

    /// What `action` yields in this session.
    pub open spec fn outcome(self, action: ActionView) -> OutcomeView {
        match action {
            ActionView::Confirm => OutcomeView::Confirmed(self.selected_value()),
            ActionView::Cancel => OutcomeView::Cancelled,
            _ => OutcomeView::Continue,
        }
    }
}

/// Whatever a user does, the selection stays on a visible item, or at 0
/// where none is visible: a step past the last or before the first item
/// leaves the selection where it is.
pub proof fn lemma_apply_keeps_selection_in_range(session: AppDataView, action: ActionView)
    requires
        session.selection_in_range(),
    ensures
        session.apply(action).selection_in_range(),
        action is Next ==> session.selection <= session.apply(action).selection <= session.selection
            + 1,
        action is Previous ==> session.apply(action).selection <= session.selection
            <= session.apply(action).selection + 1,
{
}

/// The state of a session: the text typed so far, all items, the way of
/// matching, and which of the visible items is selected. The selection
/// always points at a visible item, or is 0 where none is visible.
pub struct AppData {
    text: String,
    items: Vec<Item>,
    selection: usize,
    item_filter: ItemFilters,
}

impl View for AppData {
    type V = AppDataView;

    closed spec fn view(&self) -> AppDataView {
        AppDataView {
            text: self.text@,
            items: views(self.items@),
            selection: self.selection as nat,
            item_filter: self.item_filter,
        }
    }
}

impl AppData {
    #[verifier::type_invariant]
    pub(crate) open spec fn inv(self) -> bool {
        self@.selection_in_range()
    }

    /// A session over `items` with nothing typed and the first item
    /// selected.
    pub fn new(items: Vec<Item>, item_filter: ItemFilters) -> (r: Self)
        ensures
            r@ == (AppDataView {
                text: Seq::empty(),
                items: views(items@),
                selection: 0,
                item_filter,
            }),
            r@.selection_in_range(),
    {
        AppData { text: String::new(), items, selection: 0, item_filter }
    }

    /// Appends `chars` to the text and selects the first visible item.
    pub fn insert(&mut self, chars: &str)
        ensures
            final(self)@ == old(self)@.insert(chars@),
            final(self)@.selection == 0,
            final(self)@.selection_in_range(),
    {
        let mut text = self.text.clone();
        text.append(chars);
        self.selection = 0;
        self.text = text;
    }

    /// Drops the last character of the text, if there is one, and selects
    /// the first visible item.
    pub fn delete_backward(&mut self)
        ensures
            final(self)@ == old(self)@.delete_backward(),
            final(self)@.selection == 0,
            final(self)@.selection_in_range(),
    {
        let mut text = self.text.clone();
        text.pop();
        self.selection = 0;
        self.text = text;
    }

    /// Moves the selection one visible item on, and leaves it on the last
    /// one. With no item visible nothing changes.
    pub fn next(&mut self)
        ensures
            final(self)@ == old(self)@.next(),
            final(self)@.selection_in_range(),
    {
        proof {
            use_type_invariant(&*self);
        }
        let visible_items = self.visible_items();
        assert(visible_items@.len() == views(visible_items@).len());
        if visible_items.len() > 0 {
            let last = visible_items.len() - 1;
            self.selection = match self.selection.checked_add(1) {
                Some(i) => clamp(0, i, last),
                None => last,
            };
        }
    }

    /// Moves the selection one visible item back, and leaves it on the
    /// first one.
    pub fn previous(&mut self)
        ensures
            final(self)@ == old(self)@.previous(),
            final(self)@.selection_in_range(),
    {
        proof {
            use_type_invariant(&*self);
        }
        self.selection = match self.selection.checked_sub(1) {
            Some(i) => i,
            None => 0,
        };
    }

    /// Replaces the text by the key of the selected item and selects the
    /// first visible item. With no item visible nothing changes.
    pub fn complete(&mut self)
        ensures
            final(self)@ == old(self)@.complete(),
            final(self)@.selection_in_range(),
    {
        proof {
            use_type_invariant(&*self);
        }
        let visible_items = self.visible_items();
        assert(visible_items@.len() == views(visible_items@).len());
        if self.selection < visible_items.len() {
            let text = visible_items[self.selection].key.clone();
            let ghost at = self.selection as int;
            assert(visible_items@[at]@ == views(visible_items@)[at]);
            self.selection = 0;
            self.text = text;
        }
    }

    /// The items that match the text typed so far, in their first order.
    pub fn visible_items(&self) -> (r: Vec<Item>)
        ensures
            views(r@) == self@.visible_items(),
    {
        let mut out: Vec<Item> = Vec::new();
        let mut i: usize = 0;
        while i < self.items.len()
            invariant
                i <= self.items.len(),
                views(out@) == visible(
                    self.text@,
                    views(self.items@.take(i as int)),
                    self.item_filter,
                ),
            decreases self.items.len() - i,
        {
            let item = &self.items[i];
            let keep = self.item_filter.filter(self.text.as_str(), item.key.as_str());
            proof {
                reveal(Seq::filter);
                let before = views(self.items@.take(i as int));
                let after = views(self.items@.take(i as int + 1));
                assert(after.drop_last() == before);
                assert(after.last() == item@);
            }
            if keep {
                let ghost earlier = out@;
                out.push(item.clone());
                assert(views(out@) == views(earlier).push(item@));
            }
            i += 1;
        }
        assert(self.items@.take(i as int) == self.items@);
        out
    }

    /// The selected item, if any item is visible.
    pub fn get_selected_item(&self) -> (r: Option<Item>)
        ensures
            match r {
                Some(item) => self@.selected() == Some(item@),
                None => self@.selected() is None,
            },
            r is Some <==> self@.visible_items().len() > 0,
    {
        proof {
            use_type_invariant(self);
        }
        let items = self.visible_items();
        assert(items@.len() == views(items@).len());
        if self.selection < items.len() {
            assert(items@[self.selection as int]@ == views(items@)[self.selection as int]);
            Some(items[self.selection].clone())
        } else {
            None
        }
    }

    /// The place of the selected item among the visible ones: less than
    /// their number, and 0 where none is visible.
    pub fn get_selected_index(&self) -> (r: usize)
        ensures
            r == self@.selection,
            self@.selection_in_range(),
    {
        proof {
            use_type_invariant(self);
        }
        self.selection
    }

    /// The text typed so far.
    pub fn text(&self) -> (r: &String)
        ensures
            r@ == self@.text,
    {
        &self.text
    }

    /// Performs `action` and says whether the session goes on, and with
    /// what it ends if it does not.
    pub fn apply(&mut self, action: &Action) -> (r: Outcome)
        ensures
            final(self)@ == old(self)@.apply(action@),
            r@ == old(self)@.outcome(action@),
            final(self)@.selection_in_range(),
    {
        proof {
            use_type_invariant(&*self);
        }
        match action {
            Action::Insert(chars) => {
                self.insert(chars.as_str());
                Outcome::Continue
            },
            Action::Backspace => {
                self.delete_backward();
                Outcome::Continue
            },
            Action::Next => {
                self.next();
                Outcome::Continue
            },
            Action::Previous => {
                self.previous();
                Outcome::Continue
            },
            Action::Complete => {
                self.complete();
                Outcome::Continue
            },
            Action::Confirm => {
                match self.get_selected_item() {
                    Some(item) => Outcome::Confirmed(Some(item.value)),
                    None => Outcome::Confirmed(None),
                }
            },
            Action::Cancel => Outcome::Cancelled,
        }
    }
}

} // verus!

//! A picker driven by batches of input events: each batch is applied event
//! by event until one of them ends the session.

use vstd::prelude::*;
use vstd::string::StringExecFns;
use crate::input::{event_views, Event, EventView};
use crate::item::{views, Item};
use crate::item_filter::ItemFilters;
use crate::text::text_view;
use crate::ui_data::{ActionView, AppData, AppDataView, Outcome, OutcomeView};

verus! {

/// `value` held to the range from `low` to `high`: `low` where it lies
/// below, `high` where it lies above.
pub fn clamp(low: usize, value: usize, high: usize) -> (r: usize)
    ensures
        r == if value < low {
            low
        } else if value > high {
            high
        } else {
            value
        },
{
    if value < low {
        low
    } else if value > high {
        high
    } else {
        value
    }
}

/// A picker as contracts see it.
pub ghost struct SelectorView {
    /// The session.
    pub data: AppDataView,
    /// The text shown before what was typed.
    pub prompt: Seq<char>,
    /// Whether the session goes on, and how it ended if it does not.
    pub outcome: OutcomeView,
}

impl SelectorView {
    /// The session has ended.
    pub open spec fn closed(self) -> bool {
        !(self.outcome is Continue)
    }

    /// The value that was chosen, if the session was confirmed with an
    /// item visible.
    pub open spec fn result(self) -> Option<Seq<char>> {
        match self.outcome {
            OutcomeView::Confirmed(value) => value,
            _ => None,
        }
    }

    /// The picker after `action`: an action that ends the session leaves
    /// the session as it is and is kept as the outcome.
    pub open spec fn perform(self, action: ActionView) -> SelectorView {
        SelectorView {
            data: self.data.apply(action),
            outcome: self.data.outcome(action),
            ..self
        }
    }

    /// The picker after one event.
    pub open spec fn on(self, event: EventView) -> SelectorView {
        match event.action() {
            Some(action) => self.perform(action),
            None => self,
        }
    }

    /// The picker after `events`, taken in order. Once the session has
    /// ended, the events that follow change nothing.
    pub open spec fn after(self, events: Seq<EventView>) -> SelectorView
        decreases events.len(),
    {
        if events.len() == 0 || self.closed() {
            self
        } else {
            self.on(events[0]).after(events.drop_first())
        }
    }
}

/// Events may come in one batch or in several: a picker that has seen
/// `first` and then `second` is where it would be after seeing both at
/// once.
pub proof fn lemma_batches_compose(
    picker: SelectorView,
    first: Seq<EventView>,
    second: Seq<EventView>,
)
    ensures
        picker.after(first + second) == picker.after(first).after(second),
    decreases first.len(),
{
    if first.len() == 0 {
        assert(first + second == second);
    } else if picker.closed() {
        assert(picker.after(second) == picker);
    } else {
        assert((first + second)[0] == first[0]);
        assert((first + second).drop_first() == first.drop_first() + second);
        lemma_batches_compose(picker.on(first[0]), first.drop_first(), second);
    }
}

/// A picker: a session, its prompt, and what came of it.
pub struct Selector {
    data: AppData,
    prompt: String,
    outcome: Outcome,
}

impl View for Selector {
    type V = SelectorView;

    closed spec fn view(&self) -> SelectorView {
        SelectorView { data: self.data@, prompt: self.prompt@, outcome: self.outcome@ }
    }
}

impl Selector {
    /// A picker over `items` that has seen no input yet.
    pub fn new(items: Vec<Item>, item_filter: ItemFilters, prompt: String) -> (r: Self)
        ensures
            r@ == (SelectorView {
                data: AppDataView {
                    text: Seq::empty(),
                    items: views(items@),
                    selection: 0,
                    item_filter,
                },
                prompt: prompt@,
                outcome: OutcomeView::Continue,
            }),
    {
        Selector { data: AppData::new(items, item_filter), prompt, outcome: Outcome::Continue }
    }

    /// The items that match the text typed so far.
    pub fn visible_items(&self) -> (r: Vec<Item>)
        ensures
            views(r@) == self@.data.visible_items(),
    {
        self.data.visible_items()
    }

    /// Whether the visible item at `index` is the selected one.
    pub fn is_selection(&self, index: usize) -> (r: bool)
        ensures
            r == (self@.data.selection == index),
            self@.data.selection_in_range(),
    {
        self.data.get_selected_index() == index
    }

    /// The value of the selected item, if any item is visible.
    pub fn selected_item_value(&self) -> (r: Option<String>)
        ensures
            text_view(r) == self@.data.selected_value(),
    {
        match self.data.get_selected_item() {
            Some(item) => Some(item.value),
            None => None,
        }
    }

    /// The line that shows the prompt and the text typed so far, with one
    /// space between them.
    pub fn label(&self) -> (r: String)
        ensures
            r@ == self@.prompt + seq![' '] + self@.data.text,
    {
        let mut line = self.prompt.clone();
        line.push(' ');
        line.append(self.data.text().as_str());
        line
    }

    /// Whether the session goes on, and how it ended if it does not.
    pub fn outcome(&self) -> (r: &Outcome)
        ensures
            r@ == self@.outcome,
    {
        &self.outcome
    }

    /// The value that was chosen, if the session was confirmed with an item
    /// visible.
    pub fn result(&self) -> (r: Option<&String>)
        ensures
            match r {
                Some(value) => self@.result() == Some(value@),
                None => self@.result() is None,
            },
    {
        match &self.outcome {
            Outcome::Confirmed(Some(value)) => Some(value),
            _ => None,
        }
    }

    /// Whether the session has ended.
    pub fn is_closed(&self) -> (r: bool)
        ensures
            r == self@.closed(),
    {
        match &self.outcome {
            Outcome::Continue => false,
            _ => true,
        }
    }

    /// Applies `events` in order and returns whether the session has ended.
    /// Typed text, backspace and the arrow keys change the session; enter
    /// ends it with the selected item's value as the result; escape ends it
    /// without a result. What follows the end of the session is ignored.
    pub fn handle_input(&mut self, events: &Vec<Event>) -> (r: bool)
        ensures
            final(self)@ == old(self)@.after(event_views(events@)),
            r == final(self)@.closed(),
    {
        let mut i: usize = 0;
        assert(event_views(events@).skip(0) == event_views(events@));
        while i < events.len() && !self.is_closed()
            invariant
                i <= events.len(),
                self@.after(event_views(events@).skip(i as int)) == old(self)@.after(
                    event_views(events@),
                ),
            decreases events.len() - i,
        {
            let ghost rest = event_views(events@).skip(i as int);
            assert(rest[0] == events@[i as int]@);
            assert(rest.drop_first() == event_views(events@).skip(i as int + 1));
            match events[i].action() {
                Some(action) => {
                    self.outcome = self.data.apply(&action);
                },
                None => {},
            }
            i += 1;
        }
        self.is_closed()
    }
}

} // verus!

//! A picker driven key press by key press.

use vstd::prelude::*;
use crate::input::{Key, KeyView};
use crate::text::text_view;
use crate::ui_data::{AppData, AppDataView, Outcome};

verus! {

/// Takes key presses for a session and keeps what came of it.
pub struct Delegate {
    /// The value that was chosen, once enter was pressed with an item
    /// visible.
    pub result: Option<String>,
}

impl Delegate {
    /// A delegate that starts from `result`.
    pub fn new(result: Option<String>) -> (r: Self)
        ensures
            r.result == result,
    {
        Self { result }
    }

    /// The session after `key` was pressed.
    pub open spec fn session_after(data: AppDataView, key: KeyView) -> AppDataView {
        match key.action() {
            Some(action) => data.apply(action),
            None => data,
        }
    }

    /// The result after `key` was pressed: enter replaces it by the value
    /// of the selected item, or by nothing where no item is visible; every
    /// other key leaves it.
    pub open spec fn result_after(
        result: Option<Seq<char>>,
        data: AppDataView,
        key: KeyView,
    ) -> Option<Seq<char>> {
        match key {
            KeyView::Enter => data.selected_value(),
            _ => result,
        }
    }

    /// Whether `key` ends the session: escape and enter do.
    pub open spec fn quits(key: KeyView) -> bool {
        key is Escape || key is Enter
    }

    /// Handles one key press on `data` and returns whether the session
    /// ends with it.
    pub fn event(&mut self, key: &Key, data: &mut AppData) -> (quit: bool)
        ensures
            final(data)@ == Self::session_after(old(data)@, key@),
            text_view(final(self).result) == Self::result_after(
                text_view(old(self).result),
                old(data)@,
                key@,
            ),
            quit == Self::quits(key@),
            final(data)@.selection_in_range(),
    {
        proof {
            use_type_invariant(&*data);
        }
        match key.action() {
            Some(action) => {
                match data.apply(&action) {
                    Outcome::Continue => false,
                    Outcome::Confirmed(value) => {
                        self.result = value;
                        true
                    },
                    Outcome::Cancelled => true,
                }
            },
            None => false,
        }
    }
}

} // verus!

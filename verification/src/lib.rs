//! A single-line item picker without its window: which items match the text
//! typed so far, how the selection moves among them, and how often each item
//! was chosen before.

pub mod cli;
pub mod decimal;
pub mod filter;
pub mod history;
pub mod input;
pub mod item;
pub mod item_filter;
pub mod ranking;
pub mod round_trip;
pub mod selector;
pub mod text;
pub mod ui_data;
pub mod ui_delegate;

pub use cli::{hex_from_ascii_byte, parse_color, ColorError, Commands, Effect, EffectView, Rgba};
pub use filter::{keyed_item, writes_largest_index, ExtractionError, Filter};
pub use history::{
    parse_history_file, update, write_history_file, FormatError, FormatErrorKind, HistoryItems,
};
pub use input::{Event, EventView, Key, KeyView, Modifiers};
pub use item::{Item, ItemView};
pub use item_filter::{ContainsFilter, ItemFilter, ItemFilters, SubstringFilter};
pub use ranking::{compare, compare_text, sort, Ranked, RankedView};
pub use selector::{clamp, Selector, SelectorView};
pub use text::{ascii_lower, fold_case};
pub use ui_data::{Action, ActionView, AppData, AppDataView, Outcome, OutcomeView};
pub use ui_delegate::Delegate;

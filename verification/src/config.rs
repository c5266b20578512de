//! The options that the host hands to the checklist.

use vstd::prelude::*;

verus! {

/// What an option's value holds, as seen in contracts.
pub enum ConfigValueView {
    Text(Seq<char>),
    Flag(bool),
    Integer(i64),
    Other,
}

/// What an option holds, as seen in contracts.
pub struct ConfigEntryView {
    pub key: Seq<char>,
    pub value: ConfigValueView,
}

/// The value of an option.
#[derive(Clone, Debug, PartialEq, Eq)]
pub enum ConfigValue {
    /// A string.
    Text(String),
    /// A boolean.
    Flag(bool),
    /// An integer.
    Integer(i64),
    /// A value of any other type.
    Other,
}

impl View for ConfigValue {
    type V = ConfigValueView;

    open spec fn view(&self) -> ConfigValueView {
        match self {
            ConfigValue::Text(s) => ConfigValueView::Text(s@),
            ConfigValue::Flag(b) => ConfigValueView::Flag(*b),
            ConfigValue::Integer(i) => ConfigValueView::Integer(*i),
            ConfigValue::Other => ConfigValueView::Other,
        }
    }
}

/// One option: a key and its value.
#[derive(Clone, Debug, PartialEq, Eq)]
pub struct ConfigEntry {
    pub key: String,
    pub value: ConfigValue,
}

impl View for ConfigEntry {
    type V = ConfigEntryView;

    open spec fn view(&self) -> ConfigEntryView {
        ConfigEntryView { key: self.key@, value: self.value@ }
    }
}

/// The views of a sequence of options.
pub open spec fn entry_views(entries: Seq<ConfigEntry>) -> Seq<ConfigEntryView> {
    entries.map_values(|e: ConfigEntry| e@)
}

/// The key of the option that sets the title of the checklist document.
pub open spec fn title_key() -> Seq<char> {
    "title"@
}

/// The option is one that the checklist reads, and its value is of another
/// type than the option takes. Options with other keys are never invalid.
pub open spec fn is_invalid(entry: ConfigEntryView) -> bool {
    entry.key == title_key() && !(entry.value is Text)
}

/// None of the options is invalid.
pub open spec fn all_valid(entries: Seq<ConfigEntryView>) -> bool {
    forall|k: int| 0 <= k < entries.len() ==> !is_invalid(#[trigger] entries[k])
}

/// The title that the options give to a checklist whose title was
/// `current`: the value of the last option that sets the title, and
/// `current` if there is none.
pub open spec fn configured_title(entries: Seq<ConfigEntryView>, current: Seq<char>) -> Seq<char>
    decreases entries.len(),
{
    if entries.len() == 0 {
        current
    } else {
        match entries.last().value {
            ConfigValueView::Text(text) => if entries.last().key == title_key() {
                text
            } else {
                configured_title(entries.drop_last(), current)
            },
            _ => configured_title(entries.drop_last(), current),
        }
    }
}

} // verus!

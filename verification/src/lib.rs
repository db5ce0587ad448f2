//! Extracts the stat blocks of beasts from the text of rule-book pages.
pub mod chars;
pub mod editor;
pub mod form;
pub mod grammar;
pub mod icons;
pub mod obsidian;
pub mod page_ranges;
pub mod pages;
pub mod structure;
pub mod text;
pub mod token_tree;
pub mod website;

pub use icons::icon_pairs;
pub use obsidian::frontmatter;
pub use page_ranges::{parse_pages, ParsePageError};
pub use structure::{
    Action, ActionKind, Attributes, Beast, Defenses, DescValue, Feature, FromStrError, Movement,
    Ranged, Role, Size, Skill,
};
pub use text::{parse_action, parse_feature, parse_page, try_parse_page};
pub use token_tree::{token_values, tokens_are_nested, Token, Value};

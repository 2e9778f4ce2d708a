pub mod exact_alias;
pub mod fuzzy_alias;
pub mod prefix_alias;
pub mod tag;
pub mod token;
pub mod attribute;
pub mod relationship;

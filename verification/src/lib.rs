mod dice;
mod format;
mod index;
mod phrase;
mod wordlist;

pub use phrase::passphrase;
pub use phrase::phrase_words;
pub use phrase::word_for;
pub use phrase::word_views;
pub use phrase::Entropy;
pub use phrase::Passphrase;
pub use phrase::Passphraser;

pub use dice::roll_dice;
pub use format::capitalized;
pub use format::caps_of;
pub use format::delim_of;
pub use format::formatted;
pub use format::join_with;
pub use format::lemma_format_repeatable;
pub use format::to_capitalized;
pub use format::upper_of;
pub use format::Preset;

pub use index::lemma_to_index_is_numeral;
pub use index::numeral_value;
pub use index::pow10;
pub use index::to_index;
pub use index::to_index_spec;
pub use wordlist::builtin_line;
pub use wordlist::builtin_wordlist;
pub use wordlist::parse_line;
pub use wordlist::split_ws;
pub use wordlist::to_components;
pub use wordlist::to_pair;

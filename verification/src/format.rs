//! Formatting presets and the word-joining rules they stand for.

use vstd::prelude::*;

verus! {

/// Formatting presets.
#[derive(Debug)]
pub enum Preset {
    /// Capitalize every word and join with no delimiter.
    PascalCase,
    /// Join with `-`, words unchanged.
    KebabCase,
    /// Join with `_`, words unchanged.
    SnakeCase,
    /// Format using the given parameters.
    Arbitrary {
        /// Whether to capitalize each word.
        capitalize: bool,
        /// Delimiter to join words with; a space when absent.
        delimiter: Option<String>,
    },
    /// Join with a space, words unchanged.
    Default,
}

/// The delimiter a preset joins words with.
pub open spec fn delim_of(p: Preset) -> Seq<char> {
    match p {
        Preset::PascalCase => ""@,
        Preset::KebabCase => "-"@,
        Preset::SnakeCase => "_"@,
        Preset::Arbitrary { capitalize, delimiter } => match delimiter {
            Some(d) => d@,
            None => " "@,
        },
        Preset::Default => " "@,
    }
}

/// Whether a preset capitalizes each word.
pub open spec fn caps_of(p: Preset) -> bool {
    match p {
        Preset::PascalCase => true,
        Preset::Arbitrary { capitalize, delimiter } => capitalize,
        _ => false,
    }
}

impl Clone for Preset {
    /// A clone formats exactly as the preset it was cloned from.
    fn clone(&self) -> (r: Self)
        ensures
            caps_of(r) == caps_of(*self),
            delim_of(r) == delim_of(*self),
    {
        match self {
            Preset::PascalCase => Preset::PascalCase,
            Preset::KebabCase => Preset::KebabCase,
            Preset::SnakeCase => Preset::SnakeCase,
            Preset::Arbitrary { capitalize, delimiter } => Preset::Arbitrary {
                capitalize: *capitalize,
                delimiter: match delimiter {
                    Some(d) => Some(d.clone()),
                    None => None,
                },
            },
            Preset::Default => Preset::Default,
        }
    }
}

impl Default for Preset {
    fn default() -> (p: Self)
        ensures
            p == Preset::Default,
    {
        Preset::Default
    }
}

fn str_equal(a: &str, b: &str) -> (r: bool)
    ensures
        r == (a@ == b@),
{
    let n: usize = a.unicode_len();
    if n != b.unicode_len() {
        return false;
    }
    let mut i: usize = 0;
    while i < n
        invariant
            0 <= i <= n,
            n == a@.len(),
            n == b@.len(),
            forall|k: int| 0 <= k < i ==> a@[k] == b@[k],
        decreases n - i,
    {
        if a.get_char(i) != b.get_char(i) {
            return false;
        }
        i += 1;
    }
    proof {
        assert(a@ =~= b@);
    }
    true
}

impl Preset {
    /// Creates a `Preset` from a given style name (excepting
    /// `Preset::Arbitrary`); an unknown name means the default style.
    pub fn from(preset_name: &str) -> (p: Self)
        ensures
            p == (if preset_name@ == "pascal"@ {
                Preset::PascalCase
            } else if preset_name@ == "kebab"@ {
                Preset::KebabCase
            } else if preset_name@ == "snake"@ {
                Preset::SnakeCase
            } else {
                Preset::Default
            }),
    {
        if str_equal(preset_name, "pascal") {
            Preset::PascalCase
        } else if str_equal(preset_name, "kebab") {
            Preset::KebabCase
        } else if str_equal(preset_name, "snake") {
            Preset::SnakeCase
        } else {
            Preset::Default
        }
    }
}

/// The Unicode uppercase mapping of a character, which depends on the
/// character alone; it may span several characters.
pub uninterp spec fn upper_of(c: char) -> Seq<char>;

/// Relies on `char::to_uppercase`: the Unicode uppercase mapping of the
/// character, collected into a string.
#[verifier::external_body]
fn char_to_upper(c: char) -> (w: String)
    ensures
        w@ == upper_of(c),
{
    c.to_uppercase().collect()
}

/// A word with its first character uppercased and the rest unchanged.
pub open spec fn capitalized(w: Seq<char>) -> Seq<char> {
    if w.len() == 0 {
        w
    } else {
        upper_of(w[0]) + w.skip(1)
    }
}

/// Every word capitalized.
pub open spec fn cap_words(ws: Seq<Seq<char>>) -> Seq<Seq<char>> {
    ws.map_values(|w: Seq<char>| capitalized(w))
}

/// The words joined in order with the delimiter between neighbours.
pub open spec fn join_with(ws: Seq<Seq<char>>, d: Seq<char>) -> Seq<char>
    decreases ws.len(),
{
    if ws.len() == 0 {
        Seq::empty()
    } else if ws.len() == 1 {
        ws[0]
    } else {
        join_with(ws.drop_last(), d) + d + ws.last()
    }
}

/// What formatting a word sequence under a preset yields: the words,
/// capitalized when the preset says so, joined with its delimiter.
pub open spec fn formatted(ws: Seq<Seq<char>>, p: Preset) -> Seq<char> {
    join_with(if caps_of(p) { cap_words(ws) } else { ws }, delim_of(p))
}

/// Formatting is repeatable: two applications of the same preset to the
/// same stored words yield the same string, character for character.
pub proof fn lemma_format_repeatable(ws: Seq<Seq<char>>, p: Preset, r1: Seq<char>, r2: Seq<char>)
    requires
        r1 == formatted(ws, p),
        r2 == formatted(ws, p),
    ensures
        r1 == r2,
{
}

/// Capitalizes the first character of the given string.
pub fn to_capitalized(s: &str) -> (w: String)
    ensures
        w@ == capitalized(s@),
{
    let n: usize = s.unicode_len();
    if n == 0 {
        return String::new();
    }
    let first = s.get_char(0);
    let mut w = char_to_upper(first);
    let rest = s.substring_char(1, n);
    w.append(rest);
    proof {
        assert(s@.subrange(1, n as int) =~= s@.skip(1));
    }
    w
}

} // verus!

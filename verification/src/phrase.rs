//! Passphrase assembly: rolls resolved against a wordlist, entropy data,
//! and the generated phrase with its formatting.

use vstd::prelude::*;

use crate::dice::roll_dice;
use crate::format::cap_words;
use crate::format::caps_of;
use crate::format::delim_of;
use crate::format::formatted;
use crate::format::join_with;
use crate::format::to_capitalized;
use crate::format::Preset;
use crate::index::digit_fold;
use crate::index::lemma_to_index_bound;
use crate::index::lemma_to_index_nonneg;
use crate::index::pow10;
use crate::index::to_index_spec;
use crate::wordlist::builtin_line;
use crate::wordlist::builtin_wordlist;
use crate::wordlist::parse_line;
use crate::wordlist::split_ws;
use crate::wordlist::to_components;
use crate::wordlist::to_pair;

verus! {

/// The character sequences of a sequence of strings.
pub open spec fn word_views(ws: Seq<String>) -> Seq<Seq<char>> {
    ws.map_values(|w: String| w@)
}

/// The word of the first line whose parsed index equals `idx`; `None`
/// when no line parses to that index.
pub open spec fn word_for(lines: Seq<Seq<char>>, idx: usize) -> Option<Seq<char>>
    decreases lines.len(),
{
    if lines.len() == 0 {
        None
    } else {
        match parse_line(lines.first()) {
            Some(p) => if p.0 == idx {
                Some(p.1)
            } else {
                word_for(lines.skip(1), idx)
            },
            None => word_for(lines.skip(1), idx),
        }
    }
}

/// The words a roll sequence resolves to, in roll order; a roll whose
/// index no line holds contributes nothing.
pub open spec fn phrase_words(lines: Seq<Seq<char>>, rolls: Seq<Seq<usize>>) -> Seq<Seq<char>>
    decreases rolls.len(),
{
    if rolls.len() == 0 {
        Seq::empty()
    } else {
        let prev = phrase_words(lines, rolls.drop_last());
        match word_for(lines, to_index_spec(rolls.last()) as usize) {
            Some(w) => prev.push(w),
            None => prev,
        }
    }
}

/// Given a wordlist and dice rolls, resolves each roll in order to the
/// word of the first line carrying its index, skipping unresolved rolls.
pub fn passphrase(lines: &[String], dice_rolls: Vec<Vec<usize>>) -> (words: Vec<String>)
    requires
        forall|i: int|
            0 <= i < dice_rolls@.len() ==> to_index_spec(
                (#[trigger] dice_rolls@[i])@,
            ) <= usize::MAX,
    ensures
        word_views(words@) == phrase_words(
            word_views(lines@),
            dice_rolls@.map_values(|r: Vec<usize>| r@),
        ),
{
    let ghost lv = word_views(lines@);
    let ghost rv = dice_rolls@.map_values(|r: Vec<usize>| r@);
    let mut words: Vec<String> = Vec::new();
    let mut i: usize = 0;
    while i < dice_rolls.len()
        invariant
            0 <= i <= dice_rolls@.len(),
            lv == word_views(lines@),
            lv.len() == lines@.len(),
            rv == dice_rolls@.map_values(|r: Vec<usize>| r@),
            rv.len() == dice_rolls@.len(),
            forall|a: int|
                0 <= a < dice_rolls@.len() ==> to_index_spec(
                    (#[trigger] dice_rolls@[a])@,
                ) <= usize::MAX,
            word_views(words@) == phrase_words(lv, rv.take(i as int)),
        decreases dice_rolls@.len() - i,
    {
        proof {
            assert(rv[i as int] == dice_rolls@[i as int]@);
            lemma_to_index_nonneg(dice_rolls@[i as int]@);
        }
        let idx = digit_fold(&dice_rolls[i]);
        let mut found: Option<String> = None;
        let mut j: usize = 0;
        proof {
            assert(lv.skip(0) =~= lv);
        }
        while j < lines.len()
            invariant
                0 <= j <= lines@.len(),
                lv == word_views(lines@),
                lv.len() == lines@.len(),
                found is None ==> word_for(lv, idx) == word_for(lv.skip(j as int), idx),
                found matches Some(w) ==> word_for(lv, idx) == Some(w@),
            decreases lines@.len() - j,
        {
            if found.is_none() {
                proof {
                    assert(lv.skip(j as int).first() == lv[j as int]);
                    assert(lv[j as int] == lines@[j as int]@);
                    assert(lv.skip(j as int).skip(1) =~= lv.skip(j + 1));
                }
                let comps = to_components(lines[j].as_str());
                let pair = to_pair(comps);
                proof {
                    assert(comps@.map_values(|w: &str| w@) == split_ws(lines@[j as int]@));
                }
                match pair {
                    Some(p) => {
                        if p.0 == idx {
                            found = Some(p.1);
                        }
                    },
                    None => {},
                }
            }
            j += 1;
        }
        proof {
            assert(lv.skip(lines@.len() as int) =~= Seq::<Seq<char>>::empty());
            assert(rv.take(i + 1).drop_last() =~= rv.take(i as int));
            assert(rv.take(i + 1).last() == rv[i as int]);
        }
        let ghost before = word_views(words@);
        match found {
            Some(w) => {
                words.push(w);
                proof {
                    assert(word_views(words@) =~= before.push(w@));
                }
            },
            None => {},
        }
        i += 1;
    }
    proof {
        assert(rv.take(rv.len() as int) =~= rv);
    }
    words
}

/// Entropy data of a generated passphrase: how many words could be drawn
/// at each position, and how many positions the phrase has. The bits of
/// entropy follow from these two numbers alone.
#[derive(Debug, Clone, Copy, PartialEq, Eq, Structural)]
pub struct Entropy {
    /// How many unique words (possibilities) the wordlist offered.
    pub possibilities: usize,
    /// How many words the phrase was generated with.
    pub phrase_length: usize,
}

impl Entropy {
    pub fn new(possibilities: usize, phrase_length: usize) -> (e: Entropy)
        ensures
            e.possibilities == possibilities,
            e.phrase_length == phrase_length,
    {
        Entropy { possibilities, phrase_length }
    }
}

/// Contains generated passphrase words, the formatting preset chosen at
/// generation time, and the entropy data. Immutable once created:
/// formatting reads the stored words and never changes them.
#[derive(Debug)]
pub struct Passphrase {
    preset: Preset,
    entropy: Entropy,
    words: Vec<String>,
}

impl Passphrase {
    /// The stored words, as character sequences.
    pub closed spec fn spec_words(self) -> Seq<Seq<char>> {
        word_views(self.words@)
    }

    /// The preset chosen when the phrase was created.
    pub closed spec fn spec_preset(self) -> Preset {
        self.preset
    }

    /// The entropy data computed when the phrase was created.
    pub closed spec fn spec_entropy(self) -> Entropy {
        self.entropy
    }

    /// Assembles a passphrase value from already-resolved words.
    pub fn new(words: Vec<String>, preset: Preset, entropy: Entropy) -> (p: Passphrase)
        ensures
            p.spec_words() == word_views(words@),
            p.spec_preset() == preset,
            p.spec_entropy() == entropy,
    {
        Passphrase { preset, entropy, words }
    }

    /// Returns the generated passphrase words.
    pub fn words(&self) -> (r: &Vec<String>)
        ensures
            word_views(r@) == self.spec_words(),
    {
        &self.words
    }

    /// Returns the entropy data of the passphrase.
    pub fn entropy(&self) -> (r: &Entropy)
        ensures
            *r == self.spec_entropy(),
    {
        &self.entropy
    }

    /// Formats the passphrase using its own preset.
    pub fn format(&self) -> (r: String)
        ensures
            r@ == formatted(self.spec_words(), self.spec_preset()),
    {
        self.format_with(&self.preset)
    }

    /// Formats the passphrase using the given preset; the stored words
    /// are read, never changed.
    pub fn format_with(&self, preset: &Preset) -> (r: String)
        ensures
            r@ == formatted(self.spec_words(), *preset),
    {
        match preset {
            Preset::PascalCase => self.format_using("", true),
            Preset::KebabCase => self.format_using("-", false),
            Preset::SnakeCase => self.format_using("_", false),
            Preset::Arbitrary { capitalize, delimiter } => {
                let delim: String = match delimiter {
                    Some(d) => d.clone(),
                    None => " ".to_owned(),
                };
                self.format_using(delim.as_str(), *capitalize)
            },
            Preset::Default => self.format_using(" ", false),
        }
    }

    /// Joins the stored words with the delimiter, capitalizing each word
    /// first when asked to.
    fn format_using(&self, delimiter: &str, capitalize: bool) -> (r: String)
        ensures
            r@ == join_with(
                if capitalize {
                    cap_words(self.spec_words())
                } else {
                    self.spec_words()
                },
                delimiter@,
            ),
    {
        let ghost ws = if capitalize {
            cap_words(self.spec_words())
        } else {
            self.spec_words()
        };
        proof {
            assert(ws.len() == self.words@.len());
        }
        let mut r = String::new();
        let mut i: usize = 0;
        while i < self.words.len()
            invariant
                0 <= i <= self.words@.len(),
                ws == (if capitalize {
                    cap_words(self.spec_words())
                } else {
                    self.spec_words()
                }),
                ws.len() == self.words@.len(),
                self.spec_words() == word_views(self.words@),
                r@ == join_with(ws.take(i as int), delimiter@),
            decreases self.words@.len() - i,
        {
            let w: String = if capitalize {
                to_capitalized(self.words[i].as_str())
            } else {
                self.words[i].clone()
            };
            proof {
                assert(self.spec_words()[i as int] == self.words@[i as int]@);
                assert(ws[i as int] == w@);
                assert(ws.take(i + 1).drop_last() =~= ws.take(i as int));
                assert(ws.take(i + 1).last() == ws[i as int]);
            }
            if i > 0 {
                r.append(delimiter);
            } else {
                proof {
                    assert(r@ + w@ =~= w@);
                }
            }
            r.append(w.as_str());
            i += 1;
        }
        proof {
            assert(ws.take(ws.len() as int) =~= ws);
        }
        r
    }
}

/// Non-consuming builder that configures and generates a [`Passphrase`].
#[derive(Debug)]
pub struct Passphraser {
    /// Number of words to generate.
    length: usize,
    /// Wordlist to pick words from.
    wordlist: Vec<String>,
    /// Formatting preset for the generated phrase.
    preset: Preset,
}

impl Passphraser {
    /// The number of words the builder will generate.
    pub closed spec fn spec_length(self) -> usize {
        self.length
    }

    /// The working wordlist, line by line.
    pub closed spec fn spec_wordlist(self) -> Seq<Seq<char>> {
        word_views(self.wordlist@)
    }

    /// The working formatting preset.
    pub closed spec fn spec_preset(self) -> Preset {
        self.preset
    }

    /// Creates a builder for the given number of words, holding the
    /// built-in wordlist and the default preset.
    pub fn new(length: usize) -> (b: Passphraser)
        ensures
            b.spec_length() == length,
            b.spec_wordlist().len() == 7776,
            forall|k: int| 0 <= k < 7776 ==> #[trigger] b.spec_wordlist()[k] == builtin_line(k),
            b.spec_preset() == Preset::Default,
    {
        let b = Passphraser { length, wordlist: builtin_wordlist(), preset: Preset::Default };
        proof {
            assert forall|k: int| 0 <= k < 7776 implies #[trigger] b.spec_wordlist()[k]
                == builtin_line(k) by {
                assert(b.spec_wordlist()[k] == b.wordlist@[k]@);
            }
        }
        b
    }

    /// Sets the number of words to generate.
    pub fn length(&mut self, length: usize)
        ensures
            final(self).spec_length() == length,
            final(self).spec_wordlist() == old(self).spec_wordlist(),
            final(self).spec_preset() == old(self).spec_preset(),
    {
        self.length = length;
    }

    /// Sets the wordlist to pick words from, copying the given lines into
    /// the builder: later changes to the caller's list are not seen.
    pub fn wordlist(&mut self, list: &[String])
        ensures
            final(self).spec_wordlist() == word_views(list@),
            final(self).spec_length() == old(self).spec_length(),
            final(self).spec_preset() == old(self).spec_preset(),
    {
        let mut copy: Vec<String> = Vec::new();
        let mut i: usize = 0;
        while i < list.len()
            invariant
                0 <= i <= list@.len(),
                copy@.len() == i,
                forall|k: int| 0 <= k < i ==> (#[trigger] copy@[k])@ == list@[k]@,
            decreases list@.len() - i,
        {
            copy.push(list[i].clone());
            i += 1;
        }
        proof {
            assert(word_views(copy@) =~= word_views(list@));
        }
        self.wordlist = copy;
    }

    /// Sets the formatting preset.
    pub fn preset(&mut self, preset: Preset)
        ensures
            final(self).spec_preset() == preset,
            final(self).spec_length() == old(self).spec_length(),
            final(self).spec_wordlist() == old(self).spec_wordlist(),
    {
        self.preset = preset;
    }

    /// Rolls dice, resolves the passphrase words, records the entropy
    /// data and returns the assembled [`Passphrase`]. The words are what
    /// some sequence of five-dice rolls resolves to in the working
    /// wordlist; which rolls is up to the random generator.
    pub fn generate(&self) -> (p: Passphrase)
        ensures
            caps_of(p.spec_preset()) == caps_of(self.spec_preset()),
            delim_of(p.spec_preset()) == delim_of(self.spec_preset()),
            p.spec_entropy().possibilities == self.spec_wordlist().len(),
            p.spec_entropy().phrase_length == self.spec_length(),
            exists|rolls: Seq<Seq<usize>>|
                #![auto]
                {
                    &&& rolls.len() == self.spec_length()
                    &&& forall|i: int| 0 <= i < rolls.len() ==> (#[trigger] rolls[i]).len() == 5
                    &&& forall|i: int, j: int|
                        0 <= i < rolls.len() && 0 <= j < 5 ==> 1 <= #[trigger] rolls[i][j] < 6
                    &&& p.spec_words() == phrase_words(self.spec_wordlist(), rolls)
                },
    {
        let rolls = roll_dice(self.length, 5, 1, 6);
        let ghost rv = rolls@.map_values(|r: Vec<usize>| r@);
        proof {
            reveal_with_fuel(pow10, 6);
            assert forall|i: int| 0 <= i < rolls@.len() implies to_index_spec(
                (#[trigger] rolls@[i])@,
            ) <= usize::MAX by {
                assert(forall|j: int| 0 <= j < rolls@[i]@.len() ==> #[trigger] rolls@[i]@[j] <= 9);
                lemma_to_index_bound(rolls@[i]@);
            }
            assert(rv.len() == self.spec_length());
            assert(forall|i: int| 0 <= i < rv.len() ==> (#[trigger] rv[i]).len() == 5);
            assert(forall|i: int, j: int|
                0 <= i < rv.len() && 0 <= j < 5 ==> 1 <= #[trigger] rv[i][j] < 6);
        }
        let words = passphrase(self.wordlist.as_slice(), rolls);
        let entropy = Entropy::new(self.wordlist.len(), self.length);
        let preset = self.preset.clone();
        let p = Passphrase::new(words, preset, entropy);
        proof {
            assert(p.spec_words() == phrase_words(self.spec_wordlist(), rv));
        }
        p
    }
}

} // verus!

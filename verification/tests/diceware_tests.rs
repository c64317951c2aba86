use diceware::builtin_wordlist;
use diceware::passphrase;
use diceware::roll_dice;
use diceware::to_capitalized;
use diceware::to_components;
use diceware::to_index;
use diceware::to_pair;
use diceware::Entropy;
use diceware::Passphrase;
use diceware::Passphraser;
use diceware::Preset;

#[test]
fn test_to_index() {
    assert_eq!(to_index(vec![1, 1, 1]), 111);
    assert_eq!(to_index(vec![5, 2, 3, 1, 6]), 52316);
}

#[test]
#[should_panic]
fn test_roll_dice() {
    roll_dice(6, 5, 0, 0);
    roll_dice(6, 0, 0, 0);
}

#[test]
fn roll_dice_shape_and_range() {
    let rolls = roll_dice(4, 7, 1, 6);
    assert_eq!(rolls.len(), 4);
    for run in &rolls {
        assert_eq!(run.len(), 7);
        for &v in run {
            assert!(1 <= v && v < 6);
        }
    }
}

#[test]
fn parse_well_formed_line() {
    let comps = to_components("12345 apple");
    assert_eq!(comps, vec!["12345", "apple"]);
    assert_eq!(to_pair(comps), Some((12345, "apple".to_string())));
}

#[test]
fn parse_tolerates_extra_whitespace() {
    let comps = to_components("  12345 \t apple  ");
    assert_eq!(comps, vec!["12345", "apple"]);
    assert_eq!(to_pair(comps), Some((12345, "apple".to_string())));
}

#[test]
fn parse_drops_bad_index() {
    assert_eq!(to_pair(to_components("abc apple")), None);
}

#[test]
fn parse_drops_single_token() {
    assert_eq!(to_pair(to_components("12345")), None);
}

#[test]
fn parse_drops_extra_tokens() {
    assert_eq!(to_pair(to_components("12345 apple extra")), None);
}

#[test]
fn parse_drops_blank_lines() {
    assert_eq!(to_pair(to_components("")), None);
    assert_eq!(to_pair(to_components("   \t ")), None);
}

#[test]
fn parse_accepts_signed_index() {
    assert_eq!(to_pair(to_components("+7 word")), Some((7, "word".to_string())));
}

#[test]
fn parse_drops_overflowing_index() {
    assert_eq!(to_pair(to_components("99999999999999999999999999 word")), None);
}

#[test]
fn passphrase_resolves_present_index() {
    let lines = vec!["11111 alpha".to_string()];
    let words = passphrase(&lines, vec![vec![1, 1, 1, 1, 1]]);
    assert_eq!(words, vec!["alpha".to_string()]);
}

#[test]
fn passphrase_skips_absent_index() {
    let lines = vec!["11111 alpha".to_string()];
    let words = passphrase(&lines, vec![vec![1, 1, 1, 1, 2]]);
    assert!(words.is_empty());
}

#[test]
fn passphrase_keeps_roll_order_and_shortens() {
    let lines = vec!["11111 alpha".to_string(), "22222 beta".to_string()];
    let rolls = vec![vec![1, 1, 1, 1, 1], vec![3, 3, 3, 3, 3], vec![2, 2, 2, 2, 2]];
    let words = passphrase(&lines, rolls);
    assert_eq!(words, vec!["alpha".to_string(), "beta".to_string()]);
}

#[test]
fn passphrase_first_match_wins() {
    let lines = vec!["11111 alpha".to_string(), "11111 beta".to_string()];
    let words = passphrase(&lines, vec![vec![1, 1, 1, 1, 1]]);
    assert_eq!(words, vec!["alpha".to_string()]);
}

fn sample_phrase(preset: Preset) -> Passphrase {
    let words = vec!["alpha".to_string(), "beta".to_string()];
    Passphrase::new(words, preset, Entropy::new(2, 2))
}

#[test]
fn format_pascal_case() {
    assert_eq!(sample_phrase(Preset::PascalCase).format(), "AlphaBeta");
}

#[test]
fn format_kebab_case() {
    assert_eq!(sample_phrase(Preset::KebabCase).format(), "alpha-beta");
}

#[test]
fn format_snake_case() {
    assert_eq!(sample_phrase(Preset::SnakeCase).format(), "alpha_beta");
}

#[test]
fn format_default() {
    assert_eq!(sample_phrase(Preset::Default).format(), "alpha beta");
}

#[test]
fn format_arbitrary_with_delimiter() {
    let preset = Preset::Arbitrary { capitalize: true, delimiter: Some(".".to_string()) };
    assert_eq!(sample_phrase(preset).format(), "Alpha.Beta");
}

#[test]
fn format_arbitrary_without_delimiter() {
    let preset = Preset::Arbitrary { capitalize: false, delimiter: None };
    assert_eq!(sample_phrase(preset).format(), "alpha beta");
}

#[test]
fn format_with_is_repeatable() {
    let phrase = sample_phrase(Preset::Default);
    let preset = Preset::Arbitrary { capitalize: true, delimiter: Some("-".to_string()) };
    assert_eq!(phrase.format_with(&preset), phrase.format_with(&preset));
    assert_eq!(phrase.format(), phrase.format());
}

#[test]
fn capitalize_first_char() {
    assert_eq!(to_capitalized("alpha"), "Alpha");
    assert_eq!(to_capitalized(""), "");
    assert_eq!(to_capitalized("étude"), "Étude");
    assert_eq!(to_capitalized("ße"), "SSe");
}

#[test]
fn preset_from_names() {
    assert!(matches!(Preset::from("pascal"), Preset::PascalCase));
    assert!(matches!(Preset::from("kebab"), Preset::KebabCase));
    assert!(matches!(Preset::from("snake"), Preset::SnakeCase));
    assert!(matches!(Preset::from("camel"), Preset::Default));
    assert!(matches!(Preset::from(""), Preset::Default));
}

#[test]
fn entropy_records_inputs() {
    let entropy = Entropy::new(7776, 6);
    assert_eq!(entropy.possibilities, 7776);
    assert_eq!(entropy.phrase_length, 6);
}

#[test]
fn builtin_wordlist_has_all_entries() {
    let lines = builtin_wordlist();
    assert_eq!(lines.len(), 7776);
    for line in &lines {
        assert!(to_pair(to_components(line)).is_some());
    }
}

#[test]
fn generate_with_builtin_list() {
    let builder = Passphraser::new(6);
    let phrase = builder.generate();
    assert_eq!(phrase.words().len(), 6);
    assert_eq!(phrase.entropy().possibilities, 7776);
    assert_eq!(phrase.entropy().phrase_length, 6);
}

#[test]
fn generate_with_custom_wordlist() {
    let mut lines = Vec::new();
    for d1 in 1..=5 {
        for d2 in 1..=5 {
            for d3 in 1..=5 {
                for d4 in 1..=5 {
                    for d5 in 1..=5 {
                        lines.push(format!("{d1}{d2}{d3}{d4}{d5} x"));
                    }
                }
            }
        }
    }
    let mut builder = Passphraser::new(3);
    builder.wordlist(&lines);
    let phrase = builder.generate();
    assert_eq!(phrase.words(), &vec!["x".to_string(); 3]);
    assert_eq!(phrase.entropy().possibilities, 3125);
    assert_eq!(phrase.entropy().phrase_length, 3);
    assert_eq!(phrase.format(), "x x x");
}

#[test]
fn wordlist_substitution_takes_a_snapshot() {
    let mut lines = vec!["11111 alpha".to_string()];
    let mut builder = Passphraser::new(2);
    builder.wordlist(&lines);
    lines.push("22222 beta".to_string());
    let phrase = builder.generate();
    assert_eq!(phrase.entropy().possibilities, 1);
    assert_eq!(phrase.entropy().phrase_length, 2);
}

#[test]
fn builder_setters_apply() {
    let mut builder = Passphraser::new(6);
    builder.length(2);
    builder.preset(Preset::KebabCase);
    builder.wordlist(&["33333 gamma".to_string()]);
    let phrase = builder.generate();
    assert_eq!(phrase.entropy().possibilities, 1);
    assert_eq!(phrase.entropy().phrase_length, 2);
}

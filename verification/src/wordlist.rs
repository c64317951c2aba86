//! Parsing of `<index> <word>` wordlist lines and the built-in list.

use vstd::prelude::*;

verus! {

/// The characters that separate the tokens of a wordlist line: ASCII
/// whitespace.
pub open spec fn is_space_char(c: char) -> bool {
    c == ' ' || c == '\t' || c == '\n' || c == '\u{0C}' || c == '\r'
}

/// Length of the token that starts at the head of `s`: the count of
/// leading characters before the first whitespace.
pub open spec fn token_len(s: Seq<char>) -> nat
    decreases s.len(),
{
    if s.len() == 0 || is_space_char(s[0]) {
        0
    } else {
        1 + token_len(s.skip(1))
    }
}

pub proof fn lemma_token_len_le(s: Seq<char>)
    ensures
        token_len(s) <= s.len(),
    decreases s.len(),
{
    if s.len() > 0 && !is_space_char(s[0]) {
        lemma_token_len_le(s.skip(1));
    }
}

/// The whitespace-separated tokens of `s`, in order.
pub open spec fn split_ws(s: Seq<char>) -> Seq<Seq<char>>
    decreases s.len(),
{
    if s.len() == 0 {
        Seq::empty()
    } else if is_space_char(s[0]) {
        split_ws(s.skip(1))
    } else {
        proof {
            lemma_token_len_le(s);
        }
        seq![s.take(token_len(s) as int)] + split_ws(s.skip(token_len(s) as int))
    }
}

/// If the first `m` characters of `s` are not whitespace and the character
/// after them (if any) is, the head token is exactly those `m` characters.
proof fn lemma_token_scan(s: Seq<char>, m: int)
    requires
        0 <= m <= s.len(),
        forall|k: int| 0 <= k < m ==> !is_space_char(s[k]),
        m == s.len() || is_space_char(s[m]),
    ensures
        token_len(s) == m,
    decreases m,
{
    if m > 0 {
        lemma_token_scan(s.skip(1), m - 1);
    }
}

/// A decimal digit.
pub open spec fn is_digit_char(c: char) -> bool {
    '0' <= c && c <= '9'
}

/// Numeric value of a decimal digit character.
pub open spec fn digit_val(c: char) -> int {
    c as int - '0' as int
}

/// Value of a run of decimal digit characters, read left to right.
pub open spec fn digits_value(s: Seq<char>) -> int
    decreases s.len(),
{
    if s.len() == 0 {
        0
    } else {
        digits_value(s.drop_last()) * 10 + digit_val(s.last())
    }
}

pub open spec fn all_digits(s: Seq<char>) -> bool {
    forall|i: int| 0 <= i < s.len() ==> is_digit_char(s[i])
}

/// The digit run of an index token: a single leading `+` sign is allowed
/// and carries no value, as in the decimal grammar `usize` parsing accepts.
pub open spec fn numeral_digits(t: Seq<char>) -> Seq<char> {
    if t.len() >= 1 && t[0] == '+' {
        t.skip(1)
    } else {
        t
    }
}

/// Whether a token is a valid wordlist index: at least one digit after an
/// optional sign, digits only, and a value that fits the index type.
pub open spec fn is_valid_index(t: Seq<char>) -> bool {
    let ds = numeral_digits(t);
    ds.len() >= 1 && all_digits(ds) && digits_value(ds) <= usize::MAX
}

/// The entry a token sequence denotes: exactly two tokens, the first a
/// valid index; any other shape denotes no entry.
pub open spec fn parse_tokens(ts: Seq<Seq<char>>) -> Option<(usize, Seq<char>)> {
    if ts.len() == 2 && is_valid_index(ts[0]) {
        Some(((digits_value(numeral_digits(ts[0])) as usize), ts[1]))
    } else {
        None
    }
}

/// The entry a raw wordlist line denotes, if any.
pub open spec fn parse_line(s: Seq<char>) -> Option<(usize, Seq<char>)> {
    parse_tokens(split_ws(s))
}

proof fn lemma_digits_value_nonneg(s: Seq<char>)
    requires
        all_digits(s),
    ensures
        digits_value(s) >= 0,
    decreases s.len(),
{
    if s.len() > 0 {
        lemma_digits_value_nonneg(s.drop_last());
    }
}

proof fn lemma_digits_value_prefix(s: Seq<char>, i: int)
    requires
        all_digits(s),
        0 <= i <= s.len(),
    ensures
        digits_value(s.take(i)) <= digits_value(s),
    decreases s.len() - i,
{
    if i == s.len() {
        assert(s.take(i) =~= s);
    } else {
        lemma_digits_value_prefix(s, i + 1);
        assert(s.take(i + 1).drop_last() =~= s.take(i));
        assert(s.take(i + 1).last() == s[i]);
        lemma_digits_value_nonneg(s.take(i));
    }
}

fn is_space(c: char) -> (b: bool)
    ensures
        b == is_space_char(c),
{
    c == ' ' || c == '\t' || c == '\n' || c == '\u{0C}' || c == '\r'
}

/// Splits a line into its whitespace-separated tokens.
pub fn to_components<'a>(line: &'a str) -> (r: Vec<&'a str>)
    ensures
        r@.map_values(|w: &str| w@) == split_ws(line@),
{
    let n: usize = line.unicode_len();
    let mut r: Vec<&'a str> = Vec::new();
    let mut i: usize = 0;
    proof {
        assert(line@.skip(0) =~= line@);
    }
    while i < n
        invariant
            0 <= i <= n,
            n == line@.len(),
            split_ws(line@) == r@.map_values(|w: &str| w@) + split_ws(line@.skip(i as int)),
        decreases n - i,
    {
        let c = line.get_char(i);
        if is_space(c) {
            proof {
                assert(line@.skip(i as int)[0] == line@[i as int]);
                assert(line@.skip(i as int).skip(1) =~= line@.skip(i + 1));
            }
            i += 1;
        } else {
            let mut j: usize = i + 1;
            while j < n && !is_space(line.get_char(j))
                invariant
                    i < j <= n,
                    n == line@.len(),
                    forall|k: int| i <= k < j ==> !is_space_char(line@[k]),
                decreases n - j,
            {
                j += 1;
            }
            let ghost rest = line@.skip(i as int);
            proof {
                assert(forall|k: int| 0 <= k < j - i ==> rest[k] == line@[i + k]
                    && !is_space_char(rest[k]));
                assert(j < n ==> is_space_char(rest[j - i]));
                lemma_token_scan(rest, j - i);
                assert(rest.take(j - i) =~= line@.subrange(i as int, j as int));
                assert(rest.skip(j - i) =~= line@.skip(j as int));
            }
            let t = line.substring_char(i, j);
            let ghost before = r@.map_values(|w: &str| w@);
            r.push(t);
            proof {
                assert(r@.map_values(|w: &str| w@) =~= before.push(t@));
                assert(split_ws(rest) == seq![rest.take(j - i)] + split_ws(rest.skip(j - i)));
                assert(before + split_ws(rest) =~= before.push(t@) + split_ws(
                    line@.skip(j as int),
                ));
            }
            i = j;
        }
    }
    proof {
        assert(line@.skip(n as int) =~= Seq::<char>::empty());
        assert(r@.map_values(|w: &str| w@) + split_ws(line@.skip(n as int)) =~= r@.map_values(
            |w: &str| w@,
        ));
    }
    r
}

/// Parses one index token into its value; `None` exactly when the token is
/// not a valid index.
fn parse_index(t: &str) -> (r: Option<usize>)
    ensures
        r is Some <==> is_valid_index(t@),
        r is Some ==> r.unwrap() == digits_value(numeral_digits(t@)),
{
    let n: usize = t.unicode_len();
    let start: usize = if n >= 1 && t.get_char(0) == '+' {
        1
    } else {
        0
    };
    let ghost ds = numeral_digits(t@);
    proof {
        assert(t@.skip(0) =~= t@);
        assert(ds =~= t@.skip(start as int));
    }
    if start >= n {
        return None;
    }
    let mut acc: usize = 0;
    let mut i: usize = start;
    while i < n
        invariant
            start <= i <= n,
            n == t@.len(),
            start <= 1,
            ds == numeral_digits(t@),
            ds =~= t@.skip(start as int),
            all_digits(ds.take(i - start)),
            acc == digits_value(ds.take(i - start)),
        decreases n - i,
    {
        let c = t.get_char(i);
        proof {
            assert(ds[i - start] == t@[i as int]);
        }
        if c < '0' || c > '9' {
            proof {
                assert(!is_digit_char(ds[i - start]));
            }
            return None;
        }
        let d: usize = ((c as u32) - 48) as usize;
        let wide: u128 = (acc as u128) * 10 + (d as u128);
        proof {
            assert(ds.take(i - start + 1).drop_last() =~= ds.take(i - start));
            assert(ds.take(i - start + 1).last() == ds[i - start]);
        }
        if wide > (usize::MAX as u128) {
            proof {
                assert(digits_value(ds.take(i - start + 1)) > usize::MAX);
                if all_digits(ds) {
                    lemma_digits_value_prefix(ds, i - start + 1);
                }
            }
            return None;
        }
        acc = wide as usize;
        i += 1;
    }
    proof {
        assert(ds.take(n - start) =~= ds);
    }
    Some(acc)
}

/// Unpacks the components of one line, in the form `[index, word]`, into
/// an index and word pair; any other shape yields no pair.
pub fn to_pair(components: Vec<&str>) -> (r: Option<(usize, String)>)
    ensures
        (r is Some) == (parse_tokens(components@.map_values(|w: &str| w@)) is Some),
        r is Some ==> ({
            let p = parse_tokens(components@.map_values(|w: &str| w@)).unwrap();
            r.unwrap().0 == p.0 && r.unwrap().1@ == p.1
        }),
{
    let ghost ts = components@.map_values(|w: &str| w@);
    if components.len() == 2 {
        let t0: &str = components[0];
        let t1: &str = components[1];
        proof {
            assert(ts[0] == t0@);
            assert(ts[1] == t1@);
        }
        match parse_index(t0) {
            Some(ix) => Some((ix, t1.to_owned())),
            None => None,
        }
    } else {
        None
    }
}

/// The dice face character of one base-six digit.
pub open spec fn dice_digit_char(d: int) -> char {
    if d == 0 {
        '1'
    } else if d == 1 {
        '2'
    } else if d == 2 {
        '3'
    } else if d == 3 {
        '4'
    } else if d == 4 {
        '5'
    } else {
        '6'
    }
}

/// The letter the built-in list spells its words with, one per dice face.
pub open spec fn dice_letter_char(d: int) -> char {
    if d == 0 {
        'a'
    } else if d == 1 {
        'b'
    } else if d == 2 {
        'c'
    } else if d == 3 {
        'd'
    } else if d == 4 {
        'e'
    } else {
        'f'
    }
}

/// Line `k` of the built-in list: the five dice face digits of `k`, a
/// space, and the word the same five faces spell.
pub open spec fn builtin_line(k: int) -> Seq<char> {
    seq![
        dice_digit_char(k / 1296 % 6),
        dice_digit_char(k / 216 % 6),
        dice_digit_char(k / 36 % 6),
        dice_digit_char(k / 6 % 6),
        dice_digit_char(k % 6),
        ' ',
        dice_letter_char(k / 1296 % 6),
        dice_letter_char(k / 216 % 6),
        dice_letter_char(k / 36 % 6),
        dice_letter_char(k / 6 % 6),
        dice_letter_char(k % 6),
    ]
}

fn dice_digit_str(d: usize) -> (s: &'static str)
    requires
        d < 6,
    ensures
        s@ == seq![dice_digit_char(d as int)],
{
    let s: &'static str = match d {
        0 => "1",
        1 => "2",
        2 => "3",
        3 => "4",
        4 => "5",
        _ => "6",
    };
    proof {
        reveal_strlit("1");
        reveal_strlit("2");
        reveal_strlit("3");
        reveal_strlit("4");
        reveal_strlit("5");
        reveal_strlit("6");
        assert(s@ =~= seq![dice_digit_char(d as int)]);
    }
    s
}

fn dice_letter_str(d: usize) -> (s: &'static str)
    requires
        d < 6,
    ensures
        s@ == seq![dice_letter_char(d as int)],
{
    let s: &'static str = match d {
        0 => "a",
        1 => "b",
        2 => "c",
        3 => "d",
        4 => "e",
        _ => "f",
    };
    proof {
        reveal_strlit("a");
        reveal_strlit("b");
        reveal_strlit("c");
        reveal_strlit("d");
        reveal_strlit("e");
        reveal_strlit("f");
        assert(s@ =~= seq![dice_letter_char(d as int)]);
    }
    s
}

/// The built-in wordlist: one line per five-dice combination, `7776` in
/// all, each holding the dice index and a word spelled from the same dice.
pub fn builtin_wordlist() -> (lines: Vec<String>)
    ensures
        lines@.len() == 7776,
        forall|k: int| 0 <= k < 7776 ==> (#[trigger] lines@[k])@ == builtin_line(k),
{
    let mut lines: Vec<String> = Vec::new();
    let mut i: usize = 0;
    while i < 7776
        invariant
            0 <= i <= 7776,
            lines@.len() == i,
            forall|k: int| 0 <= k < i ==> (#[trigger] lines@[k])@ == builtin_line(k),
        decreases 7776 - i,
    {
        let d1: usize = i / 1296 % 6;
        let d2: usize = i / 216 % 6;
        let d3: usize = i / 36 % 6;
        let d4: usize = i / 6 % 6;
        let d5: usize = i % 6;
        let mut line = String::new();
        line.append(dice_digit_str(d1));
        line.append(dice_digit_str(d2));
        line.append(dice_digit_str(d3));
        line.append(dice_digit_str(d4));
        line.append(dice_digit_str(d5));
        line.append(" ");
        line.append(dice_letter_str(d1));
        line.append(dice_letter_str(d2));
        line.append(dice_letter_str(d3));
        line.append(dice_letter_str(d4));
        line.append(dice_letter_str(d5));
        proof {
            reveal_strlit(" ");
            assert(line@ =~= builtin_line(i as int));
        }
        lines.push(line);
        i += 1;
    }
    lines
}

} // verus!

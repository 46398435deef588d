//! Conversion of text typed in the wrong keyboard layout: the US QWERTY
//! keys and the Russian ЙЦУКЕН keys, position for position.
use vstd::prelude::*;
use crate::text::{chars_of, push_char};

verus! {

/// The characters of the US QWERTY layout, in key order, unshifted then shifted.
pub open spec fn latin_keys() -> Seq<char> {
    seq![
        '`', 'q', 'w', 'e', 'r', 't', 'y', 'u', 'i', 'o', 'p', '[',
        ']', 'a', 's', 'd', 'f', 'g', 'h', 'j', 'k', 'l', ';', '\'',
        'z', 'x', 'c', 'v', 'b', 'n', 'm', ',', '.', '/', '~', 'Q',
        'W', 'E', 'R', 'T', 'Y', 'U', 'I', 'O', 'P', '{', '}', 'A',
        'S', 'D', 'F', 'G', 'H', 'J', 'K', 'L', ':', '"', 'Z', 'X',
        'C', 'V', 'B', 'N', 'M', '<', '>', '?',
    ]
}

/// The characters that the Russian layout puts on the same keys as
/// [`latin_keys`], position for position.
pub open spec fn russian_keys() -> Seq<char> {
    seq![
        'ё', 'й', 'ц', 'у', 'к', 'е', 'н', 'г', 'ш', 'щ', 'з', 'х',
        'ъ', 'ф', 'ы', 'в', 'а', 'п', 'р', 'о', 'л', 'д', 'ж', 'э',
        'я', 'ч', 'с', 'м', 'и', 'т', 'ь', 'б', 'ю', '.', 'Ë', 'Й',
        'Ц', 'У', 'К', 'Е', 'Н', 'Г', 'Ш', 'Щ', 'З', 'Х', 'Ъ', 'Ф',
        'Ы', 'В', 'А', 'П', 'Р', 'О', 'Л', 'Д', 'Ж', 'Э', 'Я', 'Ч',
        'С', 'М', 'И', 'Т', 'Ь', 'Б', 'Ю', ',',
    ]
}

/// `c.is_ascii_alphabetic()`.
pub open spec fn is_ascii_letter(c: char) -> bool {
    ('a' <= c && c <= 'z') || ('A' <= c && c <= 'Z')
}

/// A letter of the Russian alphabet: `а`..=`я`, `А`..=`Я`, `ё` or `Ё`.
pub open spec fn is_russian_letter(c: char) -> bool {
    ||| ('а' <= c && c <= 'я')
    ||| ('А' <= c && c <= 'Я')
    ||| c == 'ё'
    ||| c == 'Ё'
}

/// How many characters of `s` are ASCII letters.
pub open spec fn ascii_letter_count(s: Seq<char>) -> nat
    decreases s.len(),
{
    if s.len() == 0 {
        0
    } else {
        ascii_letter_count(s.drop_last()) + if is_ascii_letter(s.last()) { 1nat } else { 0nat }
    }
}

/// How many characters of `s` are Russian letters.
pub open spec fn russian_letter_count(s: Seq<char>) -> nat
    decreases s.len(),
{
    if s.len() == 0 {
        0
    } else {
        russian_letter_count(s.drop_last()) + if is_russian_letter(s.last()) { 1nat } else { 0nat }
    }
}

/// The text is taken to be typed in the Latin layout (and is converted to
/// Russian) when it has at least as many ASCII letters as Russian letters.
pub open spec fn typed_in_latin(s: Seq<char>) -> bool {
    ascii_letter_count(s) >= russian_letter_count(s)
}

/// The first position of `c` in `t`, if `c` occurs in it.
pub open spec fn first_index(t: Seq<char>, c: char) -> Option<int>
    decreases t.len(),
{
    if t.len() == 0 {
        None
    } else if t[0] == c {
        Some(0)
    } else {
        match first_index(t.drop_first(), c) {
            Some(k) => Some(k + 1),
            None => None,
        }
    }
}

/// The character on the key of `c`: the character of `to` at the first
/// position of `c` in `from`, or `c` itself when `c` is not in `from` or
/// `to` has no character at that position.
pub open spec fn key_counterpart(from: Seq<char>, to: Seq<char>, c: char) -> char {
    match first_index(from, c) {
        Some(k) => if k < to.len() { to[k] } else { c },
        None => c,
    }
}

/// What `convert_layout` makes of `s`: every character is moved to the
/// other layout, the direction chosen once for the whole text.
pub open spec fn converted(s: Seq<char>) -> Seq<char> {
    Seq::new(
        s.len(),
        |k: int|
            if typed_in_latin(s) {
                key_counterpart(latin_keys(), russian_keys(), s[k])
            } else {
                key_counterpart(russian_keys(), latin_keys(), s[k])
            },
    )
}

fn char_is_ascii_letter(c: char) -> (b: bool)
    ensures
        b == is_ascii_letter(c),
{
    ('a' <= c && c <= 'z') || ('A' <= c && c <= 'Z')
}

fn char_is_russian_letter(c: char) -> (b: bool)
    ensures
        b == is_russian_letter(c),
{
    ('а' <= c && c <= 'я') || ('А' <= c && c <= 'Я') || c == 'ё' || c == 'Ё'
}

/// Counts the ASCII letters and the Russian letters of `s`.
fn letter_counts(s: &Vec<char>) -> (r: (usize, usize))
    ensures
        r.0 == ascii_letter_count(s@),
        r.1 == russian_letter_count(s@),
{
    let n = s.len();
    let mut latin: usize = 0;
    let mut russian: usize = 0;
    let mut i: usize = 0;
    while i < n
        invariant
            i <= n,
            n == s@.len(),
            latin == ascii_letter_count(s@.take(i as int)),
            russian == russian_letter_count(s@.take(i as int)),
            latin <= i,
            russian <= i,
        decreases n - i,
    {
        assert(s@.take(i + 1).drop_last() =~= s@.take(i as int));
        if char_is_ascii_letter(s[i]) {
            latin = latin + 1;
        }
        if char_is_russian_letter(s[i]) {
            russian = russian + 1;
        }
        i = i + 1;
    }
    assert(s@.take(n as int) =~= s@);
    (latin, russian)
}

/// The character on the key of `c`, looked up in `from` and read in `to`.
fn counterpart_of_key(from: &[char], to: &[char], c: char) -> (r: char)
    ensures
        r == key_counterpart(from@, to@, c),
{
    let n = from.len();
    let mut i: usize = 0;
    assert(from@.subrange(0, n as int) =~= from@);
    while i < n
        invariant
            i <= n,
            n == from@.len(),
            first_index(from@, c) == match first_index(from@.subrange(i as int, n as int), c) {
                Some(k) => Some(k + i),
                None => None::<int>,
            },
        decreases n - i,
    {
        if from[i] == c {
            assert(first_index(from@.subrange(i as int, n as int), c) == Some(0int));
            if i < to.len() {
                return to[i];
            } else {
                return c;
            }
        }
        assert(from@.subrange(i as int, n as int).drop_first() =~= from@.subrange(i + 1, n as int));
        i = i + 1;
    }
    c
}

/// Converts text typed in the wrong layout: when the text has at least as
/// many ASCII letters as Russian letters, every character found among the
/// QWERTY keys is replaced by the Russian character on the same key;
/// otherwise every character found among the Russian keys is replaced by the
/// QWERTY character. Other characters are kept.
pub fn convert_layout(input: &str) -> (out: String)
    ensures
        out@ == converted(input@),
{
    let en: [char; 68] = [
        '`', 'q', 'w', 'e', 'r', 't', 'y', 'u', 'i', 'o', 'p', '[',
        ']', 'a', 's', 'd', 'f', 'g', 'h', 'j', 'k', 'l', ';', '\'',
        'z', 'x', 'c', 'v', 'b', 'n', 'm', ',', '.', '/', '~', 'Q',
        'W', 'E', 'R', 'T', 'Y', 'U', 'I', 'O', 'P', '{', '}', 'A',
        'S', 'D', 'F', 'G', 'H', 'J', 'K', 'L', ':', '"', 'Z', 'X',
        'C', 'V', 'B', 'N', 'M', '<', '>', '?',
    ];
    let ru: [char; 68] = [
        'ё', 'й', 'ц', 'у', 'к', 'е', 'н', 'г', 'ш', 'щ', 'з', 'х',
        'ъ', 'ф', 'ы', 'в', 'а', 'п', 'р', 'о', 'л', 'д', 'ж', 'э',
        'я', 'ч', 'с', 'м', 'и', 'т', 'ь', 'б', 'ю', '.', 'Ë', 'Й',
        'Ц', 'У', 'К', 'Е', 'Н', 'Г', 'Ш', 'Щ', 'З', 'Х', 'Ъ', 'Ф',
        'Ы', 'В', 'А', 'П', 'Р', 'О', 'Л', 'Д', 'Ж', 'Э', 'Я', 'Ч',
        'С', 'М', 'И', 'Т', 'Ь', 'Б', 'Ю', ',',
    ];
    let text = chars_of(input);
    let (latin, russian) = letter_counts(&text);
    let en_to_ru = latin >= russian;
    let (from, to): (&[char], &[char]) = if en_to_ru {
        (&en, &ru)
    } else {
        (&ru, &en)
    };
    let ghost goal = converted(input@);
    let mut out = String::new();
    let n = text.len();
    let mut k: usize = 0;
    while k < n
        invariant
            k <= n,
            n == text@.len(),
            text@ == input@,
            en_to_ru == typed_in_latin(input@),
            en_to_ru ==> from@ == latin_keys() && to@ == russian_keys(),
            !en_to_ru ==> from@ == russian_keys() && to@ == latin_keys(),
            goal == converted(input@),
            out@ == goal.take(k as int),
        decreases n - k,
    {
        let m = counterpart_of_key(from, to, text[k]);
        push_char(&mut out, m);
        assert(out@ =~= goal.take(k + 1));
        k = k + 1;
    }
    assert(goal.take(n as int) =~= goal);
    out
}


/// The first position of a character that does not occur earlier is its own.
proof fn lemma_first_index_of_first_occurrence(t: Seq<char>, i: int)
    requires
        0 <= i < t.len(),
        forall|j: int| 0 <= j < i ==> t[j] != t[i],
    ensures
        first_index(t, t[i]) == Some(i),
    decreases i,
{
    if i > 0 {
        let u = t.drop_first();
        assert(u[i - 1] == t[i]);
        lemma_first_index_of_first_occurrence(u, i - 1);
    }
}

proof fn lemma_latin_keys_distinct()
    ensures
        latin_keys().len() == 68,
        forall|i: int, j: int| 0 <= j < i < 68 ==> latin_keys()[j] != latin_keys()[i],
{
}

proof fn lemma_russian_keys_distinct()
    ensures
        russian_keys().len() == 68,
        forall|i: int, j: int| 0 <= j < i < 68 ==> russian_keys()[j] != russian_keys()[i],
{
}

proof fn lemma_latin_keys_not_russian()
    ensures
        forall|i: int| 0 <= i < 68 ==> !is_russian_letter(#[trigger] latin_keys()[i]),
{
}

proof fn lemma_russian_keys_not_ascii()
    ensures
        forall|i: int| 0 <= i < 68 ==> !is_ascii_letter(#[trigger] russian_keys()[i]),
{
}

/// Facts about the two key tables: they have the same length, no character
/// occurs twice in either, no QWERTY character is a Russian letter, and no
/// Russian-layout character is an ASCII letter.
proof fn lemma_key_tables()
    ensures
        latin_keys().len() == 68,
        russian_keys().len() == 68,
        forall|i: int| 0 <= i < 68 ==> first_index(latin_keys(), #[trigger] latin_keys()[i]) == Some(i),
        forall|i: int| 0 <= i < 68 ==> first_index(russian_keys(), #[trigger] russian_keys()[i]) == Some(i),
        forall|i: int| 0 <= i < 68 ==> !is_russian_letter(#[trigger] latin_keys()[i]),
        forall|i: int| 0 <= i < 68 ==> !is_ascii_letter(#[trigger] russian_keys()[i]),
{
    lemma_latin_keys_distinct();
    lemma_russian_keys_distinct();
    lemma_latin_keys_not_russian();
    lemma_russian_keys_not_ascii();
    assert forall|i: int| 0 <= i < 68 implies first_index(latin_keys(), #[trigger] latin_keys()[i]) == Some(i) by {
        lemma_first_index_of_first_occurrence(latin_keys(), i);
    }
    assert forall|i: int| 0 <= i < 68 implies first_index(russian_keys(), #[trigger] russian_keys()[i]) == Some(i) by {
        lemma_first_index_of_first_occurrence(russian_keys(), i);
    }
}

proof fn lemma_no_ascii_letters(s: Seq<char>)
    requires
        forall|k: int| 0 <= k < s.len() ==> !is_ascii_letter(#[trigger] s[k]),
    ensures
        ascii_letter_count(s) == 0,
    decreases s.len(),
{
    if s.len() > 0 {
        lemma_no_ascii_letters(s.drop_last());
    }
}

proof fn lemma_no_russian_letters(s: Seq<char>)
    requires
        forall|k: int| 0 <= k < s.len() ==> !is_russian_letter(#[trigger] s[k]),
    ensures
        russian_letter_count(s) == 0,
    decreases s.len(),
{
    if s.len() > 0 {
        lemma_no_russian_letters(s.drop_last());
    }
}

proof fn lemma_some_ascii_letter(s: Seq<char>, k: int)
    requires
        0 <= k < s.len(),
        is_ascii_letter(s[k]),
    ensures
        ascii_letter_count(s) > 0,
    decreases s.len(),
{
    if k < s.len() - 1 {
        lemma_some_ascii_letter(s.drop_last(), k);
    }
}

proof fn lemma_some_russian_letter(s: Seq<char>, k: int)
    requires
        0 <= k < s.len(),
        is_russian_letter(s[k]),
    ensures
        russian_letter_count(s) > 0,
    decreases s.len(),
{
    if k < s.len() - 1 {
        lemma_some_russian_letter(s.drop_last(), k);
    }
}

proof fn lemma_first_index_found(t: Seq<char>, c: char)
    ensures
        first_index(t, c) matches Some(i) ==> 0 <= i < t.len() && t[i] == c,
    decreases t.len(),
{
    if t.len() > 0 && t[0] != c {
        lemma_first_index_found(t.drop_first(), c);
    }
}

/// Conversion keeps the length of the text, and keeps every character that
/// is on neither layout's keys.
pub proof fn lemma_conversion_keeps_other_characters(s: Seq<char>)
    ensures
        converted(s).len() == s.len(),
        forall|k: int|
            0 <= k < s.len() && !latin_keys().contains(s[k]) && !russian_keys().contains(s[k])
                ==> #[trigger] converted(s)[k] == s[k],
{
    assert forall|k: int|
        0 <= k < s.len() && !latin_keys().contains(s[k]) && !russian_keys().contains(s[k])
            implies #[trigger] converted(s)[k] == s[k] by {
        lemma_first_index_found(latin_keys(), s[k]);
        lemma_first_index_found(russian_keys(), s[k]);
        if let Some(i) = first_index(latin_keys(), s[k]) {
            assert(latin_keys().contains(s[k]));
        }
        if let Some(i) = first_index(russian_keys(), s[k]) {
            assert(russian_keys().contains(s[k]));
        }
    }
}


/// A character on neither layout's keys that is no letter of either
/// alphabet, such as a digit, a space or `!`: conversion never touches it
/// and it never counts towards the direction.
pub open spec fn is_neutral(c: char) -> bool {
    &&& !latin_keys().contains(c)
    &&& !russian_keys().contains(c)
    &&& !is_ascii_letter(c)
    &&& !is_russian_letter(c)
}

proof fn lemma_neutral_kept(c: char)
    requires
        is_neutral(c),
    ensures
        key_counterpart(latin_keys(), russian_keys(), c) == c,
        key_counterpart(russian_keys(), latin_keys(), c) == c,
{
    lemma_first_index_found(latin_keys(), c);
    lemma_first_index_found(russian_keys(), c);
    if let Some(i) = first_index(latin_keys(), c) {
        assert(latin_keys().contains(c));
    }
    if let Some(i) = first_index(russian_keys(), c) {
        assert(russian_keys().contains(c));
    }
}

/// Text of neutral characters is left as it is.
proof fn lemma_neutral_text_unchanged(s: Seq<char>)
    requires
        forall|k: int| 0 <= k < s.len() ==> is_neutral(#[trigger] s[k]),
    ensures
        converted(s) == s,
{
    assert forall|k: int| 0 <= k < s.len() implies #[trigger] converted(s)[k] == s[k] by {
        lemma_neutral_kept(s[k]);
    }
    assert(converted(s) =~= s);
}

/// Text typed on the QWERTY keys, possibly with neutral characters among
/// them, comes back unchanged when converted twice, provided one of its
/// characters sits on a key whose Russian character is a letter (so that the
/// converted text reads as Russian) or all of them are neutral.
pub proof fn lemma_latin_text_round_trip(s: Seq<char>)
    requires
        forall|k: int|
            0 <= k < s.len() ==> latin_keys().contains(#[trigger] s[k]) || is_neutral(s[k]),
        (exists|k: int|
            0 <= k < s.len() && latin_keys().contains(s[k]) && is_russian_letter(
                #[trigger] key_counterpart(latin_keys(), russian_keys(), s[k]),
            )) || (forall|k: int| 0 <= k < s.len() ==> is_neutral(#[trigger] s[k])),
    ensures
        converted(converted(s)) == s,
{
    if forall|k: int| 0 <= k < s.len() ==> is_neutral(#[trigger] s[k]) {
        lemma_neutral_text_unchanged(s);
        return;
    }
    lemma_key_tables();
    let t = converted(s);
    assert forall|k: int| 0 <= k < s.len() implies !is_russian_letter(#[trigger] s[k]) by {
        if latin_keys().contains(s[k]) {
            let i = choose|i: int| 0 <= i < latin_keys().len() && latin_keys()[i] == s[k];
            assert(!is_russian_letter(latin_keys()[i]));
        }
    }
    lemma_no_russian_letters(s);
    assert(typed_in_latin(s));
    assert forall|k: int| 0 <= k < s.len() implies #[trigger] t[k] == key_counterpart(
        latin_keys(),
        russian_keys(),
        s[k],
    ) by {}
    assert forall|k: int| 0 <= k < t.len() implies !is_ascii_letter(#[trigger] t[k]) && (
    latin_keys().contains(s[k]) ==> russian_keys().contains(t[k])) && (is_neutral(s[k])
        ==> t[k] == s[k]) by {
        if latin_keys().contains(s[k]) {
            let i = choose|i: int| 0 <= i < latin_keys().len() && latin_keys()[i] == s[k];
            assert(first_index(latin_keys(), latin_keys()[i]) == Some(i));
            assert(t[k] == russian_keys()[i]);
            assert(!is_ascii_letter(russian_keys()[i]));
        } else {
            lemma_neutral_kept(s[k]);
        }
    }
    lemma_no_ascii_letters(t);
    let w = choose|k: int|
        0 <= k < s.len() && latin_keys().contains(s[k]) && is_russian_letter(
            #[trigger] key_counterpart(latin_keys(), russian_keys(), s[k]),
        );
    assert(t[w] == key_counterpart(latin_keys(), russian_keys(), s[w]));
    lemma_some_russian_letter(t, w);
    assert(!typed_in_latin(t));
    assert forall|k: int| 0 <= k < s.len() implies #[trigger] converted(t)[k] == s[k] by {
        if latin_keys().contains(s[k]) {
            let i = choose|i: int| 0 <= i < latin_keys().len() && latin_keys()[i] == s[k];
            assert(first_index(latin_keys(), latin_keys()[i]) == Some(i));
            assert(t[k] == russian_keys()[i]);
            assert(first_index(russian_keys(), russian_keys()[i]) == Some(i));
        } else {
            lemma_neutral_kept(s[k]);
        }
    }
    assert(converted(t) =~= s);
}

/// Text typed on the Russian keys, possibly with neutral characters among
/// them, comes back unchanged when converted twice, provided it holds a
/// Russian letter (so that it reads as Russian) or all of it is neutral.
pub proof fn lemma_russian_text_round_trip(s: Seq<char>)
    requires
        forall|k: int|
            0 <= k < s.len() ==> russian_keys().contains(#[trigger] s[k]) || is_neutral(s[k]),
        (exists|k: int| 0 <= k < s.len() && is_russian_letter(#[trigger] s[k])) || (forall|k: int|
            0 <= k < s.len() ==> is_neutral(#[trigger] s[k])),
    ensures
        converted(converted(s)) == s,
{
    if forall|k: int| 0 <= k < s.len() ==> is_neutral(#[trigger] s[k]) {
        lemma_neutral_text_unchanged(s);
        return;
    }
    lemma_key_tables();
    let t = converted(s);
    assert forall|k: int| 0 <= k < s.len() implies !is_ascii_letter(#[trigger] s[k]) by {
        if russian_keys().contains(s[k]) {
            let i = choose|i: int| 0 <= i < russian_keys().len() && russian_keys()[i] == s[k];
            assert(!is_ascii_letter(russian_keys()[i]));
        }
    }
    lemma_no_ascii_letters(s);
    let w = choose|k: int| 0 <= k < s.len() && is_russian_letter(#[trigger] s[k]);
    lemma_some_russian_letter(s, w);
    assert(!typed_in_latin(s));
    assert forall|k: int| 0 <= k < s.len() implies #[trigger] t[k] == key_counterpart(
        russian_keys(),
        latin_keys(),
        s[k],
    ) by {}
    assert forall|k: int| 0 <= k < t.len() implies !is_russian_letter(#[trigger] t[k]) by {
        if russian_keys().contains(s[k]) {
            let i = choose|i: int| 0 <= i < russian_keys().len() && russian_keys()[i] == s[k];
            assert(first_index(russian_keys(), russian_keys()[i]) == Some(i));
            assert(t[k] == latin_keys()[i]);
            assert(!is_russian_letter(latin_keys()[i]));
        } else {
            lemma_neutral_kept(s[k]);
        }
    }
    lemma_no_russian_letters(t);
    assert(typed_in_latin(t));
    assert forall|k: int| 0 <= k < s.len() implies #[trigger] converted(t)[k] == s[k] by {
        if russian_keys().contains(s[k]) {
            let i = choose|i: int| 0 <= i < russian_keys().len() && russian_keys()[i] == s[k];
            assert(first_index(russian_keys(), russian_keys()[i]) == Some(i));
            assert(t[k] == latin_keys()[i]);
            assert(first_index(latin_keys(), latin_keys()[i]) == Some(i));
        } else {
            lemma_neutral_kept(s[k]);
        }
    }
    assert(converted(t) =~= s);
}


proof fn lemma_counts_of_concat(a: Seq<char>, b: Seq<char>)
    ensures
        ascii_letter_count(a + b) == ascii_letter_count(a) + ascii_letter_count(b),
        russian_letter_count(a + b) == russian_letter_count(a) + russian_letter_count(b),
    decreases b.len(),
{
    if b.len() == 0 {
        assert(a + b =~= a);
    } else {
        lemma_counts_of_concat(a, b.drop_last());
        assert((a + b).drop_last() =~= a + b.drop_last());
        assert((a + b).last() == b.last());
    }
}

/// Neutral characters (digits, spaces, punctuation off both layouts) may be
/// put before or after a text without changing how the text converts: the
/// conversion of the whole is the conversion of the text with them kept.
pub proof fn lemma_conversion_with_neutral_text(s: Seq<char>, n: Seq<char>)
    requires
        forall|k: int| 0 <= k < n.len() ==> is_neutral(#[trigger] n[k]),
    ensures
        converted(s + n) == converted(s) + n,
        converted(n + s) == n + converted(s),
{
    lemma_no_ascii_letters(n);
    lemma_no_russian_letters(n);
    lemma_counts_of_concat(s, n);
    lemma_counts_of_concat(n, s);
    assert(typed_in_latin(s + n) == typed_in_latin(s));
    assert(typed_in_latin(n + s) == typed_in_latin(s));
    assert forall|k: int| 0 <= k < (s + n).len() implies #[trigger] converted(s + n)[k] == (
    converted(s) + n)[k] by {
        if k >= s.len() {
            lemma_neutral_kept(n[k - s.len()]);
        }
    }
    assert(converted(s + n) =~= converted(s) + n);
    assert forall|k: int| 0 <= k < (n + s).len() implies #[trigger] converted(n + s)[k] == (n
        + converted(s))[k] by {
        if k < n.len() {
            lemma_neutral_kept(n[k]);
        }
    }
    assert(converted(n + s) =~= n + converted(s));
}


/// The keys of the US QWERTY layout in the order backquote, top row, home
/// row, bottom row, unshifted then shifted, written out by code point.
pub open spec fn qwerty_key_order() -> Seq<char> {
    seq![
        '`', 'q', 'w', 'e', 'r', 't', 'y', 'u', 'i', 'o', 'p', '[', ']', 'a', 's', 'd', 'f',
        'g', 'h', 'j', 'k', 'l', ';', '\'', 'z', 'x', 'c', 'v', 'b', 'n', 'm', ',', '.', '/',
        '~', 'Q', 'W', 'E', 'R', 'T', 'Y', 'U', 'I', 'O', 'P', '{', '}', 'A', 'S', 'D', 'F',
        'G', 'H', 'J', 'K', 'L', ':', '"', 'Z', 'X', 'C', 'V', 'B', 'N', 'M', '<', '>', '?',
    ]
}

/// What the Russian layout puts on the keys of [`qwerty_key_order`], key for
/// key, written out by code point: `ё`, `й` `ц` `у` `к` ... on the letter
/// keys, `.` and `,` on the slash key; the shifted backquote key carries
/// U+00CB, which is what the application's table holds there.
pub open spec fn jcuken_on_qwerty_keys() -> Seq<char> {
    seq![
        '\u{451}', '\u{439}', '\u{446}', '\u{443}', '\u{43a}', '\u{435}', '\u{43d}', '\u{433}', '\u{448}', '\u{449}', '\u{437}', '\u{445}', '\u{44a}', '\u{444}', '\u{44b}', '\u{432}', '\u{430}',
        '\u{43f}', '\u{440}', '\u{43e}', '\u{43b}', '\u{434}', '\u{436}', '\u{44d}', '\u{44f}', '\u{447}', '\u{441}', '\u{43c}', '\u{438}', '\u{442}', '\u{44c}', '\u{431}', '\u{44e}', '.',
        '\u{cb}', '\u{419}', '\u{426}', '\u{423}', '\u{41a}', '\u{415}', '\u{41d}', '\u{413}', '\u{428}', '\u{429}', '\u{417}', '\u{425}', '\u{42a}', '\u{424}', '\u{42b}', '\u{412}', '\u{410}',
        '\u{41f}', '\u{420}', '\u{41e}', '\u{41b}', '\u{414}', '\u{416}', '\u{42d}', '\u{42f}', '\u{427}', '\u{421}', '\u{41c}', '\u{418}', '\u{422}', '\u{42c}', '\u{411}', '\u{42e}', ',',
    ]
}

/// A character of the Russian alphabet, by code point.
pub open spec fn is_cyrillic_letter(c: char) -> bool {
    ('\u{430}' <= c && c <= '\u{44f}') || ('\u{410}' <= c && c <= '\u{42f}') || c == '\u{451}' || c
        == '\u{401}'
}

/// A text without Russian letters is converted key for key to the Russian
/// layout: every character on the `i`-th QWERTY key becomes the character
/// the Russian layout puts on that key (so `xnj` becomes `что`).
pub proof fn lemma_qwerty_text_converts_key_for_key(s: Seq<char>)
    requires
        forall|j: int| 0 <= j < s.len() ==> !is_cyrillic_letter(#[trigger] s[j]),
    ensures
        converted(s).len() == s.len(),
        forall|k: int, i: int|
            0 <= k < s.len() && 0 <= i < 68 && #[trigger] s[k] == #[trigger] qwerty_key_order()[i]
                ==> converted(s)[k] == jcuken_on_qwerty_keys()[i],
{
    lemma_key_tables();
    assert(qwerty_key_order() =~= latin_keys());
    assert(jcuken_on_qwerty_keys() =~= russian_keys());
    lemma_no_russian_letters(s);
    assert(typed_in_latin(s));
}

/// A text with Russian letters and no ASCII letters is converted key for key
/// to QWERTY: every character on the `i`-th key of the Russian layout becomes
/// the QWERTY character of that key (so `что` becomes `xnj`).
pub proof fn lemma_jcuken_text_converts_key_for_key(s: Seq<char>)
    requires
        forall|j: int|
            0 <= j < s.len() ==> !(('a' <= #[trigger] s[j] && s[j] <= 'z') || ('A' <= s[j] && s[j]
                <= 'Z')),
        exists|j: int| 0 <= j < s.len() && is_cyrillic_letter(#[trigger] s[j]),
    ensures
        converted(s).len() == s.len(),
        forall|k: int, i: int|
            0 <= k < s.len() && 0 <= i < 68 && #[trigger] s[k] == #[trigger] jcuken_on_qwerty_keys()[i]
                ==> converted(s)[k] == qwerty_key_order()[i],
{
    lemma_key_tables();
    assert(qwerty_key_order() =~= latin_keys());
    assert(jcuken_on_qwerty_keys() =~= russian_keys());
    lemma_no_ascii_letters(s);
    let w = choose|j: int| 0 <= j < s.len() && is_cyrillic_letter(#[trigger] s[j]);
    lemma_some_russian_letter(s, w);
    assert(!typed_in_latin(s));
}

} // verus!

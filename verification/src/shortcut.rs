//! Global shortcuts: the normalised form under which a shortcut is stored,
//! the label under which it is shown, and the retry policy for registering
//! it with the system.
use vstd::prelude::*;
use crate::outcome::Outcome;
use crate::text::{
    chars_of, chars_equal, chars_start_with, join_strings, join_with, push_char, split_at_char,
    split_on, string_of, trim_white_space, trimmed, views, lemma_join_with_concat,
    lemma_split_on_concat, lemma_split_on_nonempty,
};

verus! {

/// What `str::to_uppercase` returns for a string: its Unicode upper case.
pub uninterp spec fn uppercase_of(s: Seq<char>) -> Seq<char>;

/// Whether every character of `s` is ASCII.
pub open spec fn is_ascii_text(s: Seq<char>) -> bool {
    forall|i: int| 0 <= i < s.len() ==> s[i] <= '\u{7f}'
}

/// `c` in ASCII upper case: `a`..=`z` become `A`..=`Z`, other characters
/// are kept (`char::to_ascii_uppercase`).
pub open spec fn ascii_upper_char(c: char) -> char {
    if 'a' <= c && c <= 'z' {
        ((c as u32) - 32) as char
    } else {
        c
    }
}

/// `c` in ASCII lower case: `A`..=`Z` become `a`..=`z`, other characters
/// are kept (`char::to_ascii_lowercase`).
pub open spec fn ascii_lower_char(c: char) -> char {
    if 'A' <= c && c <= 'Z' {
        ((c as u32) + 32) as char
    } else {
        c
    }
}

/// `s` in ASCII upper case (`str::to_ascii_uppercase`).
pub open spec fn ascii_upper(s: Seq<char>) -> Seq<char> {
    s.map_values(|c: char| ascii_upper_char(c))
}

/// `s` in ASCII lower case (`str::to_ascii_lowercase`).
pub open spec fn ascii_lower(s: Seq<char>) -> Seq<char> {
    s.map_values(|c: char| ascii_lower_char(c))
}

/// The upper case of a token: its ASCII upper case when it is ASCII, the
/// Unicode upper case named by [`uppercase_of`] otherwise.
pub open spec fn upper_case(s: Seq<char>) -> Seq<char> {
    if is_ascii_text(s) {
        ascii_upper(s)
    } else {
        uppercase_of(s)
    }
}

/// Calls `str::to_uppercase`. The contract names the result; of Unicode
/// case mapping it states only that an ASCII string gets its ASCII upper
/// case (std documents `to_uppercase` as upper-casing ASCII characters as
/// `to_ascii_uppercase` does, and non-ASCII ones besides).
#[verifier::external_body]
fn to_uppercase(s: &str) -> (u: String)
    ensures
        u@ == uppercase_of(s@),
        is_ascii_text(s@) ==> u@ == ascii_upper(s@),
{
    s.to_uppercase()
}

/// An upper-cased token of the form `KEY?` whose last character is a single
/// UTF-8 byte: the token is then exactly four bytes long, as the label rule
/// for key codes asks.
pub open spec fn is_key_code_name(u: Seq<char>) -> bool {
    &&& u.len() == 4
    &&& u.take(3) == "KEY"@
    &&& u[3] <= '\u{7f}'
}

/// An upper-cased token of the form `DIGIT?` that is exactly six UTF-8 bytes
/// long.
pub open spec fn is_digit_code_name(u: Seq<char>) -> bool {
    &&& u.len() == 6
    &&& u.take(5) == "DIGIT"@
    &&& u[5] <= '\u{7f}'
}

/// The label of one upper-cased token of a shortcut: symbols for the
/// modifiers and arrows, short names for some keys, the letter or digit of a
/// `KeyX` or `DigitX` code, the character of a punctuation key, and the token
/// itself otherwise.
pub open spec fn token_label(u: Seq<char>) -> Seq<char> {
    if u == "COMMAND"@ || u == "CMD"@ || u == "SUPER"@ || u == "COMMANDORCONTROL"@
        || u == "COMMANDORCTRL"@ || u == "CMDORCTRL"@ || u == "CMDORCONTROL"@ {
        "\u{2318}"@
    } else if u == "CONTROL"@ || u == "CTRL"@ {
        "\u{2303}"@
    } else if u == "SHIFT"@ {
        "\u{21e7}"@
    } else if u == "ALT"@ || u == "OPTION"@ {
        "\u{2325}"@
    } else if u == "SPACE"@ {
        "Space"@
    } else if u == "ESCAPE"@ {
        "Esc"@
    } else if u == "ENTER"@ {
        "Enter"@
    } else if u == "TAB"@ {
        "Tab"@
    } else if u == "ARROWUP"@ {
        "\u{2191}"@
    } else if u == "ARROWDOWN"@ {
        "\u{2193}"@
    } else if u == "ARROWLEFT"@ {
        "\u{2190}"@
    } else if u == "ARROWRIGHT"@ {
        "\u{2192}"@
    } else if is_key_code_name(u) {
        seq![u[3]]
    } else if is_digit_code_name(u) {
        seq![u[5]]
    } else if u == "MINUS"@ {
        "-"@
    } else if u == "EQUAL"@ {
        "="@
    } else if u == "COMMA"@ {
        ","@
    } else if u == "PERIOD"@ {
        "."@
    } else if u == "SLASH"@ {
        "/"@
    } else if u == "BACKQUOTE"@ {
        "`"@
    } else if u == "SEMICOLON"@ {
        ";"@
    } else if u == "QUOTE"@ {
        "'"@
    } else if u == "BRACKETLEFT"@ {
        "["@
    } else if u == "BRACKETRIGHT"@ {
        "]"@
    } else if u == "BACKSLASH"@ {
        "\\"@
    } else {
        u
    }
}

/// The single-byte character that follows `prefix` when `u` is `prefix`
/// and one more character of one UTF-8 byte.
fn code_name_char(u: &Vec<char>, prefix: &str) -> (r: Option<char>)
    ensures
        r == (if u@.len() == prefix@.len() + 1 && u@.take(prefix@.len() as int) == prefix@
            && u@.last() <= '\u{7f}' {
            Some(u@.last())
        } else {
            None
        }),
{
    let n = prefix.unicode_len();
    if u.len() > n && u.len() - 1 == n && chars_start_with(u, prefix) {
        let c = u[n];
        if c <= '\u{7f}' {
            return Some(c);
        }
    }
    None
}

/// The label of an upper-cased shortcut token (see [`token_label`]).
pub fn label_for_token(upper: &str) -> (label: String)
    ensures
        label@ == token_label(upper@),
{
    let u = chars_of(upper);
    proof {
        reveal_strlit("KEY");
        reveal_strlit("DIGIT");
    }
    if chars_equal(&u, "COMMAND") || chars_equal(&u, "CMD") || chars_equal(&u, "SUPER")
        || chars_equal(&u, "COMMANDORCONTROL") || chars_equal(&u, "COMMANDORCTRL")
        || chars_equal(&u, "CMDORCTRL") || chars_equal(&u, "CMDORCONTROL") {
        string_of("\u{2318}")
    } else if chars_equal(&u, "CONTROL") || chars_equal(&u, "CTRL") {
        string_of("\u{2303}")
    } else if chars_equal(&u, "SHIFT") {
        string_of("\u{21e7}")
    } else if chars_equal(&u, "ALT") || chars_equal(&u, "OPTION") {
        string_of("\u{2325}")
    } else if chars_equal(&u, "SPACE") {
        string_of("Space")
    } else if chars_equal(&u, "ESCAPE") {
        string_of("Esc")
    } else if chars_equal(&u, "ENTER") {
        string_of("Enter")
    } else if chars_equal(&u, "TAB") {
        string_of("Tab")
    } else if chars_equal(&u, "ARROWUP") {
        string_of("\u{2191}")
    } else if chars_equal(&u, "ARROWDOWN") {
        string_of("\u{2193}")
    } else if chars_equal(&u, "ARROWLEFT") {
        string_of("\u{2190}")
    } else if chars_equal(&u, "ARROWRIGHT") {
        string_of("\u{2192}")
    } else if let Some(c) = code_name_char(&u, "KEY") {
        let mut s = String::new();
        push_char(&mut s, c);
        assert(s@ =~= seq![c]);
        s
    } else if let Some(c) = code_name_char(&u, "DIGIT") {
        let mut s = String::new();
        push_char(&mut s, c);
        assert(s@ =~= seq![c]);
        s
    } else if chars_equal(&u, "MINUS") {
        string_of("-")
    } else if chars_equal(&u, "EQUAL") {
        string_of("=")
    } else if chars_equal(&u, "COMMA") {
        string_of(",")
    } else if chars_equal(&u, "PERIOD") {
        string_of(".")
    } else if chars_equal(&u, "SLASH") {
        string_of("/")
    } else if chars_equal(&u, "BACKQUOTE") {
        string_of("`")
    } else if chars_equal(&u, "SEMICOLON") {
        string_of(";")
    } else if chars_equal(&u, "QUOTE") {
        string_of("'")
    } else if chars_equal(&u, "BRACKETLEFT") {
        string_of("[")
    } else if chars_equal(&u, "BRACKETRIGHT") {
        string_of("]")
    } else if chars_equal(&u, "BACKSLASH") {
        string_of("\\")
    } else {
        string_of(upper)
    }
}

/// The label of a shortcut: the label of each `+`-separated token, taken in
/// upper case (see [`upper_case`]), joined with `" + "`.
pub open spec fn shortcut_label(shortcut: Seq<char>) -> Seq<char> {
    join_with(token_labels(split_on(shortcut, '+')), " + "@)
}

/// The label of each token, taken in upper case.
pub open spec fn token_labels(tokens: Seq<Seq<char>>) -> Seq<Seq<char>> {
    tokens.map_values(|t: Seq<char>| token_label(upper_case(t)))
}

/// The label shown for a shortcut, e.g. `⌘ + ⇧ + K` for `Command+Shift+KeyK`.
pub fn shortcut_to_label(shortcut: &str) -> (label: String)
    ensures
        label@ == shortcut_label(shortcut@),
{
    let tokens = split_at_char(shortcut, '+');
    let ghost pieces = split_on(shortcut@, '+');
    let n = tokens.len();
    let mut labels: Vec<String> = Vec::new();
    let mut i: usize = 0;
    while i < n
        invariant
            i <= n,
            n == tokens@.len(),
            views(tokens@) == pieces,
            pieces == split_on(shortcut@, '+'),
            views(labels@) == token_labels(pieces.take(i as int)),
        decreases n - i,
    {
        assert(tokens@[i as int]@ == pieces[i as int]);
        let upper = to_uppercase(tokens[i].as_str());
        let label = label_for_token(upper.as_str());
        let ghost before = views(labels@);
        labels.push(label);
        assert(views(labels@) =~= before.push(label@));
        assert(token_labels(pieces.take(i + 1)) =~= token_labels(pieces.take(i as int)).push(
            token_label(upper_case(pieces[i as int])),
        ));
        i = i + 1;
    }
    assert(pieces.take(n as int) =~= pieces);
    join_strings(&labels, " + ")
}


/// The label of two shortcut texts joined by `+` is their two labels joined
/// by `" + "`.
pub proof fn lemma_label_of_joined_shortcut(a: Seq<char>, b: Seq<char>)
    ensures
        shortcut_label(a.push('+') + b) == shortcut_label(a) + " + "@ + shortcut_label(b),
{
    lemma_split_on_concat(a, b, '+');
    lemma_split_on_nonempty(a, '+');
    lemma_split_on_nonempty(b, '+');
    let pa = split_on(a, '+');
    let pb = split_on(b, '+');
    assert(token_labels(pa + pb) =~= token_labels(pa) + token_labels(pb));
    lemma_join_with_concat(token_labels(pa), token_labels(pb), " + "@);
}

proof fn lemma_ascii_case_chars(c: char)
    ensures
        c <= '\u{7f}' ==> ascii_upper_char(c) <= '\u{7f}' && ascii_lower_char(c) <= '\u{7f}',
        (ascii_upper_char(c) == '+') == (c == '+'),
        ascii_upper_char(ascii_upper_char(c)) == ascii_upper_char(c),
        ascii_upper_char(ascii_lower_char(c)) == ascii_upper_char(c),
{
}

/// Two ASCII texts that differ at most in the ASCII case of their letters.
pub open spec fn same_up_to_ascii_case(a: Seq<char>, b: Seq<char>) -> bool {
    &&& a.len() == b.len()
    &&& is_ascii_text(a)
    &&& is_ascii_text(b)
    &&& forall|i: int| 0 <= i < a.len() ==> ascii_upper_char(#[trigger] a[i]) == ascii_upper_char(b[i])
}

proof fn lemma_split_same_up_to_case(a: Seq<char>, b: Seq<char>)
    requires
        same_up_to_ascii_case(a, b),
    ensures
        split_on(a, '+').len() == split_on(b, '+').len(),
        forall|j: int|
            0 <= j < split_on(a, '+').len() ==> same_up_to_ascii_case(
                #[trigger] split_on(a, '+')[j],
                split_on(b, '+')[j],
            ),
    decreases a.len(),
{
    if a.len() > 0 {
        let a2 = a.drop_last();
        let b2 = b.drop_last();
        assert(same_up_to_ascii_case(a2, b2)) by {
            assert forall|i: int| 0 <= i < a2.len() implies ascii_upper_char(#[trigger] a2[i])
                == ascii_upper_char(b2[i]) by {
                assert(a2[i] == a[i] && b2[i] == b[i]);
            }
        }
        lemma_split_same_up_to_case(a2, b2);
        lemma_split_on_nonempty(a2, '+');
        let x = a.last();
        let y = b.last();
        assert(ascii_upper_char(x) == ascii_upper_char(y));
        lemma_ascii_case_chars(x);
        lemma_ascii_case_chars(y);
        let pa = split_on(a2, '+');
        let pb = split_on(b2, '+');
        if x == '+' {
            assert(y == '+');
            assert forall|j: int| 0 <= j < split_on(a, '+').len() implies same_up_to_ascii_case(
                #[trigger] split_on(a, '+')[j],
                split_on(b, '+')[j],
            ) by {
                if j < pa.len() {
                    assert(split_on(a, '+')[j] == pa[j]);
                    assert(split_on(b, '+')[j] == pb[j]);
                }
            }
        } else {
            assert(y != '+');
            let la = pa.last();
            let lb = pb.last();
            assert(same_up_to_ascii_case(la, lb));
            assert(same_up_to_ascii_case(la.push(x), lb.push(y))) by {
                assert forall|i: int| 0 <= i < la.push(x).len() implies ascii_upper_char(
                    #[trigger] la.push(x)[i],
                ) == ascii_upper_char(lb.push(y)[i]) by {
                    if i < la.len() {
                        assert(la.push(x)[i] == la[i] && lb.push(y)[i] == lb[i]);
                    }
                }
            }
            assert forall|j: int| 0 <= j < split_on(a, '+').len() implies same_up_to_ascii_case(
                #[trigger] split_on(a, '+')[j],
                split_on(b, '+')[j],
            ) by {
                if j < pa.len() - 1 {
                    assert(split_on(a, '+')[j] == pa[j]);
                    assert(split_on(b, '+')[j] == pb[j]);
                }
            }
        }
    }
}

/// The label of an ASCII shortcut text ignores the case of its letters:
/// the text, its ASCII upper case and its ASCII lower case have the same
/// label.
pub proof fn lemma_label_ignores_ascii_case(s: Seq<char>)
    requires
        is_ascii_text(s),
    ensures
        shortcut_label(s) == shortcut_label(ascii_upper(s)),
        shortcut_label(s) == shortcut_label(ascii_lower(s)),
{
    assert forall|i: int| 0 <= i < s.len() implies ascii_upper(s)[i] <= '\u{7f}' && ascii_lower(s)[i]
        <= '\u{7f}' && ascii_upper_char(#[trigger] s[i]) == ascii_upper_char(ascii_upper(s)[i])
        && ascii_upper_char(s[i]) == ascii_upper_char(ascii_lower(s)[i]) by {
        lemma_ascii_case_chars(s[i]);
    }
    lemma_label_same_up_to_case(s, ascii_upper(s));
    lemma_label_same_up_to_case(s, ascii_lower(s));
}

proof fn lemma_label_same_up_to_case(a: Seq<char>, b: Seq<char>)
    requires
        same_up_to_ascii_case(a, b),
    ensures
        shortcut_label(a) == shortcut_label(b),
{
    lemma_split_same_up_to_case(a, b);
    let pa = split_on(a, '+');
    let pb = split_on(b, '+');
    assert forall|j: int| 0 <= j < pa.len() implies #[trigger] upper_case(pa[j]) == upper_case(pb[j]) by {
        assert(same_up_to_ascii_case(pa[j], pb[j]));
        assert(ascii_upper(pa[j]) =~= ascii_upper(pb[j]));
    }
    assert(token_labels(pa) =~= token_labels(pb));
}

proof fn lemma_label_of_control(u: Seq<char>)
    requires
        u == "CONTROL"@,
    ensures
        token_label(u) == "\u{2303}"@,
{
    reveal_strlit("COMMAND");
    reveal_strlit("CMD");
    reveal_strlit("SUPER");
    reveal_strlit("COMMANDORCONTROL");
    reveal_strlit("COMMANDORCTRL");
    reveal_strlit("CMDORCTRL");
    reveal_strlit("CMDORCONTROL");
    reveal_strlit("CONTROL");
    broadcast use vstd::string::group_string_axioms;
    assert(u != "COMMAND"@) by {
        if u.len() == "COMMAND"@.len() {
            assert(u[2] != "COMMAND"@[2]);
        }
    }
    assert(u != "CMD"@) by {
        if u.len() == "CMD"@.len() {
            assert(u[1] != "CMD"@[1]);
        }
    }
    assert(u != "SUPER"@) by {
        if u.len() == "SUPER"@.len() {
            assert(u[0] != "SUPER"@[0]);
        }
    }
    assert(u != "COMMANDORCONTROL"@) by {
        if u.len() == "COMMANDORCONTROL"@.len() {
            assert(u[2] != "COMMANDORCONTROL"@[2]);
        }
    }
    assert(u != "COMMANDORCTRL"@) by {
        if u.len() == "COMMANDORCTRL"@.len() {
            assert(u[2] != "COMMANDORCTRL"@[2]);
        }
    }
    assert(u != "CMDORCTRL"@) by {
        if u.len() == "CMDORCTRL"@.len() {
            assert(u[1] != "CMDORCTRL"@[1]);
        }
    }
    assert(u != "CMDORCONTROL"@) by {
        if u.len() == "CMDORCONTROL"@.len() {
            assert(u[1] != "CMDORCONTROL"@[1]);
        }
    }
}

proof fn lemma_label_of_ctrl(u: Seq<char>)
    requires
        u == "CTRL"@,
    ensures
        token_label(u) == "\u{2303}"@,
{
    reveal_strlit("COMMAND");
    reveal_strlit("CMD");
    reveal_strlit("SUPER");
    reveal_strlit("COMMANDORCONTROL");
    reveal_strlit("COMMANDORCTRL");
    reveal_strlit("CMDORCTRL");
    reveal_strlit("CMDORCONTROL");
    reveal_strlit("CONTROL");
    reveal_strlit("CTRL");
    broadcast use vstd::string::group_string_axioms;
    assert(u != "COMMAND"@) by {
        if u.len() == "COMMAND"@.len() {
            assert(u[1] != "COMMAND"@[1]);
        }
    }
    assert(u != "CMD"@) by {
        if u.len() == "CMD"@.len() {
            assert(u[1] != "CMD"@[1]);
        }
    }
    assert(u != "SUPER"@) by {
        if u.len() == "SUPER"@.len() {
            assert(u[0] != "SUPER"@[0]);
        }
    }
    assert(u != "COMMANDORCONTROL"@) by {
        if u.len() == "COMMANDORCONTROL"@.len() {
            assert(u[1] != "COMMANDORCONTROL"@[1]);
        }
    }
    assert(u != "COMMANDORCTRL"@) by {
        if u.len() == "COMMANDORCTRL"@.len() {
            assert(u[1] != "COMMANDORCTRL"@[1]);
        }
    }
    assert(u != "CMDORCTRL"@) by {
        if u.len() == "CMDORCTRL"@.len() {
            assert(u[1] != "CMDORCTRL"@[1]);
        }
    }
    assert(u != "CMDORCONTROL"@) by {
        if u.len() == "CMDORCONTROL"@.len() {
            assert(u[1] != "CMDORCONTROL"@[1]);
        }
    }
    assert(u != "CONTROL"@) by {
        if u.len() == "CONTROL"@.len() {
            assert(u[1] != "CONTROL"@[1]);
        }
    }
}

proof fn lemma_label_of_shift(u: Seq<char>)
    requires
        u == "SHIFT"@,
    ensures
        token_label(u) == "\u{21e7}"@,
{
    reveal_strlit("COMMAND");
    reveal_strlit("CMD");
    reveal_strlit("SUPER");
    reveal_strlit("COMMANDORCONTROL");
    reveal_strlit("COMMANDORCTRL");
    reveal_strlit("CMDORCTRL");
    reveal_strlit("CMDORCONTROL");
    reveal_strlit("CONTROL");
    reveal_strlit("CTRL");
    reveal_strlit("SHIFT");
    broadcast use vstd::string::group_string_axioms;
    assert(u != "COMMAND"@) by {
        if u.len() == "COMMAND"@.len() {
            assert(u[0] != "COMMAND"@[0]);
        }
    }
    assert(u != "CMD"@) by {
        if u.len() == "CMD"@.len() {
            assert(u[0] != "CMD"@[0]);
        }
    }
    assert(u != "SUPER"@) by {
        if u.len() == "SUPER"@.len() {
            assert(u[1] != "SUPER"@[1]);
        }
    }
    assert(u != "COMMANDORCONTROL"@) by {
        if u.len() == "COMMANDORCONTROL"@.len() {
            assert(u[0] != "COMMANDORCONTROL"@[0]);
        }
    }
    assert(u != "COMMANDORCTRL"@) by {
        if u.len() == "COMMANDORCTRL"@.len() {
            assert(u[0] != "COMMANDORCTRL"@[0]);
        }
    }
    assert(u != "CMDORCTRL"@) by {
        if u.len() == "CMDORCTRL"@.len() {
            assert(u[0] != "CMDORCTRL"@[0]);
        }
    }
    assert(u != "CMDORCONTROL"@) by {
        if u.len() == "CMDORCONTROL"@.len() {
            assert(u[0] != "CMDORCONTROL"@[0]);
        }
    }
    assert(u != "CONTROL"@) by {
        if u.len() == "CONTROL"@.len() {
            assert(u[0] != "CONTROL"@[0]);
        }
    }
    assert(u != "CTRL"@) by {
        if u.len() == "CTRL"@.len() {
            assert(u[0] != "CTRL"@[0]);
        }
    }
}

proof fn lemma_label_of_alt(u: Seq<char>)
    requires
        u == "ALT"@,
    ensures
        token_label(u) == "\u{2325}"@,
{
    reveal_strlit("COMMAND");
    reveal_strlit("CMD");
    reveal_strlit("SUPER");
    reveal_strlit("COMMANDORCONTROL");
    reveal_strlit("COMMANDORCTRL");
    reveal_strlit("CMDORCTRL");
    reveal_strlit("CMDORCONTROL");
    reveal_strlit("CONTROL");
    reveal_strlit("CTRL");
    reveal_strlit("SHIFT");
    reveal_strlit("ALT");
    broadcast use vstd::string::group_string_axioms;
    assert(u != "COMMAND"@) by {
        if u.len() == "COMMAND"@.len() {
            assert(u[0] != "COMMAND"@[0]);
        }
    }
    assert(u != "CMD"@) by {
        if u.len() == "CMD"@.len() {
            assert(u[0] != "CMD"@[0]);
        }
    }
    assert(u != "SUPER"@) by {
        if u.len() == "SUPER"@.len() {
            assert(u[0] != "SUPER"@[0]);
        }
    }
    assert(u != "COMMANDORCONTROL"@) by {
        if u.len() == "COMMANDORCONTROL"@.len() {
            assert(u[0] != "COMMANDORCONTROL"@[0]);
        }
    }
    assert(u != "COMMANDORCTRL"@) by {
        if u.len() == "COMMANDORCTRL"@.len() {
            assert(u[0] != "COMMANDORCTRL"@[0]);
        }
    }
    assert(u != "CMDORCTRL"@) by {
        if u.len() == "CMDORCTRL"@.len() {
            assert(u[0] != "CMDORCTRL"@[0]);
        }
    }
    assert(u != "CMDORCONTROL"@) by {
        if u.len() == "CMDORCONTROL"@.len() {
            assert(u[0] != "CMDORCONTROL"@[0]);
        }
    }
    assert(u != "CONTROL"@) by {
        if u.len() == "CONTROL"@.len() {
            assert(u[0] != "CONTROL"@[0]);
        }
    }
    assert(u != "CTRL"@) by {
        if u.len() == "CTRL"@.len() {
            assert(u[0] != "CTRL"@[0]);
        }
    }
    assert(u != "SHIFT"@) by {
        if u.len() == "SHIFT"@.len() {
            assert(u[0] != "SHIFT"@[0]);
        }
    }
}

proof fn lemma_label_of_option(u: Seq<char>)
    requires
        u == "OPTION"@,
    ensures
        token_label(u) == "\u{2325}"@,
{
    reveal_strlit("COMMAND");
    reveal_strlit("CMD");
    reveal_strlit("SUPER");
    reveal_strlit("COMMANDORCONTROL");
    reveal_strlit("COMMANDORCTRL");
    reveal_strlit("CMDORCTRL");
    reveal_strlit("CMDORCONTROL");
    reveal_strlit("CONTROL");
    reveal_strlit("CTRL");
    reveal_strlit("SHIFT");
    reveal_strlit("ALT");
    reveal_strlit("OPTION");
    broadcast use vstd::string::group_string_axioms;
    assert(u != "COMMAND"@) by {
        if u.len() == "COMMAND"@.len() {
            assert(u[0] != "COMMAND"@[0]);
        }
    }
    assert(u != "CMD"@) by {
        if u.len() == "CMD"@.len() {
            assert(u[0] != "CMD"@[0]);
        }
    }
    assert(u != "SUPER"@) by {
        if u.len() == "SUPER"@.len() {
            assert(u[0] != "SUPER"@[0]);
        }
    }
    assert(u != "COMMANDORCONTROL"@) by {
        if u.len() == "COMMANDORCONTROL"@.len() {
            assert(u[0] != "COMMANDORCONTROL"@[0]);
        }
    }
    assert(u != "COMMANDORCTRL"@) by {
        if u.len() == "COMMANDORCTRL"@.len() {
            assert(u[0] != "COMMANDORCTRL"@[0]);
        }
    }
    assert(u != "CMDORCTRL"@) by {
        if u.len() == "CMDORCTRL"@.len() {
            assert(u[0] != "CMDORCTRL"@[0]);
        }
    }
    assert(u != "CMDORCONTROL"@) by {
        if u.len() == "CMDORCONTROL"@.len() {
            assert(u[0] != "CMDORCONTROL"@[0]);
        }
    }
    assert(u != "CONTROL"@) by {
        if u.len() == "CONTROL"@.len() {
            assert(u[0] != "CONTROL"@[0]);
        }
    }
    assert(u != "CTRL"@) by {
        if u.len() == "CTRL"@.len() {
            assert(u[0] != "CTRL"@[0]);
        }
    }
    assert(u != "SHIFT"@) by {
        if u.len() == "SHIFT"@.len() {
            assert(u[0] != "SHIFT"@[0]);
        }
    }
    assert(u != "ALT"@) by {
        if u.len() == "ALT"@.len() {
            assert(u[0] != "ALT"@[0]);
        }
    }
}

proof fn lemma_modifier_names_forward(u: Seq<char>)
    ensures
        (u == "COMMAND"@ || u == "CMD"@ || u == "SUPER"@ || u == "COMMANDORCONTROL"@ || u
            == "COMMANDORCTRL"@ || u == "CMDORCTRL"@ || u == "CMDORCONTROL"@) ==> token_label(u)
            == "\u{2318}"@,
        (u == "CONTROL"@ || u == "CTRL"@) ==> token_label(u) == "\u{2303}"@,
        u == "SHIFT"@ ==> token_label(u) == "\u{21e7}"@,
        (u == "ALT"@ || u == "OPTION"@) ==> token_label(u) == "\u{2325}"@,
{
    if u == "CONTROL"@ {
        lemma_label_of_control(u);
    }
    if u == "CTRL"@ {
        lemma_label_of_ctrl(u);
    }
    if u == "SHIFT"@ {
        lemma_label_of_shift(u);
    }
    if u == "ALT"@ {
        lemma_label_of_alt(u);
    }
    if u == "OPTION"@ {
        lemma_label_of_option(u);
    }
}

proof fn lemma_symbol_labels_backward(u: Seq<char>)
    ensures
        token_label(u) == "\u{2318}"@ ==> (u == "COMMAND"@ || u == "CMD"@ || u == "SUPER"@ || u == "COMMANDORCONTROL"@ || u
            == "COMMANDORCTRL"@ || u == "CMDORCTRL"@ || u == "CMDORCONTROL"@ || u == "\u{2318}"@),
        token_label(u) == "\u{2303}"@ ==> (u == "CONTROL"@ || u == "CTRL"@ || u == "\u{2303}"@),
{
    broadcast use vstd::string::group_string_axioms;
    reveal_strlit("\u{2318}");
    reveal_strlit("\u{2303}");
    reveal_strlit("\u{21e7}");
    reveal_strlit("\u{2325}");
    reveal_strlit("Space");
    reveal_strlit("Esc");
    reveal_strlit("Enter");
    reveal_strlit("Tab");
    reveal_strlit("\u{2191}");
    reveal_strlit("\u{2193}");
    reveal_strlit("\u{2190}");
    reveal_strlit("\u{2192}");
    reveal_strlit("-");
    reveal_strlit("=");
    reveal_strlit(",");
    reveal_strlit(".");
    reveal_strlit("/");
    reveal_strlit("`");
    reveal_strlit(";");
    reveal_strlit("'");
    reveal_strlit("[");
    reveal_strlit("]");
    reveal_strlit("\\");
    assert("\u{2318}"@.len() == 1 && "\u{2318}"@[0] == '\u{2318}');
    assert("\u{2303}"@.len() == 1 && "\u{2303}"@[0] == '\u{2303}');
}

/// The modifier tokens are labelled by their symbols: the Command names
/// (`COMMAND`, `CMD`, `SUPER` and the four `COMMANDORCONTROL` spellings) by
/// `⌘`, `CONTROL` and `CTRL` by `⌃`, `SHIFT` by `⇧`, `ALT` and `OPTION` by
/// `⌥`; and no other upper-cased token gets `⌘` or `⌃`, except the symbol
/// itself, which is shown as it is.
pub proof fn lemma_modifier_token_symbols(u: Seq<char>)
    ensures
        (u == "COMMAND"@ || u == "CMD"@ || u == "SUPER"@ || u == "COMMANDORCONTROL"@ || u
            == "COMMANDORCTRL"@ || u == "CMDORCTRL"@ || u == "CMDORCONTROL"@) ==> token_label(u)
            == "\u{2318}"@,
        (u == "CONTROL"@ || u == "CTRL"@) ==> token_label(u) == "\u{2303}"@,
        u == "SHIFT"@ ==> token_label(u) == "\u{21e7}"@,
        (u == "ALT"@ || u == "OPTION"@) ==> token_label(u) == "\u{2325}"@,
        token_label(u) == "\u{2318}"@ ==> (u == "COMMAND"@ || u == "CMD"@ || u == "SUPER"@ || u == "COMMANDORCONTROL"@ || u
            == "COMMANDORCTRL"@ || u == "CMDORCTRL"@ || u == "CMDORCONTROL"@ || u == "\u{2318}"@),
        token_label(u) == "\u{2303}"@ ==> (u == "CONTROL"@ || u == "CTRL"@ || u == "\u{2303}"@),
{
    lemma_modifier_names_forward(u);
    lemma_symbol_labels_backward(u);
}

/// Bit of the Alt (Option) modifier in a parsed modifier set.
pub const MODIFIER_ALT: u32 = 0x1;

/// Bit of the Control modifier in a parsed modifier set.
pub const MODIFIER_CONTROL: u32 = 0x8;

/// Bit of the Shift modifier in a parsed modifier set.
pub const MODIFIER_SHIFT: u32 = 0x200;

/// Bit of the Command (super) modifier in a parsed modifier set.
pub const MODIFIER_COMMAND: u32 = 0x2000;

/// A shortcut as the shortcut parser reads it: its modifiers, as the bits of
/// `keyboard_types::Modifiers` (see the `MODIFIER_*` constants), and the name
/// of its main key code, such as `KeyK`.
pub struct ParsedShortcut {
    pub modifiers: u32,
    pub key: String,
}

/// What `global_hotkey::hotkey::HotKey::from_str` makes of a text: `None`
/// when it refuses it, else the modifier bits and the key code's name. The
/// parser depends on the platform it was built for: `CommandOrControl` and
/// its short forms read as Command on macOS and as Control elsewhere.
pub uninterp spec fn parsed_shortcut(text: Seq<char>) -> Option<(u32, Seq<char>)>;

/// Parses a shortcut with `HotKey::from_str` (the parser behind
/// `tauri_plugin_global_shortcut::Shortcut`) and reads out its modifier bits
/// and its key code's name. The contract only names the result.
#[verifier::external_body]
fn parse_shortcut(text: &str) -> (r: Option<ParsedShortcut>)
    ensures
        match r {
            Some(p) => parsed_shortcut(text@) == Some((p.modifiers, p.key@)),
            None => parsed_shortcut(text@) is None,
        },
{
    match text.parse::<global_hotkey::hotkey::HotKey>() {
        Ok(hotkey) => Some(ParsedShortcut { modifiers: hotkey.mods.bits(), key: hotkey.key.to_string() }),
        Err(_) => None,
    }
}

/// Reads a shortcut before it is registered with the system: the parsed
/// shortcut, or the message for a text that the parser refuses.
pub fn shortcut_for_registration(text: &str) -> (r: Result<ParsedShortcut, String>)
    ensures
        match r {
            Ok(p) => parsed_shortcut(text@) == Some((p.modifiers, p.key@)),
            Err(e) => parsed_shortcut(text@) is None && e@ == bad_format_message(),
        },
{
    match parse_shortcut(text) {
        Some(p) => Ok(p),
        None => Err(string_of("Некорректный формат хоткея")),
    }
}

/// Whether the modifier set holds the modifier `bit`.
pub open spec fn has_modifier(modifiers: u32, bit: u32) -> bool {
    modifiers & bit == bit
}

/// The parts of the stored form of a shortcut: the modifiers it holds, in
/// the fixed order Command, Control, Alt, Shift, then the key.
pub open spec fn normalized_parts(modifiers: u32, key: Seq<char>) -> Seq<Seq<char>> {
    (if has_modifier(modifiers, MODIFIER_COMMAND) { seq!["Command"@] } else { seq![] })
        + (if has_modifier(modifiers, MODIFIER_CONTROL) { seq!["Control"@] } else { seq![] })
        + (if has_modifier(modifiers, MODIFIER_ALT) { seq!["Alt"@] } else { seq![] })
        + (if has_modifier(modifiers, MODIFIER_SHIFT) { seq!["Shift"@] } else { seq![] })
        + seq![key]
}

/// The message for a shortcut text that the parser refuses.
pub open spec fn bad_format_message() -> Seq<char> {
    "Некорректный формат хоткея"@
}

/// The message for a shortcut without any modifier.
pub open spec fn no_modifier_message() -> Seq<char> {
    "Хоткей должен содержать хотя бы один модификатор"@
}

/// The stored form of a parsed shortcut, or the reason it cannot be stored.
pub open spec fn normalization_of(parsed: Option<(u32, Seq<char>)>) -> Result<Seq<char>, Seq<char>> {
    match parsed {
        None => Err(bad_format_message()),
        Some((modifiers, key)) => if modifiers == 0 {
            Err(no_modifier_message())
        } else {
            Ok(join_with(normalized_parts(modifiers, key), "+"@))
        },
    }
}

/// The stored form of a shortcut text: parsed once trimmed, refused without
/// a modifier, else written as `Command+Control+Alt+Shift+Key` with only the
/// modifiers it holds.
pub open spec fn normalization(input: Seq<char>) -> Result<Seq<char>, Seq<char>> {
    normalization_of(parsed_shortcut(trimmed(input)))
}

/// Normalising a stored form gives it back, whenever the shortcut parser
/// reads the stored form back to a shortcut with a modifier and the same
/// modifiers (of Command, Control, Alt, Shift) and key. Whether it does is
/// the parser's matter and is not stated here.
pub proof fn lemma_stored_form_is_stable(modifiers: u32, key: Seq<char>, read: u32)
    requires
        normalization_of(Some((modifiers, key))) is Ok,
        parsed_shortcut(trimmed(join_with(normalized_parts(modifiers, key), "+"@))) == Some(
            (read, key),
        ),
        read != 0,
        normalized_parts(read, key) == normalized_parts(modifiers, key),
    ensures
        ({
            let stored = join_with(normalized_parts(modifiers, key), "+"@);
            &&& normalization_of(Some((modifiers, key))) == Ok::<Seq<char>, Seq<char>>(stored)
            &&& normalization(stored) == Ok::<Seq<char>, Seq<char>>(stored)
        }),
{
}

/// The stored form of a parsed shortcut names exactly its modifiers, each
/// followed by `+`, in the order Command (bit 0x2000), Control (0x8), Alt
/// (0x1), Shift (0x200), then the key; a shortcut without any modifier bit
/// is refused.
pub proof fn lemma_stored_form_names_exactly_its_modifiers(modifiers: u32, key: Seq<char>)
    ensures
        modifiers == 0 ==> normalization_of(Some((modifiers, key))) is Err,
        modifiers != 0 ==> normalization_of(Some((modifiers, key))) == Ok::<Seq<char>, Seq<char>>(
            (if modifiers & 0x2000 == 0x2000 { "Command+"@ } else { Seq::<char>::empty() }) + (
            if modifiers & 0x8 == 0x8 {
                "Control+"@
            } else {
                Seq::<char>::empty()
            }) + (if modifiers & 0x1 == 0x1 { "Alt+"@ } else { Seq::<char>::empty() }) + (
            if modifiers & 0x200 == 0x200 {
                "Shift+"@
            } else {
                Seq::<char>::empty()
            }) + key,
        ),
{
    if modifiers != 0 {
        let parts = normalized_parts(modifiers, key);
        let mods = parts.drop_last();
        assert(parts =~= mods.push(key));
        lemma_join_names_then_key(mods, key);
        let c = if modifiers & 0x2000 == 0x2000 { seq!["Command"@] } else { seq![] };
        let t = if modifiers & 0x8 == 0x8 { seq!["Control"@] } else { seq![] };
        let a = if modifiers & 0x1 == 0x1 { seq!["Alt"@] } else { seq![] };
        let h = if modifiers & 0x200 == 0x200 { seq!["Shift"@] } else { seq![] };
        assert(mods =~= c + t + a + h);
        lemma_names_with_plus_concat(c + t + a, h);
        lemma_names_with_plus_concat(c + t, a);
        lemma_names_with_plus_concat(c, t);
        assert(names_with_plus(seq![]) =~= Seq::<char>::empty());
        lemma_names_with_plus_single("Command"@);
        lemma_names_with_plus_single("Control"@);
        lemma_names_with_plus_single("Alt"@);
        lemma_names_with_plus_single("Shift"@);
        reveal_strlit("Command+");
        reveal_strlit("Command");
        reveal_strlit("Control+");
        reveal_strlit("Control");
        reveal_strlit("Alt+");
        reveal_strlit("Alt");
        reveal_strlit("Shift+");
        reveal_strlit("Shift");
        reveal_strlit("+");
        assert("Command"@ + "+"@ =~= "Command+"@);
        assert("Control"@ + "+"@ =~= "Control+"@);
        assert("Alt"@ + "+"@ =~= "Alt+"@);
        assert("Shift"@ + "+"@ =~= "Shift+"@);
    }
}

/// Each name followed by `+`, one after the other.
pub open spec fn names_with_plus(names: Seq<Seq<char>>) -> Seq<char>
    decreases names.len(),
{
    if names.len() == 0 {
        Seq::<char>::empty()
    } else {
        names_with_plus(names.drop_last()) + names.last() + "+"@
    }
}

proof fn lemma_names_with_plus_single(name: Seq<char>)
    ensures
        names_with_plus(seq![name]) == name + "+"@,
{
    assert(seq![name].drop_last() =~= Seq::<Seq<char>>::empty());
    assert(names_with_plus(Seq::<Seq<char>>::empty()) == Seq::<char>::empty());
    assert(seq![name].last() == name);
    assert(Seq::<char>::empty() + name + "+"@ =~= name + "+"@);
}

proof fn lemma_names_with_plus_concat(x: Seq<Seq<char>>, y: Seq<Seq<char>>)
    ensures
        names_with_plus(x + y) == names_with_plus(x) + names_with_plus(y),
    decreases y.len(),
{
    if y.len() == 0 {
        assert(x + y =~= x);
    } else {
        lemma_names_with_plus_concat(x, y.drop_last());
        assert((x + y).drop_last() =~= x + y.drop_last());
        assert(names_with_plus(x) + names_with_plus(y.drop_last()) + y.last() + "+"@ =~= names_with_plus(x)
            + (names_with_plus(y.drop_last()) + y.last() + "+"@));
    }
}

proof fn lemma_join_names_then_key(names: Seq<Seq<char>>, key: Seq<char>)
    ensures
        join_with(names.push(key), "+"@) == names_with_plus(names) + key,
    decreases names.len(),
{
    if names.len() == 0 {
        assert(names.push(key) =~= seq![key]);
        assert(Seq::<char>::empty() + key =~= key);
    } else {
        let last = names.last();
        let init = names.drop_last();
        lemma_join_names_then_key(init, last);
        assert(names.push(key).drop_last() =~= names);
        assert(init.push(last) =~= names);
        assert(names_with_plus(init) + last + "+"@ + key =~= names_with_plus(init) + last + "+"@ + key);
    }
}

/// A string result taken by its views.
pub open spec fn result_view(r: Result<String, String>) -> Result<Seq<char>, Seq<char>> {
    match r {
        Ok(s) => Ok(s@),
        Err(e) => Err(e@),
    }
}

/// The stored form of an already parsed shortcut (see [`normalization_of`]).
pub fn normalize_parsed(parsed: Option<ParsedShortcut>) -> (r: Result<String, String>)
    ensures
        result_view(r) == normalization_of(match parsed {
            Some(p) => Some((p.modifiers, p.key@)),
            None => None,
        }),
{
    match parsed {
        None => Err(string_of("Некорректный формат хоткея")),
        Some(p) => {
            if p.modifiers == 0 {
                return Err(string_of("Хоткей должен содержать хотя бы один модификатор"));
            }
            let ghost m = p.modifiers;
            let mut parts: Vec<String> = Vec::new();
            let ghost mut expected: Seq<Seq<char>> = seq![];
            if p.modifiers & MODIFIER_COMMAND == MODIFIER_COMMAND {
                parts.push(string_of("Command"));
                proof { expected = expected.push("Command"@); }
            }
            assert(expected =~= (if has_modifier(m, MODIFIER_COMMAND) { seq!["Command"@] } else { seq![] }));
            let ghost e1 = expected;
            if p.modifiers & MODIFIER_CONTROL == MODIFIER_CONTROL {
                parts.push(string_of("Control"));
                proof { expected = expected.push("Control"@); }
            }
            assert(expected =~= e1 + (if has_modifier(m, MODIFIER_CONTROL) { seq!["Control"@] } else { seq![] }));
            let ghost e2 = expected;
            if p.modifiers & MODIFIER_ALT == MODIFIER_ALT {
                parts.push(string_of("Alt"));
                proof { expected = expected.push("Alt"@); }
            }
            assert(expected =~= e2 + (if has_modifier(m, MODIFIER_ALT) { seq!["Alt"@] } else { seq![] }));
            let ghost e3 = expected;
            if p.modifiers & MODIFIER_SHIFT == MODIFIER_SHIFT {
                parts.push(string_of("Shift"));
                proof { expected = expected.push("Shift"@); }
            }
            assert(expected =~= e3 + (if has_modifier(m, MODIFIER_SHIFT) { seq!["Shift"@] } else { seq![] }));
            let ghost e4 = expected;
            let ghost key = p.key@;
            parts.push(p.key);
            proof { expected = expected.push(key); }
            assert(expected =~= e4 + seq![key]);
            assert(views(parts@) =~= expected);
            assert(expected =~= normalized_parts(m, key));
            Ok(join_strings(&parts, "+"))
        },
    }
}

/// Normalises a shortcut typed by the user: the text is trimmed and parsed;
/// a text the parser refuses, or a shortcut without a modifier, is an error
/// with its message; otherwise the result is the shortcut's stored form.
pub fn normalize_shortcut(input: &str) -> (r: Result<String, String>)
    ensures
        result_view(r) == normalization(input@),
{
    let text = trim_white_space(input);
    let parsed = parse_shortcut(text);
    normalize_parsed(parsed)
}

/// What to do after one attempt to register a shortcut.
pub enum RegistrationStep {
    /// The shortcut is registered.
    Registered,
    /// Wait this many milliseconds, then try again.
    RetryAfter { millis: u64 },
    /// Stop trying; report this message.
    GiveUp { message: String },
}

/// The message when every attempt to register a shortcut failed.
pub open spec fn registration_failed_message() -> Seq<char> {
    "Не удалось зарегистрировать хоткей. Возможно, он уже занят системой или другим приложением."@
}

/// The retry policy for registering a shortcut: three attempts, 80 ms apart.
/// `attempt` counts from 0.
pub fn registration_step(attempt: u32, registered: bool) -> (step: RegistrationStep)
    ensures
        registered ==> step is Registered,
        !registered && attempt < 2 ==> step == (RegistrationStep::RetryAfter { millis: 80 }),
        !registered && attempt >= 2 ==> (step matches RegistrationStep::GiveUp { message }
            && message@ == registration_failed_message()),
{
    if registered {
        RegistrationStep::Registered
    } else if attempt < 2 {
        RegistrationStep::RetryAfter { millis: 80 }
    } else {
        RegistrationStep::GiveUp {
            message: string_of(
                "Не удалось зарегистрировать хоткей. Возможно, он уже занят системой или другим приложением.",
            ),
        }
    }
}


/// The outside step that replacing a registered shortcut asks for next.
pub enum SwapAction {
    /// Unregister the old shortcut, then wait this many milliseconds.
    UnregisterOld { pause_millis: u64 },
    /// Register the new shortcut.
    RegisterNew,
    /// Register the old shortcut again.
    RegisterOld,
    /// The replacement is over, with this result.
    Done { result: Result<(), String> },
    /// The replacement is over; there is nothing more to do.
    Nothing,
}

/// Where a shortcut replacement stands.
pub enum SwapStage {
    Unregistering,
    Registering,
    Restoring { message: String },
    Finished,
}

/// A replacement of the registered shortcut by another one.
pub struct ShortcutSwap {
    pub old_is_empty: bool,
    pub stage: SwapStage,
}

/// Starts replacing the shortcut `old`: it is unregistered first, with a
/// pause of 60 ms before the new one is registered.
pub fn begin_swap(old: &str) -> (r: (ShortcutSwap, SwapAction))
    ensures
        r.0.old_is_empty == (old@.len() == 0),
        r.0.stage is Unregistering,
        r.1 == (SwapAction::UnregisterOld { pause_millis: 60 }),
{
    (
        ShortcutSwap { old_is_empty: old.is_empty(), stage: SwapStage::Unregistering },
        SwapAction::UnregisterOld { pause_millis: 60 },
    )
}

/// The step of a replacement after `outcome`: whatever unregistering
/// reports, the new shortcut is registered; if that fails, the old shortcut
/// (unless it is empty) is registered again, and the replacement fails with
/// the message of the failed registration, whatever the re-registration
/// reports. A finished replacement stays finished and asks for nothing
/// more.
pub open spec fn swap_step(s: ShortcutSwap, outcome: Outcome) -> (ShortcutSwap, SwapAction) {
    let at = |stage: SwapStage| ShortcutSwap { old_is_empty: s.old_is_empty, stage };
    match s.stage {
        SwapStage::Unregistering => (at(SwapStage::Registering), SwapAction::RegisterNew),
        SwapStage::Registering => match outcome {
            Outcome::Succeeded => (at(SwapStage::Finished), SwapAction::Done { result: Ok(()) }),
            Outcome::Failed { message } => if s.old_is_empty {
                (at(SwapStage::Finished), SwapAction::Done { result: Err(message) })
            } else {
                (at(SwapStage::Restoring { message }), SwapAction::RegisterOld)
            },
        },
        SwapStage::Restoring { message } => (
            at(SwapStage::Finished),
            SwapAction::Done { result: Err(message) },
        ),
        SwapStage::Finished => (s, SwapAction::Nothing),
    }
}

/// Advances a replacement by the outcome of its last step.
pub fn advance_swap(s: ShortcutSwap, outcome: Outcome) -> (r: (ShortcutSwap, SwapAction))
    ensures
        r == swap_step(s, outcome),
{
    let old_is_empty = s.old_is_empty;
    match s.stage {
        SwapStage::Unregistering => (
            ShortcutSwap { old_is_empty, stage: SwapStage::Registering },
            SwapAction::RegisterNew,
        ),
        SwapStage::Registering => match outcome {
            Outcome::Succeeded => (
                ShortcutSwap { old_is_empty, stage: SwapStage::Finished },
                SwapAction::Done { result: Ok(()) },
            ),
            Outcome::Failed { message } => if old_is_empty {
                (
                    ShortcutSwap { old_is_empty, stage: SwapStage::Finished },
                    SwapAction::Done { result: Err(message) },
                )
            } else {
                (
                    ShortcutSwap { old_is_empty, stage: SwapStage::Restoring { message } },
                    SwapAction::RegisterOld,
                )
            },
        },
        SwapStage::Restoring { message } => (
            ShortcutSwap { old_is_empty, stage: SwapStage::Finished },
            SwapAction::Done { result: Err(message) },
        ),
        SwapStage::Finished => (
            ShortcutSwap { old_is_empty, stage: SwapStage::Finished },
            SwapAction::Nothing,
        ),
    }
}


/// Which of the two shortcuts of a replacement are registered.
pub struct SwapWorld {
    pub old_registered: bool,
    pub new_registered: bool,
}

/// The effect of a step of a replacement, given how it went: a step that
/// succeeds does what it was asked; a step that fails changes nothing.
pub open spec fn swap_effect(w: SwapWorld, action: SwapAction, outcome: Outcome) -> SwapWorld {
    if outcome is Succeeded {
        match action {
            SwapAction::UnregisterOld { .. } => SwapWorld { old_registered: false, ..w },
            SwapAction::RegisterNew => SwapWorld { new_registered: true, ..w },
            SwapAction::RegisterOld => SwapWorld { old_registered: true, ..w },
            _ => w,
        }
    } else {
        w
    }
}

/// A replacement run on a list of outcomes until it finishes or they run
/// out: where it stands, its last step, and which shortcuts are registered.
pub open spec fn run_swap(s: ShortcutSwap, action: SwapAction, w: SwapWorld, outcomes: Seq<Outcome>) -> (
    ShortcutSwap,
    SwapAction,
    SwapWorld,
)
    decreases outcomes.len(),
{
    if outcomes.len() == 0 || s.stage is Finished {
        (s, action, w)
    } else {
        let (s2, a2) = swap_step(s, outcomes[0]);
        run_swap(s2, a2, swap_effect(w, action, outcomes[0]), outcomes.drop_first())
    }
}

/// Unregistering the old shortcut, and registering it again when that is
/// asked for, succeed along the run.
pub open spec fn old_shortcut_steps_succeed(s: ShortcutSwap, outcomes: Seq<Outcome>) -> bool
    decreases outcomes.len(),
{
    if outcomes.len() == 0 || s.stage is Finished {
        true
    } else {
        &&& (match s.stage {
            SwapStage::Unregistering => outcomes[0] is Succeeded,
            SwapStage::Restoring { .. } => outcomes[0] is Succeeded,
            _ => true,
        })
        &&& old_shortcut_steps_succeed(swap_step(s, outcomes[0]).0, outcomes.drop_first())
    }
}

/// How the registrations stand at each stage of a replacement.
pub open spec fn swap_invariant(s: ShortcutSwap, action: SwapAction, w: SwapWorld) -> bool {
    match s.stage {
        SwapStage::Unregistering => {
            &&& action == SwapAction::UnregisterOld { pause_millis: 60 }
            &&& w == SwapWorld { old_registered: true, new_registered: false }
        },
        SwapStage::Registering => {
            &&& action is RegisterNew
            &&& w == SwapWorld { old_registered: false, new_registered: false }
        },
        SwapStage::Restoring { .. } => {
            &&& action is RegisterOld
            &&& !s.old_is_empty
            &&& w == SwapWorld { old_registered: false, new_registered: false }
        },
        SwapStage::Finished => {
            &&& (action matches SwapAction::Done { result } && result is Ok) ==> !w.old_registered
                && w.new_registered
            &&& (action matches SwapAction::Done { result } && result is Err && !s.old_is_empty)
                ==> w.old_registered && !w.new_registered
        },
    }
}

proof fn lemma_swap_run_keeps_invariant(
    s: ShortcutSwap,
    action: SwapAction,
    w: SwapWorld,
    outcomes: Seq<Outcome>,
)
    requires
        swap_invariant(s, action, w),
        old_shortcut_steps_succeed(s, outcomes),
    ensures
        ({
            let (s2, a2, w2) = run_swap(s, action, w, outcomes);
            swap_invariant(s2, a2, w2)
        }),
    decreases outcomes.len(),
{
    if outcomes.len() == 0 || s.stage is Finished {
    } else {
        let (s2, a2) = swap_step(s, outcomes[0]);
        let w2 = swap_effect(w, action, outcomes[0]);
        assert(swap_invariant(s2, a2, w2));
        lemma_swap_run_keeps_invariant(s2, a2, w2, outcomes.drop_first());
    }
}

/// Replacing a registered shortcut, when unregistering and re-registering
/// the old one succeed: a replacement that succeeds leaves only the new
/// shortcut registered; one that fails leaves only the old one registered,
/// unless there was no old shortcut.
pub proof fn lemma_swap_leaves_one_shortcut(old: Seq<char>, outcomes: Seq<Outcome>)
    requires
        old_shortcut_steps_succeed(
            ShortcutSwap { old_is_empty: old.len() == 0, stage: SwapStage::Unregistering },
            outcomes,
        ),
    ensures
        ({
            let s0 = ShortcutSwap { old_is_empty: old.len() == 0, stage: SwapStage::Unregistering };
            let w0 = SwapWorld { old_registered: true, new_registered: false };
            let (s, a, w) = run_swap(s0, SwapAction::UnregisterOld { pause_millis: 60 }, w0, outcomes);
            &&& (a matches SwapAction::Done { result } && result is Ok) ==> !w.old_registered
                && w.new_registered
            &&& (a matches SwapAction::Done { result } && result is Err && old.len() > 0)
                ==> w.old_registered && !w.new_registered
        }),
{
    let s0 = ShortcutSwap { old_is_empty: old.len() == 0, stage: SwapStage::Unregistering };
    let w0 = SwapWorld { old_registered: true, new_registered: false };
    lemma_swap_run_keeps_invariant(s0, SwapAction::UnregisterOld { pause_millis: 60 }, w0, outcomes);
    lemma_swap_done_only_when_finished(s0, SwapAction::UnregisterOld { pause_millis: 60 }, w0, outcomes);
}

proof fn lemma_swap_done_only_when_finished(
    s: ShortcutSwap,
    action: SwapAction,
    w: SwapWorld,
    outcomes: Seq<Outcome>,
)
    requires
        !(s.stage is Finished) ==> !(action is Done),
    ensures
        ({
            let (s2, a2, w2) = run_swap(s, action, w, outcomes);
            &&& a2 is Done ==> s2.stage is Finished
            &&& s2.old_is_empty == s.old_is_empty
        }),
    decreases outcomes.len(),
{
    if outcomes.len() == 0 || s.stage is Finished {
    } else {
        let (s2, a2) = swap_step(s, outcomes[0]);
        lemma_swap_done_only_when_finished(s2, a2, swap_effect(w, action, outcomes[0]), outcomes.drop_first());
    }
}


} // verus!

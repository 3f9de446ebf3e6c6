use crate::token::token::TokenType;
use vstd::prelude::*;

verus! {

// ===================================================================
// Character classes
//
// The scanner sorts characters into a handful of classes.  Whitespace
// separates tokens and is never emitted.  Separator characters always
// stand alone (or pair up, for `&&` and `||`): they end any word that
// precedes them.  Every remaining character can continue a word; among
// those, digits, `_`, `-`, `/` and `.` play special roles at the start
// of a token.
// ===================================================================
/// Whitespace: separates tokens, never part of any literal.
pub open spec fn is_ws(c: char) -> bool {
    c == ' ' || c == '\t' || c == '\n' || c == '\r'
}

/// Characters that always end the word before them and stand as tokens
/// of their own.  `-`, `/` and `.` are deliberately absent: they begin
/// tokens of their own but also continue a word (`ru-shell`, `a/b.c`).
pub open spec fn is_separator(c: char) -> bool {
    ||| c == ','
    ||| c == ';'
    ||| c == ':'
    ||| c == '='
    ||| c == '*'
    ||| c == '~'
    ||| c == '>'
    ||| c == '<'
    ||| c == '"'
    ||| c == '\''
    ||| c == '&'
    ||| c == '|'
}

/// A character that can continue a generic word (`Literal`) once one has
/// begun: anything that is neither whitespace nor a separator.
pub open spec fn is_lit_char(c: char) -> bool {
    !is_ws(c) && !is_separator(c)
}

/// An ASCII decimal digit.
pub open spec fn is_digit(c: char) -> bool {
    48 <= c as u32 && c as u32 <= 57
}

/// A character that can continue a number: a digit, or `_` as a group
/// separator.
pub open spec fn is_num_char(c: char) -> bool {
    is_digit(c) || c == '_'
}

/// A letter-like character: one that can continue a word but is neither
/// a digit nor punctuation that paths are made of.  A letter after a
/// run of digits turns the whole word into a `Literal`; an option dash
/// must be followed by one of these.
pub open spec fn is_word_start(c: char) -> bool {
    is_lit_char(c) && !is_digit(c) && c != '_' && c != '-' && c != '/' && c != '.'
}

/// A character that can continue a long option after `--`: letters,
/// digits and `-` (as in `--human-readable`), but not `_`, `/` or `.`.
pub open spec fn is_long_char(c: char) -> bool {
    is_lit_char(c) && c != '_' && c != '/' && c != '.'
}

// ===================================================================
// Maximal runs
// ===================================================================
/// The end of the run of word characters beginning at `i`.
pub open spec fn lit_end(s: Seq<char>, i: int) -> int
    decreases s.len() - i when 0 <= i <= s.len()
{
    if i < s.len() && is_lit_char(s[i]) {
        lit_end(s, i + 1)
    } else {
        i
    }
}

/// The end of the run of number characters beginning at `i`.
pub open spec fn num_end(s: Seq<char>, i: int) -> int
    decreases s.len() - i when 0 <= i <= s.len()
{
    if i < s.len() && is_num_char(s[i]) {
        num_end(s, i + 1)
    } else {
        i
    }
}

/// The end of the run of long-option characters beginning at `i`.
pub open spec fn long_end(s: Seq<char>, i: int) -> int
    decreases s.len() - i when 0 <= i <= s.len()
{
    if i < s.len() && is_long_char(s[i]) {
        long_end(s, i + 1)
    } else {
        i
    }
}

/// Bounds and contents of a word run: it stays inside the input, every
/// character in it is a word character, and it is maximal.
pub proof fn lemma_lit_end(s: Seq<char>, i: int)
    requires
        0 <= i <= s.len(),
    ensures
        i <= lit_end(s, i) <= s.len(),
        forall|j: int| i <= j < lit_end(s, i) ==> is_lit_char(#[trigger] s[j]),
        lit_end(s, i) == s.len() || !is_lit_char(s[lit_end(s, i)]),
    decreases s.len() - i,
{
    if i < s.len() && is_lit_char(s[i]) {
        lemma_lit_end(s, i + 1);
    }
}

/// Bounds and contents of a number run.
pub proof fn lemma_num_end(s: Seq<char>, i: int)
    requires
        0 <= i <= s.len(),
    ensures
        i <= num_end(s, i) <= s.len(),
        forall|j: int| i <= j < num_end(s, i) ==> is_num_char(#[trigger] s[j]),
        num_end(s, i) == s.len() || !is_num_char(s[num_end(s, i)]),
    decreases s.len() - i,
{
    if i < s.len() && is_num_char(s[i]) {
        lemma_num_end(s, i + 1);
    }
}

/// Bounds and contents of a long-option run.
pub proof fn lemma_long_end(s: Seq<char>, i: int)
    requires
        0 <= i <= s.len(),
    ensures
        i <= long_end(s, i) <= s.len(),
        forall|j: int| i <= j < long_end(s, i) ==> is_long_char(#[trigger] s[j]),
        long_end(s, i) == s.len() || !is_long_char(s[long_end(s, i)]),
    decreases s.len() - i,
{
    if i < s.len() && is_long_char(s[i]) {
        lemma_long_end(s, i + 1);
    }
}

// ===================================================================
// One token
// ===================================================================
/// The keyword `kw` occurs at position `i` of `s` as a whole word: its
/// characters match and the following character, if any, cannot continue
/// a word.
pub open spec fn kw_at(s: Seq<char>, i: int, kw: Seq<char>) -> bool {
    &&& 0 <= i
    &&& i + kw.len() <= s.len()
    &&& s.subrange(i, i + kw.len()) == kw
    &&& (i + kw.len() == s.len() || !is_lit_char(s[i + kw.len()]))
}

/// The category and end position of the token that begins at position
/// `i` of `s`.  `i` must sit on a non-whitespace character.
///
/// This is the transition table of the scanner in one expression: the
/// first character picks the class, and the classes for `&`, `|`, `-`,
/// digits and keywords look one or more characters ahead, falling back
/// to a generic `Literal` word wherever the stricter shape breaks off.
pub open spec fn token_at(s: Seq<char>, i: int) -> (TokenType, int)
    recommends
        0 <= i < s.len(),
        !is_ws(s[i]),
{
    let c = s[i];
    if c == ',' {
        (TokenType::Comma, i + 1)
    } else if c == ';' {
        (TokenType::Semicolon, i + 1)
    } else if c == ':' {
        (TokenType::Colon, i + 1)
    } else if c == '=' {
        (TokenType::Assignment, i + 1)
    } else if c == '*' {
        (TokenType::Star, i + 1)
    } else if c == '~' {
        (TokenType::Tilde, i + 1)
    } else if c == '>' {
        (TokenType::GreaterThan, i + 1)
    } else if c == '<' {
        (TokenType::LessThan, i + 1)
    } else if c == '"' {
        (TokenType::Quote, i + 1)
    } else if c == '\'' {
        (TokenType::SingleQuote, i + 1)
    } else if c == '.' {
        (TokenType::Dot, i + 1)
    } else if c == '/' {
        (TokenType::Slash, i + 1)
    } else if c == '&' {
        if i + 1 < s.len() && s[i + 1] == '&' {
            (TokenType::And, i + 2)
        } else {
            (TokenType::Background, i + 1)
        }
    } else if c == '|' {
        if i + 1 < s.len() && s[i + 1] == '|' {
            (TokenType::Or, i + 2)
        } else {
            (TokenType::Pipe, i + 1)
        }
    } else if c == '-' {
        if i + 1 < s.len() && is_word_start(s[i + 1]) {
            (TokenType::ShortParam, i + 2)
        } else if i + 2 < s.len() && s[i + 1] == '-' && is_word_start(s[i + 2]) {
            (TokenType::LongParam, long_end(s, i + 2))
        } else {
            (TokenType::Literal, lit_end(s, i))
        }
    } else if is_digit(c) {
        if num_end(s, i) < s.len() && is_word_start(s[num_end(s, i)]) {
            (TokenType::Literal, lit_end(s, i))
        } else {
            (TokenType::Num, num_end(s, i))
        }
    } else if kw_at(s, i, seq!['l', 's']) {
        (TokenType::Ls, i + 2)
    } else if kw_at(s, i, seq!['c', 'd']) {
        (TokenType::Cd, i + 2)
    } else if kw_at(s, i, seq!['c', 'a', 't']) {
        (TokenType::Cat, i + 3)
    } else if kw_at(s, i, seq!['g', 'r', 'e', 'p']) {
        (TokenType::Grep, i + 4)
    } else {
        (TokenType::Literal, lit_end(s, i))
    }
}

/// The end of the token beginning at `i`, clamped so that, whatever the
/// input, scanning advances by at least one character and never runs
/// past the end.  Under the conditions of `lemma_token_at` the clamps
/// never act and this equals `token_at(s, i).1`.
pub open spec fn tokenize_progress(s: Seq<char>, i: int) -> int {
    let e = token_at(s, i).1;
    if e <= i {
        i + 1
    } else if e > s.len() {
        s.len() as int
    } else {
        e
    }
}

/// Scanning one token always consumes at least one character and never
/// runs past the input; the token never has category `Eof`; and all the
/// characters it covers are non-whitespace.
pub proof fn lemma_token_at(s: Seq<char>, i: int)
    requires
        0 <= i < s.len(),
        !is_ws(s[i]),
    ensures
        i < token_at(s, i).1 <= s.len(),
        tokenize_progress(s, i) == token_at(s, i).1,
        token_at(s, i).0 != TokenType::Eof,
        forall|j: int| i <= j < token_at(s, i).1 ==> !is_ws(#[trigger] s[j]),
{
    let c = s[i];
    lemma_lit_end(s, i);
    lemma_num_end(s, i);
    if c == '-' && i + 2 < s.len() && !(i + 1 < s.len() && is_word_start(s[i + 1])) && s[i + 1]
        == '-' && is_word_start(s[i + 2]) {
        lemma_long_end(s, i + 2);
    }
    if !(c == ',' || c == ';' || c == ':' || c == '=' || c == '*' || c == '~' || c == '>' || c
        == '<' || c == '"' || c == '\'' || c == '&' || c == '|') {
        assert(is_lit_char(c));
    }
    if kw_at(s, i, seq!['l', 's']) {
        assert(s[i + 1] == seq!['l', 's'][1]);
    }
    if kw_at(s, i, seq!['c', 'd']) {
        assert(s[i + 1] == seq!['c', 'd'][1]);
    }
    if kw_at(s, i, seq!['c', 'a', 't']) {
        assert(s[i + 1] == seq!['c', 'a', 't'][1]);
        assert(s[i + 2] == seq!['c', 'a', 't'][2]);
    }
    if kw_at(s, i, seq!['g', 'r', 'e', 'p']) {
        assert(s[i + 1] == seq!['g', 'r', 'e', 'p'][1]);
        assert(s[i + 2] == seq!['g', 'r', 'e', 'p'][2]);
        assert(s[i + 3] == seq!['g', 'r', 'e', 'p'][3]);
    }
}

// ===================================================================
// Executable classifiers
// ===================================================================
/// Test for whitespace.
pub fn ws_char(c: char) -> (b: bool)
    ensures
        b == is_ws(c),
{
    c == ' ' || c == '\t' || c == '\n' || c == '\r'
}

/// Test for a separator character.
pub fn separator_char(c: char) -> (b: bool)
    ensures
        b == is_separator(c),
{
    c == ',' || c == ';' || c == ':' || c == '=' || c == '*' || c == '~' || c == '>' || c == '<'
        || c == '"' || c == '\'' || c == '&' || c == '|'
}

/// Test for a word character.
pub fn lit_char(c: char) -> (b: bool)
    ensures
        b == is_lit_char(c),
{
    !ws_char(c) && !separator_char(c)
}

/// Test for an ASCII digit.
pub fn digit_char(c: char) -> (b: bool)
    ensures
        b == is_digit(c),
{
    let u = c as u32;
    48 <= u && u <= 57
}

/// Test for a number character.
pub fn num_char(c: char) -> (b: bool)
    ensures
        b == is_num_char(c),
{
    digit_char(c) || c == '_'
}

/// Test for a letter-like character.
pub fn word_start_char(c: char) -> (b: bool)
    ensures
        b == is_word_start(c),
{
    lit_char(c) && !digit_char(c) && c != '_' && c != '-' && c != '/' && c != '.'
}

/// Test for a long-option character.
pub fn long_char(c: char) -> (b: bool)
    ensures
        b == is_long_char(c),
{
    lit_char(c) && c != '_' && c != '/' && c != '.'
}

// ===================================================================
// Executable runs and the scanner itself
// ===================================================================
/// Walk to the end of the word run beginning at `i`.
fn lit_run(s: &str, n: usize, i: usize) -> (e: usize)
    requires
        s@.len() == n as int,
        i <= n,
    ensures
        e as int == lit_end(s@, i as int),
        i <= e <= n,
    decreases n - i,
{
    let mut j: usize = i;
    while j < n && lit_char(s.get_char(j))
        invariant
            i <= j <= n,
            s@.len() == n as int,
            lit_end(s@, i as int) == lit_end(s@, j as int),
        decreases n - j,
    {
        j = j + 1;
    }
    proof {
        lemma_lit_end(s@, i as int);
    }
    j
}

/// Walk to the end of the number run beginning at `i`.
fn num_run(s: &str, n: usize, i: usize) -> (e: usize)
    requires
        s@.len() == n as int,
        i <= n,
    ensures
        e as int == num_end(s@, i as int),
        i <= e <= n,
    decreases n - i,
{
    let mut j: usize = i;
    while j < n && num_char(s.get_char(j))
        invariant
            i <= j <= n,
            s@.len() == n as int,
            num_end(s@, i as int) == num_end(s@, j as int),
        decreases n - j,
    {
        j = j + 1;
    }
    proof {
        lemma_num_end(s@, i as int);
    }
    j
}

/// Walk to the end of the long-option run beginning at `i`.
fn long_run(s: &str, n: usize, i: usize) -> (e: usize)
    requires
        s@.len() == n as int,
        i <= n,
    ensures
        e as int == long_end(s@, i as int),
        i <= e <= n,
    decreases n - i,
{
    let mut j: usize = i;
    while j < n && long_char(s.get_char(j))
        invariant
            i <= j <= n,
            s@.len() == n as int,
            long_end(s@, i as int) == long_end(s@, j as int),
        decreases n - j,
    {
        j = j + 1;
    }
    proof {
        lemma_long_end(s@, i as int);
    }
    j
}

/// A word boundary at position `j`: the end of the input, or a character
/// that cannot continue a word.
fn at_boundary(s: &str, n: usize, j: usize) -> (b: bool)
    requires
        s@.len() == n as int,
        j <= n,
    ensures
        b == (j as int == s@.len() || !is_lit_char(s@[j as int])),
{
    j == n || !lit_char(s.get_char(j))
}

/// Scan the single token that begins at position `i`, returning its
/// category and end position.
pub fn scan_token(s: &str, n: usize, i: usize) -> (r: (TokenType, usize))
    requires
        s@.len() == n as int,
        i < n,
        !is_ws(s@[i as int]),
    ensures
        r.0 == token_at(s@, i as int).0,
        r.1 as int == token_at(s@, i as int).1,
        i < r.1 <= n,
{
    proof {
        lemma_token_at(s@, i as int);
    }
    let c = s.get_char(i);
    if c == ',' {
        (TokenType::Comma, i + 1)
    } else if c == ';' {
        (TokenType::Semicolon, i + 1)
    } else if c == ':' {
        (TokenType::Colon, i + 1)
    } else if c == '=' {
        (TokenType::Assignment, i + 1)
    } else if c == '*' {
        (TokenType::Star, i + 1)
    } else if c == '~' {
        (TokenType::Tilde, i + 1)
    } else if c == '>' {
        (TokenType::GreaterThan, i + 1)
    } else if c == '<' {
        (TokenType::LessThan, i + 1)
    } else if c == '"' {
        (TokenType::Quote, i + 1)
    } else if c == '\'' {
        (TokenType::SingleQuote, i + 1)
    } else if c == '.' {
        (TokenType::Dot, i + 1)
    } else if c == '/' {
        (TokenType::Slash, i + 1)
    } else if c == '&' {
        if i + 1 < n && s.get_char(i + 1) == '&' {
            (TokenType::And, i + 2)
        } else {
            (TokenType::Background, i + 1)
        }
    } else if c == '|' {
        if i + 1 < n && s.get_char(i + 1) == '|' {
            (TokenType::Or, i + 2)
        } else {
            (TokenType::Pipe, i + 1)
        }
    } else if c == '-' {
        if i + 1 < n && word_start_char(s.get_char(i + 1)) {
            (TokenType::ShortParam, i + 2)
        } else if i + 1 < n && i + 2 < n && s.get_char(i + 1) == '-' && word_start_char(
            s.get_char(i + 2),
        ) {
            (TokenType::LongParam, long_run(s, n, i + 2))
        } else {
            (TokenType::Literal, lit_run(s, n, i))
        }
    } else if digit_char(c) {
        let e = num_run(s, n, i);
        if e < n && word_start_char(s.get_char(e)) {
            (TokenType::Literal, lit_run(s, n, i))
        } else {
            (TokenType::Num, e)
        }
    } else if i + 1 < n && c == 'l' && s.get_char(i + 1) == 's' && at_boundary(s, n, i + 2) {
        proof {
            assert(s@.subrange(i as int, i + 2) =~= seq!['l', 's']);
        }
        (TokenType::Ls, i + 2)
    } else if i + 1 < n && c == 'c' && s.get_char(i + 1) == 'd' && at_boundary(s, n, i + 2) {
        proof {
            lemma_kw_not(s@, i as int);
            assert(s@.subrange(i as int, i + 2) =~= seq!['c', 'd']);
        }
        (TokenType::Cd, i + 2)
    } else if i + 1 < n && i + 2 < n && c == 'c' && s.get_char(i + 1) == 'a' && s.get_char(i + 2)
        == 't' && at_boundary(s, n, i + 3) {
        proof {
            lemma_kw_not(s@, i as int);
            assert(s@.subrange(i as int, i + 3) =~= seq!['c', 'a', 't']);
        }
        (TokenType::Cat, i + 3)
    } else if i + 1 < n && i + 2 < n && i + 3 < n && c == 'g' && s.get_char(i + 1) == 'r'
        && s.get_char(i + 2) == 'e' && s.get_char(i + 3) == 'p' && at_boundary(s, n, i + 4) {
        proof {
            lemma_kw_not(s@, i as int);
            assert(s@.subrange(i as int, i + 4) =~= seq!['g', 'r', 'e', 'p']);
        }
        (TokenType::Grep, i + 4)
    } else {
        proof {
            lemma_kw_not(s@, i as int);
        }
        (TokenType::Literal, lit_run(s, n, i))
    }
}

/// Each keyword test in `token_at` can only succeed when the keyword's
/// exact characters are present: reading any single mismatching
/// character refutes it.
proof fn lemma_kw_not(s: Seq<char>, i: int)
    requires
        0 <= i <= s.len(),
    ensures
        kw_at(s, i, seq!['l', 's']) ==> i + 2 <= s.len() && s[i] == 'l' && s[i + 1] == 's',
        kw_at(s, i, seq!['c', 'd']) ==> i + 2 <= s.len() && s[i] == 'c' && s[i + 1] == 'd',
        kw_at(s, i, seq!['c', 'a', 't']) ==> i + 3 <= s.len() && s[i] == 'c' && s[i + 1] == 'a'
            && s[i + 2] == 't',
        kw_at(s, i, seq!['g', 'r', 'e', 'p']) ==> i + 4 <= s.len() && s[i] == 'g' && s[i + 1]
            == 'r' && s[i + 2] == 'e' && s[i + 3] == 'p',
{
    if kw_at(s, i, seq!['l', 's']) {
        assert(s[i] == s.subrange(i, i + 2)[0]);
        assert(s[i + 1] == s.subrange(i, i + 2)[1]);
    }
    if kw_at(s, i, seq!['c', 'd']) {
        assert(s[i] == s.subrange(i, i + 2)[0]);
        assert(s[i + 1] == s.subrange(i, i + 2)[1]);
    }
    if kw_at(s, i, seq!['c', 'a', 't']) {
        assert(s[i] == s.subrange(i, i + 3)[0]);
        assert(s[i + 1] == s.subrange(i, i + 3)[1]);
        assert(s[i + 2] == s.subrange(i, i + 3)[2]);
    }
    if kw_at(s, i, seq!['g', 'r', 'e', 'p']) {
        assert(s[i] == s.subrange(i, i + 4)[0]);
        assert(s[i + 1] == s.subrange(i, i + 4)[1]);
        assert(s[i + 2] == s.subrange(i, i + 4)[2]);
        assert(s[i + 3] == s.subrange(i, i + 4)[3]);
    }
}

} // verus!

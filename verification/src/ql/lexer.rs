//! Tokens, and how a text splits into them.

use crate::calendar::{Date, Month, Weekday};
use crate::digits::{decimal, digit_value, digits_value, is_digit};
use vstd::prelude::*;
use vstd::string::*;

verus! {

/// A token of the query language.
#[derive(Debug, Clone, Copy, PartialEq, Eq, Structural)]
pub enum Token {
    /// `true`
    True,
    /// `false`
    False,
    /// A number, such as `14`.
    Number(u32),
    /// A date, such as `2024-03-01`.
    Date(Date),
    /// The name of a weekday, such as `mon`.
    Weekday(Weekday),
    /// The name of a month, such as `jan`.
    Month(Month),
    /// `wd`
    Wd,
    /// `md`
    Md,
    /// `mo`
    Mo,
    /// `y`
    Y,
    /// `date`
    DateWord,
    /// `wdp`
    Wdp,
    /// `nw`
    Nw,
    /// `(`
    LeftParen,
    /// `)`
    RightParen,
    /// `,`
    Comma,
    /// `!`
    Bang,
    /// `+`
    Plus,
    /// `%`
    Percent,
    /// `=`
    Equal,
    /// `<`
    Less,
    /// `<=`
    LessEqual,
    /// `>`
    Greater,
    /// `>=`
    GreaterEqual,
    /// `&`
    Amp,
    /// `|`
    Pipe,
}

impl Token {
    /// Whether the token is written in letters or digits, so that two of them
    /// need something between them to stay apart.
    pub open spec fn is_word(self) -> bool {
        match self {
            Token::True | Token::False | Token::Number(_) | Token::Date(_) | Token::Weekday(_)
            | Token::Month(_) | Token::Wd | Token::Md | Token::Mo | Token::Y | Token::DateWord
            | Token::Wdp | Token::Nw => true,
            _ => false,
        }
    }

    /// The canonical text of the token. An operator between two operands has a
    /// space on each side, a comma has one behind it.
    pub open spec fn text(self) -> Seq<char> {
        match self {
            Token::True => "true"@,
            Token::False => "false"@,
            Token::Number(n) => decimal(n as nat),
            Token::Date(d) => d.text(),
            Token::Weekday(wd) => wd.text(),
            Token::Month(m) => m.text(),
            Token::Wd => "wd"@,
            Token::Md => "md"@,
            Token::Mo => "mo"@,
            Token::Y => "y"@,
            Token::DateWord => "date"@,
            Token::Wdp => "wdp"@,
            Token::Nw => "nw"@,
            Token::LeftParen => "("@,
            Token::RightParen => ")"@,
            Token::Comma => ", "@,
            Token::Bang => "!"@,
            Token::Plus => " + "@,
            Token::Percent => " % "@,
            Token::Equal => " = "@,
            Token::Less => " < "@,
            Token::LessEqual => " <= "@,
            Token::Greater => " > "@,
            Token::GreaterEqual => " >= "@,
            Token::Amp => " & "@,
            Token::Pipe => " | "@,
        }
    }
}

/// Whether a character is white space, which may stand between tokens.
pub open spec fn is_space(c: char) -> bool {
    c == ' ' || c == '\t' || c == '\n' || c == '\r'
}

/// Whether a character is a lower-case letter, of which the words are made.
pub open spec fn is_letter(c: char) -> bool {
    'a' <= c <= 'z'
}

/// The number of letters that a text starts with.
pub open spec fn letters_len(s: Seq<char>) -> nat
    decreases s.len(),
{
    if s.len() > 0 && is_letter(s[0]) {
        1 + letters_len(s.skip(1))
    } else {
        0
    }
}

/// The number of digits that a text starts with.
pub open spec fn digits_len(s: Seq<char>) -> nat
    decreases s.len(),
{
    if s.len() > 0 && is_digit(s[0]) {
        1 + digits_len(s.skip(1))
    } else {
        0
    }
}

/// The token that a word stands for, if it is a word of the language.
pub open spec fn keyword(word: Seq<char>) -> Option<Token> {
    if word == "true"@ {
        Some(Token::True)
    } else if word == "false"@ {
        Some(Token::False)
    } else if word == "mon"@ {
        Some(Token::Weekday(Weekday::Mon))
    } else if word == "tue"@ {
        Some(Token::Weekday(Weekday::Tue))
    } else if word == "wed"@ {
        Some(Token::Weekday(Weekday::Wed))
    } else if word == "thu"@ {
        Some(Token::Weekday(Weekday::Thu))
    } else if word == "fri"@ {
        Some(Token::Weekday(Weekday::Fri))
    } else if word == "sat"@ {
        Some(Token::Weekday(Weekday::Sat))
    } else if word == "sun"@ {
        Some(Token::Weekday(Weekday::Sun))
    } else if word == "jan"@ {
        Some(Token::Month(Month::January))
    } else if word == "feb"@ {
        Some(Token::Month(Month::February))
    } else if word == "mar"@ {
        Some(Token::Month(Month::March))
    } else if word == "apr"@ {
        Some(Token::Month(Month::April))
    } else if word == "may"@ {
        Some(Token::Month(Month::May))
    } else if word == "jun"@ {
        Some(Token::Month(Month::June))
    } else if word == "jul"@ {
        Some(Token::Month(Month::July))
    } else if word == "aug"@ {
        Some(Token::Month(Month::August))
    } else if word == "sep"@ {
        Some(Token::Month(Month::September))
    } else if word == "oct"@ {
        Some(Token::Month(Month::October))
    } else if word == "nov"@ {
        Some(Token::Month(Month::November))
    } else if word == "dec"@ {
        Some(Token::Month(Month::December))
    } else if word == "wd"@ {
        Some(Token::Wd)
    } else if word == "md"@ {
        Some(Token::Md)
    } else if word == "mo"@ {
        Some(Token::Mo)
    } else if word == "y"@ {
        Some(Token::Y)
    } else if word == "date"@ {
        Some(Token::DateWord)
    } else if word == "wdp"@ {
        Some(Token::Wdp)
    } else if word == "nw"@ {
        Some(Token::Nw)
    } else {
        None
    }
}

/// Whether a text starts as a date is written: four digits, a hyphen, two
/// digits, a hyphen, two digits.
pub open spec fn is_date_shape(s: Seq<char>) -> bool {
    &&& s.len() >= 10
    &&& is_digit(s[0])
    &&& is_digit(s[1])
    &&& is_digit(s[2])
    &&& is_digit(s[3])
    &&& s[4] == '-'
    &&& is_digit(s[5])
    &&& is_digit(s[6])
    &&& s[7] == '-'
    &&& is_digit(s[8])
    &&& is_digit(s[9])
}

/// The date token at the start of a text that has the shape of a date, if
/// the day it names exists.
pub open spec fn scan_date(s: Seq<char>) -> Option<(Token, nat)> {
    let year = 1000 * digit_value(s[0]) + 100 * digit_value(s[1]) + 10 * digit_value(s[2])
        + digit_value(s[3]);
    let month = 10 * digit_value(s[5]) + digit_value(s[6]);
    let day = 10 * digit_value(s[8]) + digit_value(s[9]);
    match Date::from_ymd(year as i32, month as u32, day as u32) {
        Some(d) => Some((Token::Date(d), 10nat)),
        None => None,
    }
}

/// The number token at the start of a text that starts with a digit: all the
/// digits there are, if the number they spell fits in 32 bits.
pub open spec fn scan_number(s: Seq<char>) -> Option<(Token, nat)> {
    let n = digits_len(s);
    let value = digits_value(s.take(n as int));
    if value <= u32::MAX {
        Some((Token::Number(value as u32), n))
    } else {
        None
    }
}

/// The word token at the start of a text that starts with a letter: all the
/// letters there are, if they make a word of the language.
pub open spec fn scan_word(s: Seq<char>) -> Option<(Token, nat)> {
    let n = letters_len(s);
    match keyword(s.take(n as int)) {
        Some(token) => Some((token, n)),
        None => None,
    }
}

/// The token at the start of a text that starts with neither a letter nor a
/// digit. `<=` and `>=` are one token each.
pub open spec fn scan_symbol(s: Seq<char>) -> Option<(Token, nat)> {
    let c = s[0];
    if c == '(' {
        Some((Token::LeftParen, 1nat))
    } else if c == ')' {
        Some((Token::RightParen, 1nat))
    } else if c == ',' {
        Some((Token::Comma, 1nat))
    } else if c == '!' {
        Some((Token::Bang, 1nat))
    } else if c == '+' {
        Some((Token::Plus, 1nat))
    } else if c == '%' {
        Some((Token::Percent, 1nat))
    } else if c == '=' {
        Some((Token::Equal, 1nat))
    } else if c == '&' {
        Some((Token::Amp, 1nat))
    } else if c == '|' {
        Some((Token::Pipe, 1nat))
    } else if c == '<' {
        if s.len() > 1 && s[1] == '=' {
            Some((Token::LessEqual, 2nat))
        } else {
            Some((Token::Less, 1nat))
        }
    } else if c == '>' {
        if s.len() > 1 && s[1] == '=' {
            Some((Token::GreaterEqual, 2nat))
        } else {
            Some((Token::Greater, 1nat))
        }
    } else {
        None
    }
}

/// The token at the start of a text that is not empty, with the number of
/// characters it takes up.
pub open spec fn scan(s: Seq<char>) -> Option<(Token, nat)> {
    if is_digit(s[0]) {
        if is_date_shape(s) {
            scan_date(s)
        } else {
            scan_number(s)
        }
    } else if is_letter(s[0]) {
        scan_word(s)
    } else {
        scan_symbol(s)
    }
}

/// A run of tokens in front of what the rest of a text splits into.
pub open spec fn prepend(done: Seq<Token>, rest: Option<Seq<Token>>) -> Option<Seq<Token>> {
    match rest {
        Some(tokens) => Some(done + tokens),
        None => None,
    }
}

/// The tokens that a text splits into, from left to right, each token taking as
/// many characters as it can; `None` where some part of the text is no token.
pub open spec fn lex(s: Seq<char>) -> Option<Seq<Token>>
    decreases s.len(),
{
    if s.len() == 0 {
        Some(Seq::empty())
    } else if is_space(s[0]) {
        lex(s.skip(1))
    } else {
        match scan(s) {
            Some((token, n)) => if 0 < n <= s.len() {
                prepend(seq![token], lex(s.skip(n as int)))
            } else {
                None
            },
            None => None,
        }
    }
}

fn is_space_char(c: char) -> (r: bool)
    ensures
        r == is_space(c),
{
    c == ' ' || c == '\t' || c == '\n' || c == '\r'
}

fn is_letter_char(c: char) -> (r: bool)
    ensures
        r == is_letter(c),
{
    'a' <= c && c <= 'z'
}

fn is_digit_char(c: char) -> (r: bool)
    ensures
        r == is_digit(c),
{
    '0' <= c && c <= '9'
}

fn digit_of(c: char) -> (r: u32)
    requires
        is_digit(c),
    ensures
        r == digit_value(c),
{
    c as u32 - '0' as u32
}

/// The characters of a text, one by one.
pub(crate) fn chars_of(text: &str) -> (r: Vec<char>)
    ensures
        r@ == text@,
{
    let mut out: Vec<char> = Vec::new();
    for c in it: text.chars()
        invariant
            it.seq() == text@,
            out@ == text@.take(it.index()),
    {
        out.push(c);
        assert(out@ =~= text@.take(it.index() + 1));
    }
    assert(text@.take(text@.len() as int) =~= text@);
    out
}

/// A run of digits spells no smaller a number than any of its beginnings.
proof fn lemma_digits_value_prefix(s: Seq<char>, k: int)
    requires
        0 <= k <= s.len(),
        forall|i: int| 0 <= i < s.len() ==> is_digit(#[trigger] s[i]),
    ensures
        digits_value(s.take(k)) <= digits_value(s),
    decreases s.len(),
{
    if k == s.len() {
        assert(s.take(k) =~= s);
    } else {
        lemma_digits_value_prefix(s.drop_last(), k);
        assert(s.drop_last().take(k) =~= s.take(k));
        assert(is_digit(s.last()));
    }
}

/// Where the digits that start at `pos` end.
pub(crate) fn digits_end(chars: &Vec<char>, pos: usize) -> (end: usize)
    requires
        pos <= chars@.len(),
    ensures
        pos <= end <= chars@.len(),
        end - pos == digits_len(chars@.skip(pos as int)),
        forall|i: int| pos <= i < end ==> is_digit(#[trigger] chars@[i]),
{
    let mut i = pos;
    while i < chars.len() && is_digit_char(chars[i])
        invariant
            pos <= i <= chars@.len(),
            digits_len(chars@.skip(pos as int)) == (i - pos) + digits_len(chars@.skip(i as int)),
            forall|k: int| pos <= k < i ==> is_digit(#[trigger] chars@[k]),
        decreases chars@.len() - i,
    {
        assert(chars@.skip(i as int).skip(1) =~= chars@.skip(i + 1));
        i += 1;
    }
    end_of_run(chars, i);
    i
}

/// Where the letters that start at `pos` end.
fn letters_end(chars: &Vec<char>, pos: usize) -> (end: usize)
    requires
        pos <= chars@.len(),
    ensures
        pos <= end <= chars@.len(),
        end - pos == letters_len(chars@.skip(pos as int)),
{
    let mut i = pos;
    while i < chars.len() && is_letter_char(chars[i])
        invariant
            pos <= i <= chars@.len(),
            letters_len(chars@.skip(pos as int)) == (i - pos) + letters_len(chars@.skip(i as int)),
        decreases chars@.len() - i,
    {
        assert(chars@.skip(i as int).skip(1) =~= chars@.skip(i + 1));
        i += 1;
    }
    end_of_run(chars, i);
    i
}

/// At the end of the text the rest of it is empty.
fn end_of_run(chars: &Vec<char>, i: usize)
    requires
        i <= chars@.len(),
    ensures
        i == chars@.len() ==> chars@.skip(i as int).len() == 0,
        i < chars@.len() ==> chars@.skip(i as int).len() > 0 && chars@.skip(i as int)[0] == chars@[i as int],
{
}

/// The number that the digits from `pos` to `end` spell, if it fits in 32 bits.
pub(crate) fn number_at(chars: &Vec<char>, pos: usize, end: usize) -> (r: Option<u32>)
    requires
        pos <= end <= chars@.len(),
        forall|i: int| pos <= i < end ==> is_digit(#[trigger] chars@[i]),
    ensures
        r == (if digits_value(chars@.subrange(pos as int, end as int)) <= u32::MAX {
            Some(digits_value(chars@.subrange(pos as int, end as int)) as u32)
        } else {
            None
        }),
{
    let ghost run = chars@.subrange(pos as int, end as int);
    let mut value: u64 = 0;
    let mut i = pos;
    assert(chars@.subrange(pos as int, pos as int) =~= Seq::<char>::empty());
    while i < end
        invariant
            pos <= i <= end <= chars@.len(),
            run == chars@.subrange(pos as int, end as int),
            forall|k: int| pos <= k < end ==> is_digit(#[trigger] chars@[k]),
            value == digits_value(chars@.subrange(pos as int, i as int)),
            value <= u32::MAX,
        decreases end - i,
    {
        let digit = digit_of(chars[i]);
        let ghost next = chars@.subrange(pos as int, i + 1);
        assert(next.drop_last() =~= chars@.subrange(pos as int, i as int));
        assert(next.last() == chars@[i as int]);
        value = value * 10 + digit as u64;
        assert(value == digits_value(next));
        if value > u32::MAX as u64 {
            proof {
                assert(run.take(i + 1 - pos) =~= next);
                lemma_digits_value_prefix(run, i + 1 - pos);
            }
            return None;
        }
        i += 1;
    }
    Some(value as u32)
}

/// Whether the characters from `start` to `end` are the given word.
fn word_is(chars: &Vec<char>, start: usize, end: usize, word: &str) -> (r: bool)
    requires
        start <= end <= chars@.len(),
    ensures
        r == (chars@.subrange(start as int, end as int) == word@),
{
    let n = word.unicode_len();
    if end - start != n {
        return false;
    }
    let mut i: usize = 0;
    while i < n
        invariant
            i <= n,
            n == word@.len(),
            n == end - start,
            start <= end <= chars@.len(),
            forall|k: int| 0 <= k < i ==> chars@[start + k] == word@[k],
        decreases n - i,
    {
        if chars[start + i] != word.get_char(i) {
            assert(chars@.subrange(start as int, end as int)[i as int] != word@[i as int]);
            return false;
        }
        i += 1;
    }
    assert(chars@.subrange(start as int, end as int) =~= word@);
    true
}

/// The token that the word from `start` to `end` stands for.
fn keyword_at(chars: &Vec<char>, start: usize, end: usize) -> (r: Option<Token>)
    requires
        start <= end <= chars@.len(),
    ensures
        r == keyword(chars@.subrange(start as int, end as int)),
{
    if word_is(chars, start, end, "true") {
        Some(Token::True)
    } else if word_is(chars, start, end, "false") {
        Some(Token::False)
    } else if word_is(chars, start, end, "mon") {
        Some(Token::Weekday(Weekday::Mon))
    } else if word_is(chars, start, end, "tue") {
        Some(Token::Weekday(Weekday::Tue))
    } else if word_is(chars, start, end, "wed") {
        Some(Token::Weekday(Weekday::Wed))
    } else if word_is(chars, start, end, "thu") {
        Some(Token::Weekday(Weekday::Thu))
    } else if word_is(chars, start, end, "fri") {
        Some(Token::Weekday(Weekday::Fri))
    } else if word_is(chars, start, end, "sat") {
        Some(Token::Weekday(Weekday::Sat))
    } else if word_is(chars, start, end, "sun") {
        Some(Token::Weekday(Weekday::Sun))
    } else if word_is(chars, start, end, "jan") {
        Some(Token::Month(Month::January))
    } else if word_is(chars, start, end, "feb") {
        Some(Token::Month(Month::February))
    } else if word_is(chars, start, end, "mar") {
        Some(Token::Month(Month::March))
    } else if word_is(chars, start, end, "apr") {
        Some(Token::Month(Month::April))
    } else if word_is(chars, start, end, "may") {
        Some(Token::Month(Month::May))
    } else if word_is(chars, start, end, "jun") {
        Some(Token::Month(Month::June))
    } else if word_is(chars, start, end, "jul") {
        Some(Token::Month(Month::July))
    } else if word_is(chars, start, end, "aug") {
        Some(Token::Month(Month::August))
    } else if word_is(chars, start, end, "sep") {
        Some(Token::Month(Month::September))
    } else if word_is(chars, start, end, "oct") {
        Some(Token::Month(Month::October))
    } else if word_is(chars, start, end, "nov") {
        Some(Token::Month(Month::November))
    } else if word_is(chars, start, end, "dec") {
        Some(Token::Month(Month::December))
    } else if word_is(chars, start, end, "wd") {
        Some(Token::Wd)
    } else if word_is(chars, start, end, "md") {
        Some(Token::Md)
    } else if word_is(chars, start, end, "mo") {
        Some(Token::Mo)
    } else if word_is(chars, start, end, "y") {
        Some(Token::Y)
    } else if word_is(chars, start, end, "date") {
        Some(Token::DateWord)
    } else if word_is(chars, start, end, "wdp") {
        Some(Token::Wdp)
    } else if word_is(chars, start, end, "nw") {
        Some(Token::Nw)
    } else {
        None
    }
}

/// Whether the text from `pos` on starts as a date is written.
fn date_shape_at(chars: &Vec<char>, pos: usize) -> (r: bool)
    requires
        pos <= chars@.len(),
    ensures
        r == is_date_shape(chars@.skip(pos as int)),
{
    chars.len() - pos >= 10 && is_digit_char(chars[pos]) && is_digit_char(chars[pos + 1])
        && is_digit_char(chars[pos + 2]) && is_digit_char(chars[pos + 3]) && chars[pos + 4] == '-'
        && is_digit_char(chars[pos + 5]) && is_digit_char(chars[pos + 6]) && chars[pos + 7] == '-'
        && is_digit_char(chars[pos + 8]) && is_digit_char(chars[pos + 9])
}

/// The date token at `pos`, where the text has the shape of a date there.
fn date_at(chars: &Vec<char>, pos: usize) -> (r: Option<Token>)
    requires
        pos <= chars@.len(),
        is_date_shape(chars@.skip(pos as int)),
    ensures
        match scan_date(chars@.skip(pos as int)) {
            Some((token, n)) => r == Some(token) && n == 10,
            None => r is None,
        },
{
    let len = chars.len();
    assert(chars@.skip(pos as int).len() == len - pos);
    let year = 1000 * digit_of(chars[pos]) + 100 * digit_of(chars[pos + 1]) + 10 * digit_of(
        chars[pos + 2],
    ) + digit_of(chars[pos + 3]);
    let month = 10 * digit_of(chars[pos + 5]) + digit_of(chars[pos + 6]);
    let day = 10 * digit_of(chars[pos + 8]) + digit_of(chars[pos + 9]);
    match Date::from_ymd(year as i32, month, day) {
        Some(d) => Some(Token::Date(d)),
        None => None,
    }
}

/// The token that starts at `pos`, with the position behind it.
fn scan_at(chars: &Vec<char>, pos: usize) -> (r: Option<(Token, usize)>)
    requires
        pos < chars@.len(),
    ensures
        match scan(chars@.skip(pos as int)) {
            Some((token, n)) => 0 < n && pos + n <= chars@.len() && r == Some(
                (token, (pos + n) as usize),
            ),
            None => r is None,
        },
{
    let ghost rest = chars@.skip(pos as int);
    let len = chars.len();
    let c = chars[pos];
    assert(rest[0] == c);
    assert(rest.len() == len - pos);
    if is_digit_char(c) {
        if date_shape_at(chars, pos) {
            match date_at(chars, pos) {
                Some(token) => Some((token, pos + 10)),
                None => None,
            }
        } else {
            let end = digits_end(chars, pos);
            assert(rest.take(end - pos) =~= chars@.subrange(pos as int, end as int));
            match number_at(chars, pos, end) {
                Some(n) => Some((Token::Number(n), end)),
                None => None,
            }
        }
    } else if is_letter_char(c) {
        let end = letters_end(chars, pos);
        assert(rest.take(end - pos) =~= chars@.subrange(pos as int, end as int));
        match keyword_at(chars, pos, end) {
            Some(token) => Some((token, end)),
            None => None,
        }
    } else if c == '(' {
        Some((Token::LeftParen, pos + 1))
    } else if c == ')' {
        Some((Token::RightParen, pos + 1))
    } else if c == ',' {
        Some((Token::Comma, pos + 1))
    } else if c == '!' {
        Some((Token::Bang, pos + 1))
    } else if c == '+' {
        Some((Token::Plus, pos + 1))
    } else if c == '%' {
        Some((Token::Percent, pos + 1))
    } else if c == '=' {
        Some((Token::Equal, pos + 1))
    } else if c == '&' {
        Some((Token::Amp, pos + 1))
    } else if c == '|' {
        Some((Token::Pipe, pos + 1))
    } else if c == '<' {
        if chars.len() - pos > 1 && chars[pos + 1] == '=' {
            Some((Token::LessEqual, pos + 2))
        } else {
            Some((Token::Less, pos + 1))
        }
    } else if c == '>' {
        if chars.len() - pos > 1 && chars[pos + 1] == '=' {
            Some((Token::GreaterEqual, pos + 2))
        } else {
            Some((Token::Greater, pos + 1))
        }
    } else {
        None
    }
}

/// Splits a text into its tokens; `None` where some part of it is no token.
pub fn tokenize(text: &str) -> (r: Option<Vec<Token>>)
    ensures
        match lex(text@) {
            Some(tokens) => r matches Some(v) && v@ == tokens,
            None => r is None,
        },
{
    let chars = chars_of(text);
    let mut out: Vec<Token> = Vec::new();
    let mut pos: usize = 0;
    assert(chars@.skip(0) =~= chars@);
    assert(Seq::<Token>::empty() + lex(chars@)->0 =~= lex(chars@)->0);
    while pos < chars.len()
        invariant
            pos <= chars@.len(),
            chars@ == text@,
            lex(chars@) == prepend(out@, lex(chars@.skip(pos as int))),
        decreases chars@.len() - pos,
    {
        let ghost rest = chars@.skip(pos as int);
        assert(rest[0] == chars@[pos as int]);
        if is_space_char(chars[pos]) {
            assert(rest.skip(1) =~= chars@.skip(pos + 1));
            pos += 1;
        } else {
            match scan_at(&chars, pos) {
                Some((token, end)) => {
                    proof {
                        assert(rest.skip(end - pos) =~= chars@.skip(end as int));
                        let tail = lex(chars@.skip(end as int));
                        if tail is Some {
                            assert(out@ + (seq![token] + tail->0) =~= out@.push(token) + tail->0);
                        }
                    }
                    out.push(token);
                    pos = end;
                },
                None => {
                    return None;
                },
            }
        }
    }
    proof {
        assert(chars@.skip(pos as int).len() == 0);
        assert(out@ + Seq::<Token>::empty() =~= out@);
    }
    Some(out)
}

} // verus!
